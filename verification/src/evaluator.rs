use vstd::prelude::*;
use vstd::string::StringExecFns;
use crate::atom::{Atom, AtomSpec, view_atoms, view_names, lemma_view_atoms, type_text};
use crate::environment::{Environment, FrameSpec, env_wf, lookup_spec};
use crate::parser::{ParseError, parse, parse_program};
use crate::lexer::lex;
use crate::render::atom_text;
use crate::text::{int_text, nat_string, str_eq};

verus! {

/// Why evaluation failed.  Every error is recoverable at the top level: a
/// failed call leaves the environment in a defined state and never ends the
/// process.
#[derive(Debug)]
pub enum EvalError {
    /// The source text was not one well-formed parenthesized form.
    ParseError(ParseError),
    /// A special form was used with the wrong arity or argument shape;
    /// carries the form or operator name.
    InvalidForm(String),
    /// A symbol with no binding in the scope chain; carries the name.
    UnboundSymbol(String),
    /// The symbol in call position is bound to a non-lambda; carries the name.
    NotCallable(String),
    /// An operand or condition of the wrong runtime type.
    TypeMismatch { expected: String, found: String },
    /// Integer division with a zero divisor.
    DivisionByZero,
    /// A call supplied fewer arguments than the lambda has parameters.
    ArityError { expected: usize, given: usize },
    /// The program nested or called deeper than the evaluation depth limit.
    DepthExceeded,
}

/// The mathematical model of an evaluation error.
pub enum EvalErrorSpec {
    ParseError(ParseError),
    InvalidForm(Seq<char>),
    UnboundSymbol(Seq<char>),
    NotCallable(Seq<char>),
    TypeMismatch { expected: Seq<char>, found: Seq<char> },
    DivisionByZero,
    ArityError { expected: int, given: int },
    DepthExceeded,
}

impl View for EvalError {
    type V = EvalErrorSpec;

    open spec fn view(&self) -> EvalErrorSpec {
        match self {
            EvalError::ParseError(pe) => EvalErrorSpec::ParseError(*pe),
            EvalError::InvalidForm(s) => EvalErrorSpec::InvalidForm(s@),
            EvalError::UnboundSymbol(s) => EvalErrorSpec::UnboundSymbol(s@),
            EvalError::NotCallable(s) => EvalErrorSpec::NotCallable(s@),
            EvalError::TypeMismatch { expected, found } => (EvalErrorSpec::TypeMismatch {
                expected: expected@,
                found: found@,
            }),
            EvalError::DivisionByZero => EvalErrorSpec::DivisionByZero,
            EvalError::ArityError { expected, given } => (EvalErrorSpec::ArityError {
                expected: *expected as int,
                given: *given as int,
            }),
            EvalError::DepthExceeded => EvalErrorSpec::DepthExceeded,
        }
    }
}

/// The model of an evaluation result.
pub open spec fn res_view(r: Result<Atom, EvalError>) -> Result<AtomSpec, EvalErrorSpec> {
    match r {
        Result::Ok(a) => Ok(a@),
        Result::Err(e) => Err(e@),
    }
}

/// What one evaluation step leaves behind: the result, the environment,
/// and the text written by `print` so far.
pub struct EvalStep {
    pub r: Result<AtomSpec, EvalErrorSpec>,
    pub env: Seq<FrameSpec>,
    pub out: Seq<Seq<char>>,
}

/// Like `EvalStep` for helpers that produce no value of their own.
pub struct EvalUnitStep {
    pub r: Result<(), EvalErrorSpec>,
    pub env: Seq<FrameSpec>,
    pub out: Seq<Seq<char>>,
}

/// Like `EvalStep` for helpers that produce a run of values.
pub struct EvalItemsStep {
    pub r: Result<Seq<AtomSpec>, EvalErrorSpec>,
    pub env: Seq<FrameSpec>,
    pub out: Seq<Seq<char>>,
}

/// Binding a name in exactly one frame: what `Environment::set` does.
pub open spec fn env_set(
    env: Seq<FrameSpec>,
    frame: int,
    key: Seq<char>,
    value: AtomSpec,
) -> Seq<FrameSpec> {
    env.update(
        frame,
        FrameSpec { parent: env[frame].parent, bindings: env[frame].bindings.insert(key, value) },
    )
}

/// The binary operators, spelled as prefix calls of arity two.
pub open spec fn is_binop(s: Seq<char>) -> bool {
    ||| s == "+"@
    ||| s == "-"@
    ||| s == "*"@
    ||| s == "/"@
    ||| s == "<"@
    ||| s == "<="@
    ||| s == ">"@
    ||| s == ">="@
    ||| s == "="@
    ||| s == "!="@
}

/// Signed division truncated toward zero: the magnitudes divide and the
/// signs multiply, so `trunc_div(7, 2) == 3` and `trunc_div(-7, 2) == -3`.
pub open spec fn trunc_div(x: int, d: int) -> int {
    if x == 0 {
        0
    } else if x > 0 && d > 0 {
        x / d
    } else if x < 0 && d < 0 {
        (x * -1) / (d * -1)
    } else if x < 0 {
        ((x * -1) / d) * -1
    } else {
        (x / (d * -1)) * -1
    }
}

/// A division result folded back into 64 bits: only `MIN / -1` overflows,
/// and it wraps back to `MIN`.
pub open spec fn div_wrap(a: i64, b: i64) -> i64 {
    if a == i64::MIN && b == -1 {
        i64::MIN
    } else {
        trunc_div(a as int, b as int) as i64
    }
}

/// One binary operator applied to two evaluated operands.  Arithmetic on
/// two integers wraps around on overflow; comparisons yield booleans;
/// a zero divisor and non-integer operands are reported, the left operand
/// checked first.
pub open spec fn apply_binop(
    op: Seq<char>,
    l: AtomSpec,
    r: AtomSpec,
) -> Result<AtomSpec, EvalErrorSpec> {
    match (l, r) {
        (AtomSpec::Integer(a), AtomSpec::Integer(b)) => {
            if op == "+"@ {
                Ok(AtomSpec::Integer(a.wrapping_add(b)))
            } else if op == "-"@ {
                Ok(AtomSpec::Integer(a.wrapping_sub(b)))
            } else if op == "*"@ {
                Ok(AtomSpec::Integer(a.wrapping_mul(b)))
            } else if op == "/"@ {
                if b == 0 {
                    Err(EvalErrorSpec::DivisionByZero)
                } else {
                    Ok(AtomSpec::Integer(div_wrap(a, b)))
                }
            } else if op == "<"@ {
                Ok(AtomSpec::Bool(a < b))
            } else if op == "<="@ {
                Ok(AtomSpec::Bool(a <= b))
            } else if op == ">"@ {
                Ok(AtomSpec::Bool(a > b))
            } else if op == ">="@ {
                Ok(AtomSpec::Bool(a >= b))
            } else if op == "="@ {
                Ok(AtomSpec::Bool(a == b))
            } else {
                Ok(AtomSpec::Bool(a != b))
            }
        },
        (AtomSpec::Integer(_), other) => (Err(
            EvalErrorSpec::TypeMismatch { expected: "Integer"@, found: type_text(other) },
        )),
        (other, _) => (Err(
            EvalErrorSpec::TypeMismatch { expected: "Integer"@, found: type_text(other) },
        )),
    }
}

/// Whether every atom of a parameter list is a symbol.
pub open spec fn all_symbols(items: Seq<AtomSpec>) -> bool {
    forall|i: int| 0 <= i < items.len() ==> (#[trigger] items[i]) is Symbol
}

/// The names of a parameter list of symbols.
pub open spec fn symbol_names(items: Seq<AtomSpec>) -> Seq<Seq<char>> {
    Seq::new(items.len(), |i: int| items[i]->Symbol_0)
}

/// The big-step semantics of the language, indexed by a fuel that bounds
/// how deep evaluation may nest; `fuel` 0 reports `DepthExceeded`.  Every
/// recursive step into a subexpression or a call body spends one unit, so
/// the fuel bounds nesting and call depth, not how often a `do` body runs.
pub open spec fn eval_spec(
    a: AtomSpec,
    env: Seq<FrameSpec>,
    frame: int,
    out: Seq<Seq<char>>,
    fuel: nat,
) -> EvalStep
    decreases fuel, 0int, 0int,
{
    if fuel == 0 {
        EvalStep { r: Err(EvalErrorSpec::DepthExceeded), env, out }
    } else {
        match a {
            AtomSpec::Void => EvalStep { r: Ok(a), env, out },
            AtomSpec::Integer(_) => EvalStep { r: Ok(a), env, out },
            AtomSpec::Bool(_) => EvalStep { r: Ok(a), env, out },
            AtomSpec::Str(_) => EvalStep { r: Ok(a), env, out },
            AtomSpec::Symbol(name) => (match lookup_spec(env, frame, name) {
                Option::Some(v) => EvalStep { r: Ok(v), env, out },
                Option::None => EvalStep {
                    r: Err(EvalErrorSpec::UnboundSymbol(name)),
                    env,
                    out,
                },
            }),
            AtomSpec::Lambda(_, _) => EvalStep { r: Ok(AtomSpec::Void), env, out },
            AtomSpec::List(items) => {
                if items.len() > 0 && items[0] is Symbol {
                    eval_dispatch(items, items[0]->Symbol_0, env, frame, out, (fuel - 1) as nat)
                } else {
                    match eval_plain_items(items, 0, env, frame, out, (fuel - 1) as nat) {
                        EvalItemsStep { r: Result::Ok(vs), env: env2, out: out2 } => EvalStep {
                            r: Ok(AtomSpec::List(vs)),
                            env: env2,
                            out: out2,
                        },
                        EvalItemsStep { r: Result::Err(e), env: env2, out: out2 } => EvalStep {
                            r: Err(e),
                            env: env2,
                            out: out2,
                        },
                    }
                }
            },
        }
    }
}

/// Dispatch of a symbol-headed list: a binary operator, a special form, or
/// a function call, in that order; the form names always win over bindings.
pub open spec fn eval_dispatch(
    items: Seq<AtomSpec>,
    name: Seq<char>,
    env: Seq<FrameSpec>,
    frame: int,
    out: Seq<Seq<char>>,
    fuel: nat,
) -> EvalStep
    decreases fuel, 3int, 0int,
{
    if is_binop(name) {
        eval_binop_form(items, name, env, frame, out, fuel)
    } else if name == "define"@ {
        eval_define_form(items, env, frame, out, fuel)
    } else if name == "if"@ {
        eval_if_form(items, env, frame, out, fuel)
    } else if name == "do"@ {
        eval_do_form(items, env, frame, out, fuel)
    } else if name == "lambda"@ {
        eval_lambda_form(items, env, out)
    } else if name == "print"@ {
        eval_print_form(items, env, frame, out, fuel)
    } else if name == "quote"@ {
        (if items.len() < 2 {
            EvalStep { r: Err(EvalErrorSpec::InvalidForm("quote"@)), env, out }
        } else {
            EvalStep { r: Ok(items[1]), env, out }
        })
    } else {
        eval_call_form(items, name, env, frame, out, fuel)
    }
}

/// A binary operator form: exactly the operator and two operands, which
/// evaluate left to right before the operator applies.
pub open spec fn eval_binop_form(
    items: Seq<AtomSpec>,
    name: Seq<char>,
    env: Seq<FrameSpec>,
    frame: int,
    out: Seq<Seq<char>>,
    fuel: nat,
) -> EvalStep
    decreases fuel, 2int, 0int,
{
    if items.len() != 3 {
        EvalStep { r: Err(EvalErrorSpec::InvalidForm(name)), env, out }
    } else {
        match eval_spec(items[1], env, frame, out, fuel) {
            EvalStep { r: Result::Ok(l), env: env1, out: out1 } => {
                match eval_spec(items[2], env1, frame, out1, fuel) {
                    EvalStep { r: Result::Ok(rv), env: env2, out: out2 } => EvalStep {
                        r: apply_binop(name, l, rv),
                        env: env2,
                        out: out2,
                    },
                    err_step => err_step,
                }
            },
            err_step => err_step,
        }
    }
}

/// A `define` form: exactly `define`, a symbol, and one expression, whose
/// value is bound to the symbol in the current frame; yields `Void`.
pub open spec fn eval_define_form(
    items: Seq<AtomSpec>,
    env: Seq<FrameSpec>,
    frame: int,
    out: Seq<Seq<char>>,
    fuel: nat,
) -> EvalStep
    decreases fuel, 2int, 0int,
{
    if items.len() != 3 {
        EvalStep { r: Err(EvalErrorSpec::InvalidForm("define"@)), env, out }
    } else if !(items[1] is Symbol) {
        EvalStep { r: Err(EvalErrorSpec::InvalidForm("define"@)), env, out }
    } else {
        match eval_spec(items[2], env, frame, out, fuel) {
            EvalStep { r: Result::Ok(v), env: env1, out: out1 } => EvalStep {
                r: Ok(AtomSpec::Void),
                env: env_set(env1, frame, items[1]->Symbol_0, v),
                out: out1,
            },
            err_step => err_step,
        }
    }
}

/// An `if` form: exactly `if`, a boolean condition, and two branches, of
/// which only the taken one evaluates.
pub open spec fn eval_if_form(
    items: Seq<AtomSpec>,
    env: Seq<FrameSpec>,
    frame: int,
    out: Seq<Seq<char>>,
    fuel: nat,
) -> EvalStep
    decreases fuel, 2int, 0int,
{
    if items.len() != 4 {
        EvalStep { r: Err(EvalErrorSpec::InvalidForm("if"@)), env, out }
    } else {
        match eval_spec(items[1], env, frame, out, fuel) {
            EvalStep { r: Result::Ok(c), env: env1, out: out1 } => {
                match c {
                    AtomSpec::Bool(b) => (if b {
                        eval_spec(items[2], env1, frame, out1, fuel)
                    } else {
                        eval_spec(items[3], env1, frame, out1, fuel)
                    }),
                    other => EvalStep {
                        r: Err(
                            EvalErrorSpec::TypeMismatch {
                                expected: "Bool"@,
                                found: type_text(other),
                            },
                        ),
                        env: env1,
                        out: out1,
                    },
                }
            },
            err_step => err_step,
        }
    }
}

/// A `do` form: `do`, an integer count, and a body expression, which runs
/// count times in order; a count of zero or below runs it not at all.
/// Yields `Void`; every intermediate result is discarded.
pub open spec fn eval_do_form(
    items: Seq<AtomSpec>,
    env: Seq<FrameSpec>,
    frame: int,
    out: Seq<Seq<char>>,
    fuel: nat,
) -> EvalStep
    decreases fuel, 2int, 0int,
{
    if items.len() < 3 {
        EvalStep { r: Err(EvalErrorSpec::InvalidForm("do"@)), env, out }
    } else {
        match eval_spec(items[1], env, frame, out, fuel) {
            EvalStep { r: Result::Ok(c), env: env1, out: out1 } => {
                match c {
                    AtomSpec::Integer(n) => {
                        match eval_do_iter(n as int, items[2], env1, frame, out1, fuel) {
                            EvalUnitStep { r: Result::Ok(_), env: env2, out: out2 } => EvalStep {
                                r: Ok(AtomSpec::Void),
                                env: env2,
                                out: out2,
                            },
                            EvalUnitStep { r: Result::Err(e), env: env2, out: out2 } => EvalStep {
                                r: Err(e),
                                env: env2,
                                out: out2,
                            },
                        }
                    },
                    other => EvalStep {
                        r: Err(
                            EvalErrorSpec::TypeMismatch {
                                expected: "Integer"@,
                                found: type_text(other),
                            },
                        ),
                        env: env1,
                        out: out1,
                    },
                }
            },
            err_step => err_step,
        }
    }
}

/// Runs the `do` body `n` more times.
pub open spec fn eval_do_iter(
    n: int,
    body: AtomSpec,
    env: Seq<FrameSpec>,
    frame: int,
    out: Seq<Seq<char>>,
    fuel: nat,
) -> EvalUnitStep
    decreases fuel, 1int, (if n >= 0 { n } else { 0int }),
{
    if n <= 0 {
        EvalUnitStep { r: Ok(()), env, out }
    } else {
        match eval_spec(body, env, frame, out, fuel) {
            EvalStep { r: Result::Ok(_), env: env1, out: out1 } => eval_do_iter(
                n - 1,
                body,
                env1,
                frame,
                out1,
                fuel,
            ),
            EvalStep { r: Result::Err(e), env: env1, out: out1 } => EvalUnitStep {
                r: Err(e),
                env: env1,
                out: out1,
            },
        }
    }
}

/// A `lambda` form: exactly `lambda`, a list of parameter symbols, and a
/// list of body expressions, kept unevaluated.  Touches nothing.
pub open spec fn eval_lambda_form(
    items: Seq<AtomSpec>,
    env: Seq<FrameSpec>,
    out: Seq<Seq<char>>,
) -> EvalStep {
    if items.len() != 3 {
        EvalStep { r: Err(EvalErrorSpec::InvalidForm("lambda"@)), env, out }
    } else {
        match (items[1], items[2]) {
            (AtomSpec::List(params), AtomSpec::List(body)) => (if all_symbols(params) {
                EvalStep { r: Ok(AtomSpec::Lambda(symbol_names(params), body)), env, out }
            } else {
                EvalStep { r: Err(EvalErrorSpec::InvalidForm("lambda"@)), env, out }
            }),
            _ => EvalStep { r: Err(EvalErrorSpec::InvalidForm("lambda"@)), env, out },
        }
    }
}

/// A `print` form: evaluates its argument and appends the text to the
/// output; yields `Void`.
pub open spec fn eval_print_form(
    items: Seq<AtomSpec>,
    env: Seq<FrameSpec>,
    frame: int,
    out: Seq<Seq<char>>,
    fuel: nat,
) -> EvalStep
    decreases fuel, 2int, 0int,
{
    if items.len() < 2 {
        EvalStep { r: Err(EvalErrorSpec::InvalidForm("print"@)), env, out }
    } else {
        match eval_spec(items[1], env, frame, out, fuel) {
            EvalStep { r: Result::Ok(v), env: env1, out: out1 } => EvalStep {
                r: Ok(AtomSpec::Void),
                env: env1,
                out: out1.push(atom_text(v)),
            },
            err_step => err_step,
        }
    }
}

/// A function call: the head symbol must be bound to a lambda, a fresh
/// child frame of the caller's is made, the first `parameters` arguments
/// evaluate one by one in the caller's frame and bind in the child, and
/// the body runs there.  Supplying fewer arguments than parameters is an
/// arity error; extra arguments stay unevaluated.
pub open spec fn eval_call_form(
    items: Seq<AtomSpec>,
    name: Seq<char>,
    env: Seq<FrameSpec>,
    frame: int,
    out: Seq<Seq<char>>,
    fuel: nat,
) -> EvalStep
    decreases fuel, 2int, 0int,
{
    match lookup_spec(env, frame, name) {
        Option::None => EvalStep { r: Err(EvalErrorSpec::UnboundSymbol(name)), env, out },
        Option::Some(AtomSpec::Lambda(params, body)) => {
            if items.len() < params.len() + 1 {
                EvalStep {
                    r: Err(
                        EvalErrorSpec::ArityError {
                            expected: params.len() as int,
                            given: items.len() - 1,
                        },
                    ),
                    env,
                    out,
                }
            } else {
                let callee = env.len() as int;
                let env_call = env.push(FrameSpec { parent: Some(frame), bindings: Map::empty() });
                match eval_call_args(params, items, 0, env_call, frame, callee, out, fuel) {
                    EvalUnitStep { r: Result::Ok(_), env: env1, out: out1 } => eval_spec(
                        AtomSpec::List(body),
                        env1,
                        callee,
                        out1,
                        fuel,
                    ),
                    EvalUnitStep { r: Result::Err(e), env: env1, out: out1 } => EvalStep {
                        r: Err(e),
                        env: env1,
                        out: out1,
                    },
                }
            }
        },
        Option::Some(_) => EvalStep { r: Err(EvalErrorSpec::NotCallable(name)), env, out },
    }
}

/// Evaluates argument `i` in the caller's frame and binds it to parameter
/// `i` in the callee frame, for every parameter from `i` on.  Argument
/// `i` is the call's item `i + 1`.
pub open spec fn eval_call_args(
    params: Seq<Seq<char>>,
    items: Seq<AtomSpec>,
    i: int,
    env: Seq<FrameSpec>,
    frame: int,
    callee: int,
    out: Seq<Seq<char>>,
    fuel: nat,
) -> EvalUnitStep
    decreases fuel, 1int, (if params.len() - i >= 0 { params.len() - i } else { 0int }),
{
    if i < 0 || i >= params.len() {
        EvalUnitStep { r: Ok(()), env, out }
    } else {
        match eval_spec(items[i + 1], env, frame, out, fuel) {
            EvalStep { r: Result::Ok(v), env: env1, out: out1 } => eval_call_args(
                params,
                items,
                i + 1,
                env_set(env1, callee, params[i], v),
                frame,
                callee,
                out1,
                fuel,
            ),
            EvalStep { r: Result::Err(e), env: env1, out: out1 } => EvalUnitStep {
                r: Err(e),
                env: env1,
                out: out1,
            },
        }
    }
}

/// Evaluates every item of a plain (non-call) list from `i` on, in order,
/// dropping `Void` results and collecting the rest.
pub open spec fn eval_plain_items(
    items: Seq<AtomSpec>,
    i: int,
    env: Seq<FrameSpec>,
    frame: int,
    out: Seq<Seq<char>>,
    fuel: nat,
) -> EvalItemsStep
    decreases fuel, 1int, (if items.len() - i >= 0 { items.len() - i } else { 0int }),
{
    if i < 0 || i >= items.len() {
        EvalItemsStep { r: Ok(Seq::empty()), env, out }
    } else {
        match eval_spec(items[i], env, frame, out, fuel) {
            EvalStep { r: Result::Ok(v), env: env1, out: out1 } => {
                match eval_plain_items(items, i + 1, env1, frame, out1, fuel) {
                    EvalItemsStep { r: Result::Ok(vs), env: env2, out: out2 } => EvalItemsStep {
                        r: Ok(
                            (if v is Void {
                                vs
                            } else {
                                seq![v] + vs
                            }),
                        ),
                        env: env2,
                        out: out2,
                    },
                    err_step => err_step,
                }
            },
            EvalStep { r: Result::Err(e), env: env1, out: out1 } => EvalItemsStep {
                r: Err(e),
                env: env1,
                out: out1,
            },
        }
    }
}

/// The whole pipeline on one unit of source text: parse, then evaluate at
/// the root frame with the full depth budget.
pub open spec fn evaluate_spec(
    src: Seq<char>,
    env: Seq<FrameSpec>,
    out: Seq<Seq<char>>,
) -> EvalStep {
    match parse_program(lex(src)) {
        Result::Err(pe) => EvalStep { r: Err(EvalErrorSpec::ParseError(pe)), env, out },
        Result::Ok(ast) => eval_spec(ast, env, 0, out, DEPTH_LIMIT as nat),
    }
}

/// How deep evaluation may nest before `DepthExceeded` is reported, so
/// that an unboundedly deep program ends in an error rather than in an
/// exhausted call stack.
pub const DEPTH_LIMIT: u64 = 4096;

proof fn lemma_div_le(x: int, d: int)
    requires
        x >= 0,
        d >= 1,
    ensures
        0 <= x / d <= x,
{
    vstd::arithmetic::div_mod::lemma_fundamental_div_mod(x, d);
    vstd::arithmetic::div_mod::lemma_mod_bound(x, d);
    assert(0 <= x / d <= x) by (nonlinear_arith)
        requires
            x >= 0,
            d >= 1,
            x == d * (x / d) + (x % d),
            0 <= x % d < d,
    ;
}

/// Truncated division of 64-bit values stays in 64 bits except for
/// `MIN / -1`, whose true quotient is one past `MAX`.
proof fn lemma_trunc_div_bounds(a: i64, b: i64)
    requires
        b != 0,
    ensures
        (a == i64::MIN && b == -1) ==> trunc_div(a as int, b as int) == (i64::MAX as int) + 1,
        !(a == i64::MIN && b == -1) ==> i64::MIN as int <= trunc_div(a as int, b as int)
            <= i64::MAX as int,
{
    let x = a as int;
    let d = b as int;
    if x == 0 {
    } else if x > 0 && d > 0 {
        lemma_div_le(x, d);
    } else if x < 0 && d < 0 {
        lemma_div_le(x * -1, d * -1);
        if d == -1 {
            vstd::arithmetic::div_mod::lemma_fundamental_div_mod(x * -1, 1);
            vstd::arithmetic::div_mod::lemma_mod_bound(x * -1, 1);
            assert((x * -1) / 1 == x * -1);
        } else {
            let q = (x * -1) / (d * -1);
            vstd::arithmetic::div_mod::lemma_fundamental_div_mod(x * -1, d * -1);
            vstd::arithmetic::div_mod::lemma_mod_bound(x * -1, d * -1);
            assert(q <= i64::MAX as int) by (nonlinear_arith)
                requires
                    q >= 0,
                    d * -1 >= 2,
                    x * -1 <= 0x8000000000000000int,
                    x * -1 == (d * -1) * q + ((x * -1) % (d * -1)),
                    0 <= (x * -1) % (d * -1),
            ;
        }
    } else if x < 0 {
        lemma_div_le(x * -1, d);
    } else {
        lemma_div_le(x, d * -1);
    }
}

/// Applies one binary operator to two already-evaluated operands.
fn apply_binop_exec(op: &String, l: &Atom, rv: &Atom) -> (r: Result<Atom, EvalError>)
    ensures
        res_view(r) == apply_binop(op@, l@, rv@),
{
    match (l, rv) {
        (Atom::Integer(x), Atom::Integer(y)) => {
            let a = *x;
            let b = *y;
            if str_eq(op.as_str(), "+") {
                Ok(Atom::Integer(a.wrapping_add(b)))
            } else if str_eq(op.as_str(), "-") {
                Ok(Atom::Integer(a.wrapping_sub(b)))
            } else if str_eq(op.as_str(), "*") {
                Ok(Atom::Integer(a.wrapping_mul(b)))
            } else if str_eq(op.as_str(), "/") {
                if b == 0 {
                    Err(EvalError::DivisionByZero)
                } else {
                    proof {
                        lemma_trunc_div_bounds(a, b);
                    }
                    match a.checked_div(b) {
                        Option::Some(q) => Ok(Atom::Integer(q)),
                        Option::None => Ok(Atom::Integer(i64::MIN)),
                    }
                }
            } else if str_eq(op.as_str(), "<") {
                Ok(Atom::Bool(a < b))
            } else if str_eq(op.as_str(), "<=") {
                Ok(Atom::Bool(a <= b))
            } else if str_eq(op.as_str(), ">") {
                Ok(Atom::Bool(a > b))
            } else if str_eq(op.as_str(), ">=") {
                Ok(Atom::Bool(a >= b))
            } else if str_eq(op.as_str(), "=") {
                Ok(Atom::Bool(a == b))
            } else {
                Ok(Atom::Bool(a != b))
            }
        },
        (Atom::Integer(_), other) => Err(
            EvalError::TypeMismatch { expected: "Integer".to_owned(), found: other.type_label() },
        ),
        (other, _) => Err(
            EvalError::TypeMismatch { expected: "Integer".to_owned(), found: other.type_label() },
        ),
    }
}

fn is_binop_exec(s: &String) -> (r: bool)
    ensures
        r == is_binop(s@),
{
    str_eq(s.as_str(), "+") || str_eq(s.as_str(), "-") || str_eq(s.as_str(), "*") || str_eq(
        s.as_str(),
        "/",
    ) || str_eq(s.as_str(), "<") || str_eq(s.as_str(), "<=") || str_eq(s.as_str(), ">") || str_eq(
        s.as_str(),
        ">=",
    ) || str_eq(s.as_str(), "=") || str_eq(s.as_str(), "!=")
}

/// Evaluates one atom in the given frame, spending one unit of fuel per
/// nesting or call step; behaves exactly as `eval_spec` says.
fn eval_atom(a: &Atom, env: &mut Environment, frame: usize, out: &mut Vec<String>, fuel: u64) -> (r:
    Result<Atom, EvalError>)
    requires
        old(env).inv(),
        env_wf(old(env)@),
        frame < old(env)@.len(),
    ensures
        final(env).inv(),
        env_wf(final(env)@),
        final(env)@.len() >= old(env)@.len(),
        ({
            let step = eval_spec(a@, old(env)@, frame as int, view_names(old(out)@), fuel as nat);
            &&& res_view(r) == step.r
            &&& final(env)@ == step.env
            &&& view_names(final(out)@) == step.out
        }),
    decreases fuel, 0int, 0int,
{
    broadcast use lemma_view_atoms;

    if fuel == 0 {
        return Err(EvalError::DepthExceeded);
    }
    match a {
        Atom::Void => Ok(Atom::Void),
        Atom::Integer(n) => Ok(Atom::Integer(*n)),
        Atom::Bool(b) => Ok(Atom::Bool(*b)),
        Atom::String(s) => Ok(Atom::String(s.clone())),
        Atom::Symbol(s) => {
            match env.get(frame, s.as_str()) {
                Option::Some(v) => Ok(v),
                Option::None => Err(EvalError::UnboundSymbol(s.clone())),
            }
        },
        Atom::Lambda(_, _) => Ok(Atom::Void),
        Atom::List(items) => {
            let ghost si = view_atoms(items@);
            let head_is_symbol = items.len() > 0 && (match &items[0] {
                Atom::Symbol(_) => true,
                _ => false,
            });
            if head_is_symbol {
                let name = match &items[0] {
                    Atom::Symbol(s) => s,
                    _ => unreached(),
                };
                if is_binop_exec(name) {
                    eval_binop_exec(items, name, env, frame, out, fuel - 1)
                } else if str_eq(name.as_str(), "define") {
                    eval_define_exec(items, env, frame, out, fuel - 1)
                } else if str_eq(name.as_str(), "if") {
                    eval_if_exec(items, env, frame, out, fuel - 1)
                } else if str_eq(name.as_str(), "do") {
                    eval_do_exec(items, env, frame, out, fuel - 1)
                } else if str_eq(name.as_str(), "lambda") {
                    eval_lambda_exec(items, env, out)
                } else if str_eq(name.as_str(), "print") {
                    eval_print_exec(items, env, frame, out, fuel - 1)
                } else if str_eq(name.as_str(), "quote") {
                    if items.len() < 2 {
                        Err(EvalError::InvalidForm("quote".to_owned()))
                    } else {
                        Ok(items[1].duplicate())
                    }
                } else {
                    eval_call_exec(items, name, env, frame, out, fuel - 1)
                }
            } else {
                eval_plain_exec(items, env, frame, out, fuel - 1)
            }
        },
    }
}

/// A binary operator form, as `eval_binop_form` says.
fn eval_binop_exec(
    items: &Vec<Atom>,
    name: &String,
    env: &mut Environment,
    frame: usize,
    out: &mut Vec<String>,
    fuel: u64,
) -> (r: Result<Atom, EvalError>)
    requires
        old(env).inv(),
        env_wf(old(env)@),
        frame < old(env)@.len(),
    ensures
        final(env).inv(),
        env_wf(final(env)@),
        final(env)@.len() >= old(env)@.len(),
        ({
            let step = eval_binop_form(
                view_atoms(items@),
                name@,
                old(env)@,
                frame as int,
                view_names(old(out)@),
                fuel as nat,
            );
            &&& res_view(r) == step.r
            &&& final(env)@ == step.env
            &&& view_names(final(out)@) == step.out
        }),
    decreases fuel, 2int, 0int,
{
    broadcast use lemma_view_atoms;

    if items.len() != 3 {
        return Err(EvalError::InvalidForm(name.clone()));
    }
    let l = match eval_atom(&items[1], env, frame, out, fuel) {
        Result::Ok(v) => v,
        Result::Err(e) => {
            return Err(e);
        },
    };
    let rv = match eval_atom(&items[2], env, frame, out, fuel) {
        Result::Ok(v) => v,
        Result::Err(e) => {
            return Err(e);
        },
    };
    apply_binop_exec(name, &l, &rv)
}

/// A `define` form, as `eval_define_form` says.
fn eval_define_exec(
    items: &Vec<Atom>,
    env: &mut Environment,
    frame: usize,
    out: &mut Vec<String>,
    fuel: u64,
) -> (r: Result<Atom, EvalError>)
    requires
        old(env).inv(),
        env_wf(old(env)@),
        frame < old(env)@.len(),
    ensures
        final(env).inv(),
        env_wf(final(env)@),
        final(env)@.len() >= old(env)@.len(),
        ({
            let step = eval_define_form(
                view_atoms(items@),
                old(env)@,
                frame as int,
                view_names(old(out)@),
                fuel as nat,
            );
            &&& res_view(r) == step.r
            &&& final(env)@ == step.env
            &&& view_names(final(out)@) == step.out
        }),
    decreases fuel, 2int, 0int,
{
    broadcast use lemma_view_atoms;

    if items.len() != 3 {
        return Err(EvalError::InvalidForm("define".to_owned()));
    }
    let symbol = match &items[1] {
        Atom::Symbol(s) => s.clone(),
        _ => {
            return Err(EvalError::InvalidForm("define".to_owned()));
        },
    };
    let v = match eval_atom(&items[2], env, frame, out, fuel) {
        Result::Ok(v) => v,
        Result::Err(e) => {
            return Err(e);
        },
    };
    env.set(frame, symbol.as_str(), v);
    Ok(Atom::Void)
}

/// An `if` form, as `eval_if_form` says.
fn eval_if_exec(
    items: &Vec<Atom>,
    env: &mut Environment,
    frame: usize,
    out: &mut Vec<String>,
    fuel: u64,
) -> (r: Result<Atom, EvalError>)
    requires
        old(env).inv(),
        env_wf(old(env)@),
        frame < old(env)@.len(),
    ensures
        final(env).inv(),
        env_wf(final(env)@),
        final(env)@.len() >= old(env)@.len(),
        ({
            let step = eval_if_form(
                view_atoms(items@),
                old(env)@,
                frame as int,
                view_names(old(out)@),
                fuel as nat,
            );
            &&& res_view(r) == step.r
            &&& final(env)@ == step.env
            &&& view_names(final(out)@) == step.out
        }),
    decreases fuel, 2int, 0int,
{
    broadcast use lemma_view_atoms;

    if items.len() != 4 {
        return Err(EvalError::InvalidForm("if".to_owned()));
    }
    let c = match eval_atom(&items[1], env, frame, out, fuel) {
        Result::Ok(v) => v,
        Result::Err(e) => {
            return Err(e);
        },
    };
    match c {
        Atom::Bool(b) => {
            if b {
                eval_atom(&items[2], env, frame, out, fuel)
            } else {
                eval_atom(&items[3], env, frame, out, fuel)
            }
        },
        other => Err(
            EvalError::TypeMismatch { expected: "Bool".to_owned(), found: other.type_label() },
        ),
    }
}

/// A `do` form, as `eval_do_form` says.
fn eval_do_exec(
    items: &Vec<Atom>,
    env: &mut Environment,
    frame: usize,
    out: &mut Vec<String>,
    fuel: u64,
) -> (r: Result<Atom, EvalError>)
    requires
        old(env).inv(),
        env_wf(old(env)@),
        frame < old(env)@.len(),
    ensures
        final(env).inv(),
        env_wf(final(env)@),
        final(env)@.len() >= old(env)@.len(),
        ({
            let step = eval_do_form(
                view_atoms(items@),
                old(env)@,
                frame as int,
                view_names(old(out)@),
                fuel as nat,
            );
            &&& res_view(r) == step.r
            &&& final(env)@ == step.env
            &&& view_names(final(out)@) == step.out
        }),
    decreases fuel, 2int, 0int,
{
    broadcast use lemma_view_atoms;

    if items.len() < 3 {
        return Err(EvalError::InvalidForm("do".to_owned()));
    }
    let c = match eval_atom(&items[1], env, frame, out, fuel) {
        Result::Ok(v) => v,
        Result::Err(e) => {
            return Err(e);
        },
    };
    let n = match c {
        Atom::Integer(n) => n,
        other => {
            return Err(
                EvalError::TypeMismatch {
                    expected: "Integer".to_owned(),
                    found: other.type_label(),
                },
            );
        },
    };
    let ghost body = view_atoms(items@)[2];
    let mut k: i64 = n;
    while k > 0
        invariant
            env.inv(),
            env_wf(env@),
            frame < env@.len(),
            frame < old(env)@.len(),
            env@.len() >= old(env)@.len(),
            2 < items@.len(),
            body == view_atoms(items@)[2],
            body == items@[2]@,
            ({
                let full = eval_do_form(
                    view_atoms(items@),
                    old(env)@,
                    frame as int,
                    view_names(old(out)@),
                    fuel as nat,
                );
                let rem = eval_do_iter(
                    k as int,
                    body,
                    env@,
                    frame as int,
                    view_names(out@),
                    fuel as nat,
                );
                match rem.r {
                    Result::Ok(_) => full == (EvalStep {
                        r: Ok(AtomSpec::Void),
                        env: rem.env,
                        out: rem.out,
                    }),
                    Result::Err(e) => full == (EvalStep { r: Err(e), env: rem.env, out: rem.out }),
                }
            }),
        decreases k,
    {
        broadcast use lemma_view_atoms;

        match eval_atom(&items[2], env, frame, out, fuel) {
            Result::Ok(_) => {
            },
            Result::Err(e) => {
                return Err(e);
            },
        }
        k = k - 1;
    }
    Ok(Atom::Void)
}

/// A `lambda` form, as `eval_lambda_form` says.
fn eval_lambda_exec(items: &Vec<Atom>, env: &mut Environment, out: &mut Vec<String>) -> (r: Result<
    Atom,
    EvalError,
>)
    requires
        old(env).inv(),
        env_wf(old(env)@),
    ensures
        final(env).inv(),
        env_wf(final(env)@),
        final(env)@ == old(env)@,
        view_names(final(out)@) == view_names(old(out)@),
        ({
            let step = eval_lambda_form(view_atoms(items@), old(env)@, view_names(old(out)@));
            &&& res_view(r) == step.r
            &&& final(env)@ == step.env
            &&& view_names(final(out)@) == step.out
        }),
{
    broadcast use lemma_view_atoms;

    if items.len() != 3 {
        return Err(EvalError::InvalidForm("lambda".to_owned()));
    }
    let params = match &items[1] {
        Atom::List(ps) => ps,
        _ => {
            return Err(EvalError::InvalidForm("lambda".to_owned()));
        },
    };
    let body = match &items[2] {
        Atom::List(bs) => bs,
        _ => {
            return Err(EvalError::InvalidForm("lambda".to_owned()));
        },
    };
    let ghost sparams = view_atoms(params@);
    let mut names: Vec<String> = Vec::new();
    let mut k: usize = 0;
    while k < params.len()
        invariant
            k <= params@.len(),
            env.inv(),
            env_wf(env@),
            env@ == old(env)@,
            out@ == old(out)@,
            items@.len() == 3,
            view_atoms(items@).len() == 3,
            view_atoms(items@)[1] == AtomSpec::List(sparams),
            view_atoms(items@)[2] is List,
            sparams == view_atoms(params@),
            names@.len() == k,
            forall|t: int| 0 <= t < k ==> (#[trigger] sparams[t]) is Symbol,
            forall|t: int| 0 <= t < k ==> #[trigger] names@[t]@ == sparams[t]->Symbol_0,
        decreases params@.len() - k,
    {
        broadcast use lemma_view_atoms;

        match &params[k] {
            Atom::Symbol(s) => {
                names.push(s.clone());
            },
            _ => {
                proof {
                    assert(sparams[k as int] == params@[k as int]@);
                    assert(!(sparams[k as int] is Symbol));
                    assert(!all_symbols(sparams));
                }
                return Err(EvalError::InvalidForm("lambda".to_owned()));
            },
        }
        k = k + 1;
    }
    proof {
        assert(all_symbols(sparams));
        assert(view_names(names@) =~= symbol_names(sparams));
    }
    let whole = &items[2];
    proof {
        assert(whole->List_0 == *body);
        assert(decreases_to!(*whole => *body));
        assert(decreases_to!(*body => body@));
    }
    let body_copy = crate::atom::duplicate_atoms(whole, body);
    Ok(Atom::Lambda(names, body_copy))
}

/// A `print` form, as `eval_print_form` says.
fn eval_print_exec(
    items: &Vec<Atom>,
    env: &mut Environment,
    frame: usize,
    out: &mut Vec<String>,
    fuel: u64,
) -> (r: Result<Atom, EvalError>)
    requires
        old(env).inv(),
        env_wf(old(env)@),
        frame < old(env)@.len(),
    ensures
        final(env).inv(),
        env_wf(final(env)@),
        final(env)@.len() >= old(env)@.len(),
        ({
            let step = eval_print_form(
                view_atoms(items@),
                old(env)@,
                frame as int,
                view_names(old(out)@),
                fuel as nat,
            );
            &&& res_view(r) == step.r
            &&& final(env)@ == step.env
            &&& view_names(final(out)@) == step.out
        }),
    decreases fuel, 2int, 0int,
{
    broadcast use lemma_view_atoms;

    if items.len() < 2 {
        return Err(EvalError::InvalidForm("print".to_owned()));
    }
    let v = match eval_atom(&items[1], env, frame, out, fuel) {
        Result::Ok(v) => v,
        Result::Err(e) => {
            return Err(e);
        },
    };
    let line = v.to_text();
    let ghost out_mid = view_names(out@);
    out.push(line);
    proof {
        assert(view_names(out@) =~= out_mid.push(atom_text(v@)));
    }
    Ok(Atom::Void)
}

/// A function call, as `eval_call_form` says.
fn eval_call_exec(
    items: &Vec<Atom>,
    name: &String,
    env: &mut Environment,
    frame: usize,
    out: &mut Vec<String>,
    fuel: u64,
) -> (r: Result<Atom, EvalError>)
    requires
        old(env).inv(),
        env_wf(old(env)@),
        frame < old(env)@.len(),
        items@.len() >= 1,
    ensures
        final(env).inv(),
        env_wf(final(env)@),
        final(env)@.len() >= old(env)@.len(),
        ({
            let step = eval_call_form(
                view_atoms(items@),
                name@,
                old(env)@,
                frame as int,
                view_names(old(out)@),
                fuel as nat,
            );
            &&& res_view(r) == step.r
            &&& final(env)@ == step.env
            &&& view_names(final(out)@) == step.out
        }),
    decreases fuel, 2int, 0int,
{
    broadcast use lemma_view_atoms;

    let ghost si = view_atoms(items@);
    let func = match env.get(frame, name.as_str()) {
        Option::Some(f) => f,
        Option::None => {
            return Err(EvalError::UnboundSymbol(name.clone()));
        },
    };
    match func {
        Atom::Lambda(params, body) => {
            if items.len() <= params.len() {
                return Err(
                    EvalError::ArityError { expected: params.len(), given: items.len() - 1 },
                );
            }
            let callee = env.extend(frame);
            let ghost pnames = view_names(params@);
            let ghost bodyspec = view_atoms(body@);
            let mut k: usize = 0;
            while k < params.len()
                invariant
                    env.inv(),
                    env_wf(env@),
                    frame < env@.len(),
                    callee < env@.len(),
                    env@.len() >= old(env)@.len(),
                    k <= params@.len(),
                    items@.len() > params@.len(),
                    si == view_atoms(items@),
                    pnames == view_names(params@),
                    bodyspec == view_atoms(body@),
                    ({
                        let full = eval_call_form(
                            si,
                            name@,
                            old(env)@,
                            frame as int,
                            view_names(old(out)@),
                            fuel as nat,
                        );
                        let args = eval_call_args(
                            pnames,
                            si,
                            k as int,
                            env@,
                            frame as int,
                            callee as int,
                            view_names(out@),
                            fuel as nat,
                        );
                        match args.r {
                            Result::Ok(_) => full == eval_spec(
                                AtomSpec::List(bodyspec),
                                args.env,
                                callee as int,
                                args.out,
                                fuel as nat,
                            ),
                            Result::Err(e) => full == (EvalStep {
                                r: Err(e),
                                env: args.env,
                                out: args.out,
                            }),
                        }
                    }),
                decreases params@.len() - k,
            {
                broadcast use lemma_view_atoms;

                let v = match eval_atom(&items[k + 1], env, frame, out, fuel) {
                    Result::Ok(v) => v,
                    Result::Err(e) => {
                        return Err(e);
                    },
                };
                env.set(callee, params[k].as_str(), v);
                k = k + 1;
            }
            let body_atom = Atom::List(body);
            eval_atom(&body_atom, env, callee, out, fuel)
        },
        _ => Err(EvalError::NotCallable(name.clone())),
    }
}

/// A plain (non-call) list: every element evaluates in order, `Void`
/// results are dropped, and the rest collect into a new list.
fn eval_plain_exec(
    items: &Vec<Atom>,
    env: &mut Environment,
    frame: usize,
    out: &mut Vec<String>,
    fuel: u64,
) -> (r: Result<Atom, EvalError>)
    requires
        old(env).inv(),
        env_wf(old(env)@),
        frame < old(env)@.len(),
    ensures
        final(env).inv(),
        env_wf(final(env)@),
        final(env)@.len() >= old(env)@.len(),
        ({
            let step = eval_plain_items(
                view_atoms(items@),
                0,
                old(env)@,
                frame as int,
                view_names(old(out)@),
                fuel as nat,
            );
            &&& (match (r, step.r) {
                (Result::Ok(a), Result::Ok(vs)) => a@ == AtomSpec::List(vs),
                (Result::Err(e), Result::Err(se)) => e@ == se,
                _ => false,
            })
            &&& final(env)@ == step.env
            &&& view_names(final(out)@) == step.out
        }),
    decreases fuel, 2int, 0int,
{
    broadcast use lemma_view_atoms;

    let ghost si = view_atoms(items@);
    let ghost env0 = env@;
    let ghost out0 = view_names(out@);
    let mut acc: Vec<Atom> = Vec::new();
    let mut k: usize = 0;
    while k < items.len()
        invariant
            env.inv(),
            env_wf(env@),
            frame < env@.len(),
            env@.len() >= env0.len(),
            env0 == old(env)@,
            out0 == view_names(old(out)@),
            k <= items@.len(),
            si == view_atoms(items@),
            ({
                let full = eval_plain_items(si, 0, env0, frame as int, out0, fuel as nat);
                let rem = eval_plain_items(
                    si,
                    k as int,
                    env@,
                    frame as int,
                    view_names(out@),
                    fuel as nat,
                );
                match (full.r, rem.r) {
                    (Result::Ok(fv), Result::Ok(rv)) => fv == view_atoms(acc@) + rv && full.env
                        == rem.env && full.out == rem.out,
                    (Result::Err(fe), Result::Err(re)) => fe == re && full.env == rem.env
                        && full.out == rem.out,
                    _ => false,
                }
            }),
        decreases items@.len() - k,
    {
        broadcast use lemma_view_atoms;

        let v = match eval_atom(&items[k], env, frame, out, fuel) {
            Result::Ok(v) => v,
            Result::Err(e) => {
                return Err(e);
            },
        };
        let is_void = match &v {
            Atom::Void => true,
            _ => false,
        };
        if !is_void {
            proof {
                assert(view_atoms(acc@.push(v)) =~= view_atoms(acc@).push(v@));
            }
            acc.push(v);
        }
        proof {
            assert(view_atoms(acc@) + (seq![v@] + eval_plain_items(
                si,
                k + 1,
                env@,
                frame as int,
                view_names(out@),
                fuel as nat,
            ).r->Ok_0) =~= (view_atoms(acc@) + seq![v@]) + eval_plain_items(
                si,
                k + 1,
                env@,
                frame as int,
                view_names(out@),
                fuel as nat,
            ).r->Ok_0);
        }
        k = k + 1;
    }
    Ok(Atom::List(acc))
}

/// Evaluates one unit of source text in the root scope of `env`: parses
/// it, then runs the evaluator with the full depth budget.  The text that
/// `print` forms write is appended to `out`, also when evaluation then
/// fails: partial output is kept, and a failed call never corrupts the
/// environment.
pub fn evaluate(program: &str, env: &mut Environment, out: &mut Vec<String>) -> (r: Result<
    Atom,
    EvalError,
>)
    requires
        old(env).inv(),
        env_wf(old(env)@),
    ensures
        final(env).inv(),
        env_wf(final(env)@),
        ({
            let step = evaluate_spec(program@, old(env)@, view_names(old(out)@));
            &&& res_view(r) == step.r
            &&& final(env)@ == step.env
            &&& view_names(final(out)@) == step.out
        }),
{
    match parse(program) {
        Result::Err(pe) => Err(EvalError::ParseError(pe)),
        Result::Ok(ast) => eval_atom(&ast, env, 0, out, DEPTH_LIMIT),
    }
}

/// The textual form of an error, as the shell shows it.
pub open spec fn error_text(e: EvalErrorSpec) -> Seq<char> {
    match e {
        EvalErrorSpec::ParseError(pe) => (match pe {
            ParseError::ExpectedLeftParen => "Parse error: expected (".view(),
            ParseError::UnexpectedEnd => "Parse error: unexpected end of input".view(),
            ParseError::TrailingInput => "Parse error: trailing input after the form".view(),
        }),
        EvalErrorSpec::InvalidForm(s) => "Invalid form: ".view() + s,
        EvalErrorSpec::UnboundSymbol(s) => "Unbound symbol: ".view() + s,
        EvalErrorSpec::NotCallable(s) => "Not a lambda: ".view() + s,
        EvalErrorSpec::TypeMismatch { expected, found } => "Type mismatch: expected ".view()
            + expected + ", found ".view() + found,
        EvalErrorSpec::DivisionByZero => "Division by zero".view(),
        EvalErrorSpec::ArityError { expected, given } => "Arity mismatch: expected ".view()
            + int_text(expected) + ", given ".view() + int_text(given),
        EvalErrorSpec::DepthExceeded => "Evaluation depth limit exceeded".view(),
    }
}

impl EvalError {
    /// Renders this error as text.
    pub fn to_text(&self) -> (r: String)
        ensures
            r@ == error_text(self@),
    {
        match self {
            EvalError::ParseError(pe) => (match pe {
                ParseError::ExpectedLeftParen => "Parse error: expected (".to_owned(),
                ParseError::UnexpectedEnd => "Parse error: unexpected end of input".to_owned(),
                ParseError::TrailingInput => "Parse error: trailing input after the form".to_owned(),
            }),
            EvalError::InvalidForm(s) => {
                let mut r = "Invalid form: ".to_owned();
                r.append(s.as_str());
                r
            },
            EvalError::UnboundSymbol(s) => {
                let mut r = "Unbound symbol: ".to_owned();
                r.append(s.as_str());
                r
            },
            EvalError::NotCallable(s) => {
                let mut r = "Not a lambda: ".to_owned();
                r.append(s.as_str());
                r
            },
            EvalError::TypeMismatch { expected, found } => {
                let mut r = "Type mismatch: expected ".to_owned();
                r.append(expected.as_str());
                r.append(", found ");
                r.append(found.as_str());
                r
            },
            EvalError::DivisionByZero => "Division by zero".to_owned(),
            EvalError::ArityError { expected, given } => {
                let mut r = "Arity mismatch: expected ".to_owned();
                let e = nat_string(*expected as u64);
                r.append(e.as_str());
                r.append(", given ");
                let g = nat_string(*given as u64);
                r.append(g.as_str());
                proof {
                    assert(r@ =~= error_text(self@));
                }
                r
            },
            EvalError::DepthExceeded => "Evaluation depth limit exceeded".to_owned(),
        }
    }
}

} // verus!

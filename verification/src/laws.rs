use vstd::prelude::*;
use crate::atom::AtomSpec;
use crate::environment::{FrameSpec, env_wf, lookup_spec};
use crate::evaluator::{
    EvalStep, EvalErrorSpec, eval_spec, eval_dispatch, eval_binop_form, eval_do_iter,
    eval_call_form, eval_call_args, eval_plain_items, env_set, is_binop, trunc_div, div_wrap,
};

verus! {

/// Frames of `before` survive into `after` untouched, except the one frame
/// `current`; nobody's parent link changes, and the chain stays well-formed.
pub open spec fn frames_preserved(
    before: Seq<FrameSpec>,
    current: int,
    after: Seq<FrameSpec>,
) -> bool {
    &&& after.len() >= before.len()
    &&& env_wf(after)
    &&& forall|j: int| 0 <= j < before.len() && j != current ==> after[j] == #[trigger] before[j]
    &&& forall|j: int| 0 <= j < before.len() ==> (#[trigger] after[j]).parent == before[j].parent
}

/// Binding a name in the current frame touches no other frame.
proof fn lemma_preserved_set(env: Seq<FrameSpec>, current: int, key: Seq<char>, value: AtomSpec)
    requires
        env_wf(env),
        0 <= current < env.len(),
    ensures
        frames_preserved(env, current, env_set(env, current, key, value)),
{
    let after = env_set(env, current, key, value);
    assert forall|i: int|
        0 <= i < after.len() implies (match (#[trigger] after[i]).parent {
        Option::Some(p) => 0 <= p < i,
        Option::None => true,
    }) by {
        if i != current {
            assert(after[i] == env[i]);
        }
    }
}

/// Scoping, part one: evaluating any atom with `frame` as the current frame
/// changes no other frame that already existed, no frame's parent link, and
/// keeps the scope chain well-formed.  In particular, a `define` inside a
/// call's body frame leaves every caller frame exactly as it was.
pub proof fn lemma_eval_touches_only_current_frame(
    a: AtomSpec,
    env: Seq<FrameSpec>,
    frame: int,
    out: Seq<Seq<char>>,
    fuel: nat,
)
    requires
        env_wf(env),
        0 <= frame < env.len(),
    ensures
        frames_preserved(env, frame, eval_spec(a, env, frame, out, fuel).env),
    decreases fuel, 0int, 0int,
{
    if fuel == 0 {
    } else {
        match a {
            AtomSpec::List(items) => {
                if items.len() > 0 && items[0] is Symbol {
                    lemma_dispatch_touches_only_current_frame(
                        items,
                        items[0]->Symbol_0,
                        env,
                        frame,
                        out,
                        (fuel - 1) as nat,
                    );
                } else {
                    lemma_plain_touches_only_current_frame(
                        items,
                        0,
                        env,
                        frame,
                        out,
                        (fuel - 1) as nat,
                    );
                }
            },
            _ => {
            },
        }
    }
}

proof fn lemma_dispatch_touches_only_current_frame(
    items: Seq<AtomSpec>,
    name: Seq<char>,
    env: Seq<FrameSpec>,
    frame: int,
    out: Seq<Seq<char>>,
    fuel: nat,
)
    requires
        env_wf(env),
        0 <= frame < env.len(),
    ensures
        frames_preserved(env, frame, eval_dispatch(items, name, env, frame, out, fuel).env),
    decreases fuel, 3int, 0int,
{
    if is_binop(name) {
        if items.len() == 3 {
            let st1 = eval_spec(items[1], env, frame, out, fuel);
            lemma_eval_touches_only_current_frame(items[1], env, frame, out, fuel);
            if st1.r is Ok {
                lemma_eval_touches_only_current_frame(items[2], st1.env, frame, st1.out, fuel);
            }
        }
    } else if name == "define"@ {
        if items.len() == 3 && items[1] is Symbol {
            let st1 = eval_spec(items[2], env, frame, out, fuel);
            lemma_eval_touches_only_current_frame(items[2], env, frame, out, fuel);
            if st1.r is Ok {
                lemma_preserved_set(st1.env, frame, items[1]->Symbol_0, st1.r->Ok_0);
            }
        }
    } else if name == "if"@ {
        if items.len() == 4 {
            let st1 = eval_spec(items[1], env, frame, out, fuel);
            lemma_eval_touches_only_current_frame(items[1], env, frame, out, fuel);
            if st1.r is Ok {
                match st1.r->Ok_0 {
                    AtomSpec::Bool(b) => {
                        if b {
                            lemma_eval_touches_only_current_frame(
                                items[2],
                                st1.env,
                                frame,
                                st1.out,
                                fuel,
                            );
                        } else {
                            lemma_eval_touches_only_current_frame(
                                items[3],
                                st1.env,
                                frame,
                                st1.out,
                                fuel,
                            );
                        }
                    },
                    _ => {
                    },
                }
            }
        }
    } else if name == "do"@ {
        if items.len() >= 3 {
            let st1 = eval_spec(items[1], env, frame, out, fuel);
            lemma_eval_touches_only_current_frame(items[1], env, frame, out, fuel);
            if st1.r is Ok {
                match st1.r->Ok_0 {
                    AtomSpec::Integer(n) => {
                        lemma_do_iter_touches_only_current_frame(
                            n as int,
                            items[2],
                            st1.env,
                            frame,
                            st1.out,
                            fuel,
                        );
                    },
                    _ => {
                    },
                }
            }
        }
    } else if name == "lambda"@ {
    } else if name == "print"@ {
        if items.len() >= 2 {
            lemma_eval_touches_only_current_frame(items[1], env, frame, out, fuel);
        }
    } else if name == "quote"@ {
    } else {
        lemma_call_touches_only_current_frame(items, name, env, frame, out, fuel);
    }
}

proof fn lemma_do_iter_touches_only_current_frame(
    n: int,
    body: AtomSpec,
    env: Seq<FrameSpec>,
    frame: int,
    out: Seq<Seq<char>>,
    fuel: nat,
)
    requires
        env_wf(env),
        0 <= frame < env.len(),
    ensures
        frames_preserved(env, frame, eval_do_iter(n, body, env, frame, out, fuel).env),
    decreases fuel, 1int, (if n >= 0 { n } else { 0int }),
{
    if n <= 0 {
    } else {
        let st1 = eval_spec(body, env, frame, out, fuel);
        lemma_eval_touches_only_current_frame(body, env, frame, out, fuel);
        if st1.r is Ok {
            lemma_do_iter_touches_only_current_frame(n - 1, body, st1.env, frame, st1.out, fuel);
        }
    }
}

proof fn lemma_call_touches_only_current_frame(
    items: Seq<AtomSpec>,
    name: Seq<char>,
    env: Seq<FrameSpec>,
    frame: int,
    out: Seq<Seq<char>>,
    fuel: nat,
)
    requires
        env_wf(env),
        0 <= frame < env.len(),
    ensures
        frames_preserved(env, frame, eval_call_form(items, name, env, frame, out, fuel).env),
    decreases fuel, 2int, 0int,
{
    match lookup_spec(env, frame, name) {
        Option::Some(AtomSpec::Lambda(params, body)) => {
            if items.len() >= params.len() + 1 {
                let callee = env.len() as int;
                let env_call = env.push(FrameSpec { parent: Some(frame), bindings: Map::empty() });
                assert(env_wf(env_call)) by {
                    assert forall|i: int|
                        0 <= i < env_call.len() implies (match (#[trigger] env_call[i]).parent {
                        Option::Some(p) => 0 <= p < i,
                        Option::None => true,
                    }) by {
                        if i < env.len() {
                            assert(env_call[i] == env[i]);
                        }
                    }
                }
                let st1 = eval_call_args(params, items, 0, env_call, frame, callee, out, fuel);
                lemma_call_args_preserve(params, items, 0, env_call, frame, callee, out, fuel);
                if st1.r is Ok {
                    lemma_eval_touches_only_current_frame(
                        AtomSpec::List(body),
                        st1.env,
                        callee,
                        st1.out,
                        fuel,
                    );
                }
            }
        },
        _ => {
        },
    }
}

/// Argument binding changes at most the caller's frame (argument side
/// effects) and the callee frame (the bindings being made).
proof fn lemma_call_args_preserve(
    params: Seq<Seq<char>>,
    items: Seq<AtomSpec>,
    i: int,
    env: Seq<FrameSpec>,
    frame: int,
    callee: int,
    out: Seq<Seq<char>>,
    fuel: nat,
)
    requires
        env_wf(env),
        0 <= frame < env.len(),
        0 <= callee < env.len(),
    ensures
        ({
            let st = eval_call_args(params, items, i, env, frame, callee, out, fuel);
            &&& st.env.len() >= env.len()
            &&& env_wf(st.env)
            &&& forall|j: int|
                0 <= j < env.len() && j != frame && j != callee ==> st.env[j] == #[trigger] env[j]
            &&& forall|j: int|
                0 <= j < env.len() ==> (#[trigger] st.env[j]).parent == env[j].parent
        }),
    decreases fuel, 1int, (if params.len() - i >= 0 { params.len() - i } else { 0int }),
{
    if i < 0 || i >= params.len() {
    } else {
        let st1 = eval_spec(items[i + 1], env, frame, out, fuel);
        lemma_eval_touches_only_current_frame(items[i + 1], env, frame, out, fuel);
        if st1.r is Ok {
            let bound = env_set(st1.env, callee, params[i], st1.r->Ok_0);
            lemma_preserved_set(st1.env, callee, params[i], st1.r->Ok_0);
            lemma_call_args_preserve(params, items, i + 1, bound, frame, callee, st1.out, fuel);
            let st2 = eval_call_args(params, items, i + 1, bound, frame, callee, st1.out, fuel);
            assert(st2 == eval_call_args(params, items, i, env, frame, callee, out, fuel));
        }
    }
}

proof fn lemma_plain_touches_only_current_frame(
    items: Seq<AtomSpec>,
    i: int,
    env: Seq<FrameSpec>,
    frame: int,
    out: Seq<Seq<char>>,
    fuel: nat,
)
    requires
        env_wf(env),
        0 <= frame < env.len(),
    ensures
        frames_preserved(env, frame, eval_plain_items(items, i, env, frame, out, fuel).env),
    decreases fuel, 1int, (if items.len() - i >= 0 { items.len() - i } else { 0int }),
{
    if i < 0 || i >= items.len() {
    } else {
        let st1 = eval_spec(items[i], env, frame, out, fuel);
        lemma_eval_touches_only_current_frame(items[i], env, frame, out, fuel);
        if st1.r is Ok {
            lemma_plain_touches_only_current_frame(items, i + 1, st1.env, frame, st1.out, fuel);
        }
    }
}

/// What a name resolves to from frame `c` depends only on the frames up to
/// `c`: if they agree between two environments, so does every lookup.
pub proof fn lemma_lookup_unchanged_below(
    before: Seq<FrameSpec>,
    after: Seq<FrameSpec>,
    c: int,
    name: Seq<char>,
)
    requires
        0 <= c < before.len(),
        c < after.len(),
        forall|j: int| 0 <= j <= c ==> after[j] == #[trigger] before[j],
    ensures
        lookup_spec(after, c, name) == lookup_spec(before, c, name),
    decreases c,
{
    if !before[c].bindings.contains_key(name) {
        match before[c].parent {
            Option::Some(p) => {
                if 0 <= p < c {
                    lemma_lookup_unchanged_below(before, after, p, name);
                }
            },
            Option::None => {
            },
        }
    }
}

/// Scoping, part two: whatever a call's body does — `define` included — a
/// binding seen from any frame below the callee frame reads the same before
/// and after the body runs.  The caller's frame is always below the callee
/// frame, so a `define` inside the body never alters the caller's view.
pub proof fn lemma_call_body_scoping(
    body: AtomSpec,
    env: Seq<FrameSpec>,
    callee: int,
    caller: int,
    name: Seq<char>,
    out: Seq<Seq<char>>,
    fuel: nat,
)
    requires
        env_wf(env),
        0 <= callee < env.len(),
        0 <= caller < callee,
    ensures
        lookup_spec(eval_spec(body, env, callee, out, fuel).env, caller, name) == lookup_spec(
            env,
            caller,
            name,
        ),
{
    lemma_eval_touches_only_current_frame(body, env, callee, out, fuel);
    let after = eval_spec(body, env, callee, out, fuel).env;
    assert forall|j: int| 0 <= j <= caller implies after[j] == #[trigger] env[j] by {
        assert(j != callee);
    }
    lemma_lookup_unchanged_below(env, after, caller, name);
}

/// Looking a bound symbol up is idempotent: evaluating the same symbol
/// twice, with no `define` between, changes nothing and yields the same
/// value both times.
pub proof fn lemma_symbol_idempotent(
    name: Seq<char>,
    env: Seq<FrameSpec>,
    frame: int,
    out: Seq<Seq<char>>,
    fuel1: nat,
    fuel2: nat,
)
    requires
        fuel1 >= 1,
        fuel2 >= 1,
    ensures
        ({
            let first = eval_spec(AtomSpec::Symbol(name), env, frame, out, fuel1);
            let second = eval_spec(AtomSpec::Symbol(name), first.env, frame, first.out, fuel2);
            &&& first.env == env
            &&& first.out == out
            &&& second.r == first.r
            &&& second.env == env
            &&& second.out == out
        }),
{
}

/// The pairwise distinctions between form names that dispatch relies on.
proof fn lemma_form_name_facts()
    ensures
        !is_binop("quote"@),
        !is_binop("do"@),
        "quote"@ != "define"@,
        "quote"@ != "if"@,
        "quote"@ != "do"@,
        "quote"@ != "lambda"@,
        "quote"@ != "print"@,
        "do"@ != "define"@,
        "do"@ != "if"@,
        is_binop("/"@),
        "/"@ != "+"@,
        "/"@ != "-"@,
        "/"@ != "*"@,
{
    reveal_strlit("+");
    reveal_strlit("-");
    reveal_strlit("*");
    reveal_strlit("/");
    reveal_strlit("<");
    reveal_strlit("<=");
    reveal_strlit(">");
    reveal_strlit(">=");
    reveal_strlit("=");
    reveal_strlit("!=");
    reveal_strlit("define");
    reveal_strlit("if");
    reveal_strlit("do");
    reveal_strlit("lambda");
    reveal_strlit("print");
    reveal_strlit("quote");
    assert("+"@.len() == 1);
    assert("-"@.len() == 1);
    assert("*"@.len() == 1);
    assert("/"@.len() == 1);
    assert("<"@.len() == 1);
    assert("<="@.len() == 2);
    assert(">"@.len() == 1);
    assert(">="@.len() == 2);
    assert("="@.len() == 1);
    assert("!="@.len() == 2);
    assert("define"@.len() == 6);
    assert("if"@.len() == 2);
    assert("do"@.len() == 2);
    assert("lambda"@.len() == 6);
    assert("print"@.len() == 5);
    assert("quote"@.len() == 5);
    assert("do"@[0] == 'd');
    assert("if"@[0] == 'i');
    assert("<="@[0] == '<');
    assert(">="@[0] == '>');
    assert("!="@[0] == '!');
    assert("/"@[0] == '/');
    assert("+"@[0] == '+');
    assert("-"@[0] == '-');
    assert("*"@[0] == '*');
    assert("print"@[0] == 'p');
    assert("quote"@[0] == 'q');
}

/// `quote` is non-evaluating: the quoted form comes back exactly as it
/// stands in the syntax tree — `(quote (+ 1 2))` is the list `(+ 1 2)`,
/// not `3` — and neither the environment nor the output moves.
pub proof fn lemma_quote_non_evaluating(
    items: Seq<AtomSpec>,
    env: Seq<FrameSpec>,
    frame: int,
    out: Seq<Seq<char>>,
    fuel: nat,
)
    requires
        fuel >= 1,
        items.len() >= 2,
        items[0] == AtomSpec::Symbol("quote"@),
    ensures
        eval_spec(AtomSpec::List(items), env, frame, out, fuel) == (EvalStep {
            r: Ok::<AtomSpec, EvalErrorSpec>(items[1]),
            env,
            out,
        }),
{
    lemma_form_name_facts();
}

/// `do` with a literal count `n` runs its body exactly `n` times:
/// a count of zero or below succeeds at once, touching nothing and
/// printing nothing; a positive count behaves as one evaluation of the
/// body followed by the same form with count `n - 1`; and whenever the
/// form succeeds, its value is `Void`.
pub proof fn lemma_do_counts(
    items: Seq<AtomSpec>,
    n: i64,
    env: Seq<FrameSpec>,
    frame: int,
    out: Seq<Seq<char>>,
    fuel: nat,
)
    requires
        fuel >= 2,
        items.len() == 3,
        items[0] == AtomSpec::Symbol("do"@),
        items[1] == AtomSpec::Integer(n),
    ensures
        ({
            let step = eval_spec(AtomSpec::List(items), env, frame, out, fuel);
            &&& (step.r is Ok ==> step.r->Ok_0 == AtomSpec::Void)
            &&& (n <= 0 ==> step == (EvalStep {
                r: Ok::<AtomSpec, EvalErrorSpec>(AtomSpec::Void),
                env,
                out,
            }))
            &&& (n >= 1 ==> step == ({
                let body_step = eval_spec(items[2], env, frame, out, (fuel - 1) as nat);
                match body_step.r {
                    Result::Ok(_) => eval_spec(
                        AtomSpec::List(items.update(1, AtomSpec::Integer((n - 1) as i64))),
                        body_step.env,
                        frame,
                        body_step.out,
                        fuel,
                    ),
                    Result::Err(e) => (EvalStep {
                        r: Err(e),
                        env: body_step.env,
                        out: body_step.out,
                    }),
                }
            }))
        }),
{
    lemma_form_name_facts();
    let f1 = (fuel - 1) as nat;
    assert(eval_spec(AtomSpec::List(items), env, frame, out, fuel) == eval_dispatch(
        items,
        "do"@,
        env,
        frame,
        out,
        f1,
    ));
    if n >= 1 {
        let body_step = eval_spec(items[2], env, frame, out, f1);
        if body_step.r is Ok {
            let smaller = items.update(1, AtomSpec::Integer((n - 1) as i64));
            assert(smaller[0] == AtomSpec::Symbol("do"@));
            assert(smaller[2] == items[2]);
            assert(eval_spec(AtomSpec::List(smaller), body_step.env, frame, body_step.out, fuel)
                == eval_dispatch(smaller, "do"@, body_step.env, frame, body_step.out, f1));
        }
    }
}

/// Integer division truncates toward zero: splitting off the signs, the
/// magnitudes divide and the quotient's sign is the product of the signs,
/// so `trunc_div(7, 2) == 3` and `trunc_div(-7, 2) == -3`, and negating
/// the dividend negates the quotient.
pub proof fn lemma_trunc_div_toward_zero(a: int, b: int)
    requires
        b != 0,
    ensures
        trunc_div(-a, b) == -trunc_div(a, b),
        trunc_div(a, -b) == -trunc_div(a, b),
        a >= 0 && b > 0 ==> trunc_div(a, b) == a / b,
{
}

/// The `/` operator form: a zero right operand is reported as
/// `DivisionByZero` and never a crash; any other pair of integers yields
/// the quotient truncated toward zero, wrapped into 64 bits (only
/// `MIN / -1` wraps).  Neither the environment nor the output moves.
pub proof fn lemma_division_form(
    a: i64,
    b: i64,
    env: Seq<FrameSpec>,
    frame: int,
    out: Seq<Seq<char>>,
    fuel: nat,
)
    requires
        fuel >= 2,
    ensures
        ({
            let items = seq![
                AtomSpec::Symbol("/"@),
                AtomSpec::Integer(a),
                AtomSpec::Integer(b),
            ];
            let step = eval_spec(AtomSpec::List(items), env, frame, out, fuel);
            &&& step.env == env
            &&& step.out == out
            &&& (b == 0 ==> step.r == Err::<AtomSpec, EvalErrorSpec>(
                EvalErrorSpec::DivisionByZero,
            ))
            &&& (b != 0 ==> step.r == Ok::<AtomSpec, EvalErrorSpec>(
                AtomSpec::Integer(div_wrap(a, b)),
            ))
        }),
{
    lemma_form_name_facts();
    let items = seq![AtomSpec::Symbol("/"@), AtomSpec::Integer(a), AtomSpec::Integer(b)];
    let f1 = (fuel - 1) as nat;
    assert(eval_spec(AtomSpec::List(items), env, frame, out, fuel) == eval_dispatch(
        items,
        "/"@,
        env,
        frame,
        out,
        f1,
    ));
    assert(eval_dispatch(items, "/"@, env, frame, out, f1) == eval_binop_form(
        items,
        "/"@,
        env,
        frame,
        out,
        f1,
    ));
}

proof fn lemma_prefix_trans(a: Seq<Seq<char>>, b: Seq<Seq<char>>, c: Seq<Seq<char>>)
    requires
        a.is_prefix_of(b),
        b.is_prefix_of(c),
    ensures
        a.is_prefix_of(c),
{
    assert(a =~= c.subrange(0, a.len() as int));
}

proof fn lemma_prefix_push(a: Seq<Seq<char>>, x: Seq<char>)
    ensures
        a.is_prefix_of(a.push(x)),
{
    assert(a =~= a.push(x).subrange(0, a.len() as int));
}

/// Output is write-only: whatever evaluation does, the text already
/// printed stays in place and new text is only appended.  A failing step
/// keeps the output written before the failure.
pub proof fn lemma_eval_extends_output(
    a: AtomSpec,
    env: Seq<FrameSpec>,
    frame: int,
    out: Seq<Seq<char>>,
    fuel: nat,
)
    ensures
        out.is_prefix_of(eval_spec(a, env, frame, out, fuel).out),
    decreases fuel, 0int, 0int,
{
    if fuel == 0 {
        assert(out =~= out.subrange(0, out.len() as int));
    } else {
        match a {
            AtomSpec::List(items) => {
                if items.len() > 0 && items[0] is Symbol {
                    lemma_dispatch_extends_output(
                        items,
                        items[0]->Symbol_0,
                        env,
                        frame,
                        out,
                        (fuel - 1) as nat,
                    );
                } else {
                    lemma_plain_extends_output(items, 0, env, frame, out, (fuel - 1) as nat);
                }
            },
            _ => {
                assert(out =~= out.subrange(0, out.len() as int));
            },
        }
    }
}

proof fn lemma_dispatch_extends_output(
    items: Seq<AtomSpec>,
    name: Seq<char>,
    env: Seq<FrameSpec>,
    frame: int,
    out: Seq<Seq<char>>,
    fuel: nat,
)
    ensures
        out.is_prefix_of(eval_dispatch(items, name, env, frame, out, fuel).out),
    decreases fuel, 3int, 0int,
{
    assert(out.is_prefix_of(out)) by {
        assert(out =~= out.subrange(0, out.len() as int));
    }
    if is_binop(name) {
        if items.len() == 3 {
            let st1 = eval_spec(items[1], env, frame, out, fuel);
            lemma_eval_extends_output(items[1], env, frame, out, fuel);
            if st1.r is Ok {
                lemma_eval_extends_output(items[2], st1.env, frame, st1.out, fuel);
                lemma_prefix_trans(out, st1.out, eval_spec(items[2], st1.env, frame, st1.out, fuel).out);
            }
        }
    } else if name == "define"@ {
        if items.len() == 3 && items[1] is Symbol {
            lemma_eval_extends_output(items[2], env, frame, out, fuel);
        }
    } else if name == "if"@ {
        if items.len() == 4 {
            let st1 = eval_spec(items[1], env, frame, out, fuel);
            lemma_eval_extends_output(items[1], env, frame, out, fuel);
            if st1.r is Ok {
                match st1.r->Ok_0 {
                    AtomSpec::Bool(b) => {
                        if b {
                            lemma_eval_extends_output(items[2], st1.env, frame, st1.out, fuel);
                            lemma_prefix_trans(
                                out,
                                st1.out,
                                eval_spec(items[2], st1.env, frame, st1.out, fuel).out,
                            );
                        } else {
                            lemma_eval_extends_output(items[3], st1.env, frame, st1.out, fuel);
                            lemma_prefix_trans(
                                out,
                                st1.out,
                                eval_spec(items[3], st1.env, frame, st1.out, fuel).out,
                            );
                        }
                    },
                    _ => {
                    },
                }
            }
        }
    } else if name == "do"@ {
        if items.len() >= 3 {
            let st1 = eval_spec(items[1], env, frame, out, fuel);
            lemma_eval_extends_output(items[1], env, frame, out, fuel);
            if st1.r is Ok {
                match st1.r->Ok_0 {
                    AtomSpec::Integer(n) => {
                        lemma_do_iter_extends_output(
                            n as int,
                            items[2],
                            st1.env,
                            frame,
                            st1.out,
                            fuel,
                        );
                        lemma_prefix_trans(
                            out,
                            st1.out,
                            eval_do_iter(n as int, items[2], st1.env, frame, st1.out, fuel).out,
                        );
                    },
                    _ => {
                    },
                }
            }
        }
    } else if name == "lambda"@ {
    } else if name == "print"@ {
        if items.len() >= 2 {
            let st1 = eval_spec(items[1], env, frame, out, fuel);
            lemma_eval_extends_output(items[1], env, frame, out, fuel);
            if st1.r is Ok {
                lemma_prefix_push(st1.out, crate::render::atom_text(st1.r->Ok_0));
                lemma_prefix_trans(out, st1.out, st1.out.push(crate::render::atom_text(st1.r->Ok_0)));
            }
        }
    } else if name == "quote"@ {
    } else {
        lemma_call_extends_output(items, name, env, frame, out, fuel);
    }
}

proof fn lemma_do_iter_extends_output(
    n: int,
    body: AtomSpec,
    env: Seq<FrameSpec>,
    frame: int,
    out: Seq<Seq<char>>,
    fuel: nat,
)
    ensures
        out.is_prefix_of(eval_do_iter(n, body, env, frame, out, fuel).out),
    decreases fuel, 1int, (if n >= 0 { n } else { 0int }),
{
    assert(out.is_prefix_of(out)) by {
        assert(out =~= out.subrange(0, out.len() as int));
    }
    if n > 0 {
        let st1 = eval_spec(body, env, frame, out, fuel);
        lemma_eval_extends_output(body, env, frame, out, fuel);
        if st1.r is Ok {
            lemma_do_iter_extends_output(n - 1, body, st1.env, frame, st1.out, fuel);
            lemma_prefix_trans(
                out,
                st1.out,
                eval_do_iter(n - 1, body, st1.env, frame, st1.out, fuel).out,
            );
        }
    }
}

proof fn lemma_call_extends_output(
    items: Seq<AtomSpec>,
    name: Seq<char>,
    env: Seq<FrameSpec>,
    frame: int,
    out: Seq<Seq<char>>,
    fuel: nat,
)
    ensures
        out.is_prefix_of(eval_call_form(items, name, env, frame, out, fuel).out),
    decreases fuel, 2int, 0int,
{
    assert(out.is_prefix_of(out)) by {
        assert(out =~= out.subrange(0, out.len() as int));
    }
    match lookup_spec(env, frame, name) {
        Option::Some(AtomSpec::Lambda(params, body)) => {
            if items.len() >= params.len() + 1 {
                let callee = env.len() as int;
                let env_call = env.push(FrameSpec { parent: Some(frame), bindings: Map::empty() });
                let st1 = eval_call_args(params, items, 0, env_call, frame, callee, out, fuel);
                lemma_call_args_extend_output(params, items, 0, env_call, frame, callee, out, fuel);
                if st1.r is Ok {
                    lemma_eval_extends_output(AtomSpec::List(body), st1.env, callee, st1.out, fuel);
                    lemma_prefix_trans(
                        out,
                        st1.out,
                        eval_spec(AtomSpec::List(body), st1.env, callee, st1.out, fuel).out,
                    );
                }
            }
        },
        _ => {
        },
    }
}

proof fn lemma_call_args_extend_output(
    params: Seq<Seq<char>>,
    items: Seq<AtomSpec>,
    i: int,
    env: Seq<FrameSpec>,
    frame: int,
    callee: int,
    out: Seq<Seq<char>>,
    fuel: nat,
)
    ensures
        out.is_prefix_of(eval_call_args(params, items, i, env, frame, callee, out, fuel).out),
    decreases fuel, 1int, (if params.len() - i >= 0 { params.len() - i } else { 0int }),
{
    assert(out.is_prefix_of(out)) by {
        assert(out =~= out.subrange(0, out.len() as int));
    }
    if 0 <= i < params.len() {
        let st1 = eval_spec(items[i + 1], env, frame, out, fuel);
        lemma_eval_extends_output(items[i + 1], env, frame, out, fuel);
        if st1.r is Ok {
            let bound = env_set(st1.env, callee, params[i], st1.r->Ok_0);
            lemma_call_args_extend_output(params, items, i + 1, bound, frame, callee, st1.out, fuel);
            lemma_prefix_trans(
                out,
                st1.out,
                eval_call_args(params, items, i + 1, bound, frame, callee, st1.out, fuel).out,
            );
        }
    }
}

proof fn lemma_plain_extends_output(
    items: Seq<AtomSpec>,
    i: int,
    env: Seq<FrameSpec>,
    frame: int,
    out: Seq<Seq<char>>,
    fuel: nat,
)
    ensures
        out.is_prefix_of(eval_plain_items(items, i, env, frame, out, fuel).out),
    decreases fuel, 1int, (if items.len() - i >= 0 { items.len() - i } else { 0int }),
{
    assert(out.is_prefix_of(out)) by {
        assert(out =~= out.subrange(0, out.len() as int));
    }
    if 0 <= i < items.len() {
        let st1 = eval_spec(items[i], env, frame, out, fuel);
        lemma_eval_extends_output(items[i], env, frame, out, fuel);
        if st1.r is Ok {
            lemma_plain_extends_output(items, i + 1, st1.env, frame, st1.out, fuel);
            lemma_prefix_trans(
                out,
                st1.out,
                eval_plain_items(items, i + 1, st1.env, frame, st1.out, fuel).out,
            );
        }
    }
}

} // verus!

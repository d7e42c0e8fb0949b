use crisp::atom::Atom;
use crisp::environment::Environment;
use crisp::evaluator::{evaluate, EvalError};
use crisp::parser::ParseError;

fn run(program: &str) -> Result<Atom, EvalError> {
    let mut env = Environment::new();
    let mut out: Vec<String> = Vec::new();
    evaluate(program, &mut env, &mut out)
}

#[test]
fn scenario_addition() {
    assert_eq!(run("(+ 1 2)").unwrap(), Atom::Integer(3));
}

#[test]
fn scenario_define_then_read_back() {
    let mut env = Environment::new();
    let mut out: Vec<String> = Vec::new();
    assert_eq!(evaluate("(define x 5)", &mut env, &mut out).unwrap(), Atom::Void);
    // A bare symbol is rejected by the strict grammar, so the value is read
    // back through a form instead.
    assert_eq!(evaluate("(+ x 0)", &mut env, &mut out).unwrap(), Atom::Integer(5));
}

#[test]
fn scenario_if_on_comparison() {
    assert_eq!(run("(if (> 3 2) 1 0)").unwrap(), Atom::Integer(1));
    assert_eq!(run("(if (> 2 3) 1 0)").unwrap(), Atom::Integer(0));
}

#[test]
fn scenario_lambda_call() {
    let mut env = Environment::new();
    let mut out: Vec<String> = Vec::new();
    assert_eq!(
        evaluate("(define add1 (lambda (x) (+ x 1)))", &mut env, &mut out).unwrap(),
        Atom::Void
    );
    assert_eq!(evaluate("(add1 5)", &mut env, &mut out).unwrap(), Atom::Integer(6));
}

#[test]
fn scenario_division_by_zero_is_reported() {
    assert!(matches!(run("(/ 1 0)"), Err(EvalError::DivisionByZero)));
}

#[test]
fn scenario_unbound_symbol_is_reported() {
    // Bare at the top level the strict grammar rejects it first...
    assert!(matches!(
        run("undefined_symbol"),
        Err(EvalError::ParseError(ParseError::ExpectedLeftParen))
    ));
    // ... and inside any form the lookup failure is reported with the name.
    match run("(+ undefined_symbol 1)") {
        Err(EvalError::UnboundSymbol(name)) => assert_eq!(name, "undefined_symbol"),
        other => panic!("expected UnboundSymbol, got {:?}", other),
    }
}

#[test]
fn division_truncates_toward_zero() {
    assert_eq!(run("(/ 7 2)").unwrap(), Atom::Integer(3));
    assert_eq!(run("(/ -7 2)").unwrap(), Atom::Integer(-3));
    assert_eq!(run("(/ 7 -2)").unwrap(), Atom::Integer(-3));
    assert_eq!(run("(/ -7 -2)").unwrap(), Atom::Integer(3));
}

#[test]
fn arithmetic_operators() {
    assert_eq!(run("(- 1 2)").unwrap(), Atom::Integer(-1));
    assert_eq!(run("(* 6 7)").unwrap(), Atom::Integer(42));
    assert_eq!(run("(/ 42 6)").unwrap(), Atom::Integer(7));
}

#[test]
fn arithmetic_wraps_around_on_overflow() {
    assert_eq!(
        run("(+ 9223372036854775807 1)").unwrap(),
        Atom::Integer(i64::MIN)
    );
    assert_eq!(
        run("(/ -9223372036854775808 -1)").unwrap(),
        Atom::Integer(i64::MIN)
    );
}

#[test]
fn comparison_operators() {
    assert_eq!(run("(< 1 2)").unwrap(), Atom::Bool(true));
    assert_eq!(run("(<= 2 2)").unwrap(), Atom::Bool(true));
    assert_eq!(run("(> 1 2)").unwrap(), Atom::Bool(false));
    assert_eq!(run("(>= 1 2)").unwrap(), Atom::Bool(false));
    assert_eq!(run("(= 2 2)").unwrap(), Atom::Bool(true));
    assert_eq!(run("(!= 2 2)").unwrap(), Atom::Bool(false));
}

#[test]
fn operator_type_mismatch_is_reported() {
    match run("(+ 1 \"a\")") {
        Err(EvalError::TypeMismatch { expected, found }) => {
            assert_eq!(expected, "Integer");
            assert_eq!(found, "String");
        }
        other => panic!("expected TypeMismatch, got {:?}", other),
    }
    assert!(matches!(run("(+ (quote (1)) 2)"), Err(EvalError::TypeMismatch { .. })));
}

#[test]
fn operator_arity_is_checked() {
    match run("(+ 1)") {
        Err(EvalError::InvalidForm(name)) => assert_eq!(name, "+"),
        other => panic!("expected InvalidForm, got {:?}", other),
    }
    assert!(matches!(run("(+ 1 2 3)"), Err(EvalError::InvalidForm(_))));
}

#[test]
fn if_requires_boolean_condition() {
    match run("(if 1 2 3)") {
        Err(EvalError::TypeMismatch { expected, found }) => {
            assert_eq!(expected, "Bool");
            assert_eq!(found, "Integer");
        }
        other => panic!("expected TypeMismatch, got {:?}", other),
    }
}

#[test]
fn if_evaluates_only_the_taken_branch() {
    // The untaken branch divides by zero; taking the other one must succeed.
    assert_eq!(run("(if (< 1 2) 9 (/ 1 0))").unwrap(), Atom::Integer(9));
    assert!(matches!(run("(if (> 1 2) 9 (/ 1 0))"), Err(EvalError::DivisionByZero)));
}

#[test]
fn define_requires_a_symbol_target() {
    assert!(matches!(run("(define 5 5)"), Err(EvalError::InvalidForm(_))));
    assert!(matches!(run("(define x)"), Err(EvalError::InvalidForm(_))));
}

#[test]
fn quote_is_non_evaluating() {
    let expected = Atom::List(vec![
        Atom::Symbol("+".to_string()),
        Atom::Integer(1),
        Atom::Integer(2),
    ]);
    assert_eq!(run("(quote (+ 1 2))").unwrap(), expected);
    assert!(matches!(run("(quote)"), Err(EvalError::InvalidForm(_))));
}

#[test]
fn do_runs_body_exactly_count_times() {
    let mut env = Environment::new();
    let mut out: Vec<String> = Vec::new();
    assert_eq!(evaluate("(do 3 (print 7))", &mut env, &mut out).unwrap(), Atom::Void);
    assert_eq!(out, vec!["7", "7", "7"]);
}

#[test]
fn do_with_zero_or_negative_count_runs_nothing() {
    let mut env = Environment::new();
    let mut out: Vec<String> = Vec::new();
    assert_eq!(evaluate("(do 0 (print 7))", &mut env, &mut out).unwrap(), Atom::Void);
    assert_eq!(evaluate("(do -5 (print 7))", &mut env, &mut out).unwrap(), Atom::Void);
    assert!(out.is_empty());
}

#[test]
fn do_requires_integer_count() {
    assert!(matches!(run("(do (quote x) 1)"), Err(EvalError::TypeMismatch { .. })));
}

#[test]
fn do_counts_with_defines() {
    let mut env = Environment::new();
    let mut out: Vec<String> = Vec::new();
    evaluate("(define x 0)", &mut env, &mut out).unwrap();
    evaluate("(do 4 (define x (+ x 1)))", &mut env, &mut out).unwrap();
    assert_eq!(evaluate("(+ x 0)", &mut env, &mut out).unwrap(), Atom::Integer(4));
}

#[test]
fn print_appends_text_and_returns_void() {
    let mut env = Environment::new();
    let mut out: Vec<String> = Vec::new();
    assert_eq!(evaluate("(print (+ 1 2))", &mut env, &mut out).unwrap(), Atom::Void);
    assert_eq!(out, vec!["3"]);
}

#[test]
fn print_keeps_partial_output_when_a_later_step_fails() {
    let mut env = Environment::new();
    let mut out: Vec<String> = Vec::new();
    let r = evaluate("((print 1) (/ 1 0))", &mut env, &mut out);
    assert!(matches!(r, Err(EvalError::DivisionByZero)));
    assert_eq!(out, vec!["1"]);
}

#[test]
fn call_scoping_define_in_body_stays_local() {
    let mut env = Environment::new();
    let mut out: Vec<String> = Vec::new();
    evaluate("(define x 1)", &mut env, &mut out).unwrap();
    evaluate("(define shadow (lambda (y) (define x 99)))", &mut env, &mut out).unwrap();
    assert_eq!(evaluate("(shadow 5)", &mut env, &mut out).unwrap(), Atom::Void);
    assert_eq!(evaluate("(+ x 0)", &mut env, &mut out).unwrap(), Atom::Integer(1));
}

#[test]
fn lookup_is_idempotent_without_intervening_define() {
    let mut env = Environment::new();
    let mut out: Vec<String> = Vec::new();
    evaluate("(define x 41)", &mut env, &mut out).unwrap();
    let first = evaluate("(+ x 0)", &mut env, &mut out).unwrap();
    let second = evaluate("(+ x 0)", &mut env, &mut out).unwrap();
    assert_eq!(first, second);
}

#[test]
fn calls_see_the_callers_bindings() {
    // Call frames chain to the caller's environment, so a function body
    // sees whatever is visible at the call site.
    let mut env = Environment::new();
    let mut out: Vec<String> = Vec::new();
    evaluate("(define f (lambda () ((+ x 1))))", &mut env, &mut out).unwrap();
    evaluate("(define x 41)", &mut env, &mut out).unwrap();
    assert_eq!(
        evaluate("(f)", &mut env, &mut out).unwrap(),
        Atom::List(vec![Atom::Integer(42)])
    );
}

#[test]
fn call_with_too_few_arguments_is_an_arity_error() {
    let mut env = Environment::new();
    let mut out: Vec<String> = Vec::new();
    evaluate("(define f (lambda (a b) (+ a b)))", &mut env, &mut out).unwrap();
    match evaluate("(f 1)", &mut env, &mut out) {
        Err(EvalError::ArityError { expected, given }) => {
            assert_eq!(expected, 2);
            assert_eq!(given, 1);
        }
        other => panic!("expected ArityError, got {:?}", other),
    }
}

#[test]
fn call_of_a_non_lambda_is_reported() {
    let mut env = Environment::new();
    let mut out: Vec<String> = Vec::new();
    evaluate("(define x 5)", &mut env, &mut out).unwrap();
    match evaluate("(x 1)", &mut env, &mut out) {
        Err(EvalError::NotCallable(name)) => assert_eq!(name, "x"),
        other => panic!("expected NotCallable, got {:?}", other),
    }
}

#[test]
fn call_of_an_unbound_symbol_is_reported() {
    assert!(matches!(run("(g 1)"), Err(EvalError::UnboundSymbol(_))));
}

#[test]
fn lambda_shape_is_checked() {
    assert!(matches!(run("(lambda (x) (+ x 1) 3)"), Err(EvalError::InvalidForm(_))));
    assert!(matches!(run("(lambda 5 (x))"), Err(EvalError::InvalidForm(_))));
    assert!(matches!(run("(lambda (5) (x))"), Err(EvalError::InvalidForm(_))));
}

#[test]
fn symbol_bound_to_lambda_evaluates_to_the_lambda_value() {
    let mut env = Environment::new();
    let mut out: Vec<String> = Vec::new();
    evaluate("(define f (lambda (x) (x)))", &mut env, &mut out).unwrap();
    match evaluate("((+ 0 1) f)", &mut env, &mut out).unwrap() {
        Atom::List(v) => {
            assert_eq!(v.len(), 2);
            assert_eq!(v[0], Atom::Integer(1));
            assert!(matches!(&v[1], Atom::Lambda(params, _) if params == &["x".to_string()]));
        }
        other => panic!("expected a list, got {:?}", other),
    }
}

#[test]
fn plain_list_collects_non_void_results() {
    assert_eq!(
        run("(1 2 3)").unwrap(),
        Atom::List(vec![Atom::Integer(1), Atom::Integer(2), Atom::Integer(3)])
    );
    assert_eq!(run("()").unwrap(), Atom::List(vec![]));
}

#[test]
fn plain_list_drops_void_and_keeps_side_effects() {
    let mut env = Environment::new();
    let mut out: Vec<String> = Vec::new();
    let r = evaluate("((define a 1) (+ a 1))", &mut env, &mut out).unwrap();
    assert_eq!(r, Atom::List(vec![Atom::Integer(2)]));
}

#[test]
fn parse_error_surfaces_through_evaluate() {
    assert!(matches!(
        run("(+ 1"),
        Err(EvalError::ParseError(ParseError::UnexpectedEnd))
    ));
}

#[test]
fn deep_nesting_reports_the_depth_limit() {
    let depth = 5000;
    let mut program = String::new();
    for _ in 0..depth {
        program.push('(');
    }
    program.push('1');
    for _ in 0..depth {
        program.push(')');
    }
    assert!(matches!(run(&program), Err(EvalError::DepthExceeded)));
}

#[test]
fn failed_evaluation_leaves_earlier_bindings_usable() {
    let mut env = Environment::new();
    let mut out: Vec<String> = Vec::new();
    evaluate("(define x 7)", &mut env, &mut out).unwrap();
    assert!(evaluate("(/ x 0)", &mut env, &mut out).is_err());
    assert_eq!(evaluate("(+ x 1)", &mut env, &mut out).unwrap(), Atom::Integer(8));
}

#[test]
fn error_messages_carry_context() {
    assert_eq!(
        run("(+ q 1)").unwrap_err().to_text(),
        "Unbound symbol: q"
    );
    assert_eq!(run("(/ 1 0)").unwrap_err().to_text(), "Division by zero");
    assert_eq!(
        run("(if 1 2 3)").unwrap_err().to_text(),
        "Type mismatch: expected Bool, found Integer"
    );
    let mut env = Environment::new();
    let mut out: Vec<String> = Vec::new();
    evaluate("(define f (lambda (a b) (+ a b)))", &mut env, &mut out).unwrap();
    assert_eq!(
        evaluate("(f 1)", &mut env, &mut out).unwrap_err().to_text(),
        "Arity mismatch: expected 2, given 1"
    );
}

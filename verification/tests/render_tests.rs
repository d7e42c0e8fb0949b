use crisp::atom::Atom;
use crisp::environment::Environment;
use crisp::text::{int_string, nat_string};

#[test]
fn integers_render_in_decimal() {
    assert_eq!(int_string(0), "0");
    assert_eq!(int_string(42), "42");
    assert_eq!(int_string(-5), "-5");
    assert_eq!(int_string(i64::MAX), "9223372036854775807");
    assert_eq!(int_string(i64::MIN), "-9223372036854775808");
    assert_eq!(nat_string(1000), "1000");
}

#[test]
fn atoms_render_as_the_shell_shows_them() {
    assert_eq!(Atom::Void.to_text(), "Void");
    assert_eq!(Atom::Integer(-3).to_text(), "-3");
    assert_eq!(Atom::Bool(true).to_text(), "true");
    assert_eq!(Atom::Bool(false).to_text(), "false");
    assert_eq!(Atom::String("hi".to_string()).to_text(), "hi");
    assert_eq!(Atom::Symbol("abc".to_string()).to_text(), "abc");
}

#[test]
fn lists_render_in_parentheses_with_spaces() {
    let list = Atom::List(vec![
        Atom::Integer(1),
        Atom::List(vec![Atom::Integer(2), Atom::Integer(3)]),
        Atom::Symbol("x".to_string()),
    ]);
    assert_eq!(list.to_text(), "(1 (2 3) x)");
    assert_eq!(Atom::List(vec![]).to_text(), "()");
}

#[test]
fn lambdas_render_with_parameters_then_body() {
    let lambda = Atom::Lambda(
        vec!["x".to_string(), "y".to_string()],
        vec![Atom::List(vec![
            Atom::Symbol("+".to_string()),
            Atom::Symbol("x".to_string()),
            Atom::Symbol("y".to_string()),
        ])],
    );
    assert_eq!(lambda.to_text(), "Lambda(x y ) (+ x y)");
}

#[test]
fn atom_equality_is_structural() {
    let a = Atom::List(vec![Atom::Integer(1), Atom::Symbol("s".to_string())]);
    let b = Atom::List(vec![Atom::Integer(1), Atom::Symbol("s".to_string())]);
    let c = Atom::List(vec![Atom::Integer(2), Atom::Symbol("s".to_string())]);
    assert_eq!(a, b);
    assert_ne!(a, c);
    assert_ne!(Atom::Void, Atom::Bool(false));
    assert_eq!(a.clone(), a);
}

#[test]
fn environment_scopes_shadow_and_share() {
    let mut env = Environment::new();
    env.set(0, "x", Atom::Integer(1));
    env.set(0, "y", Atom::Integer(10));
    let child = env.extend(0);
    env.set(child, "x", Atom::Integer(2));
    // The child shadows x but reads y through the parent link.
    assert_eq!(env.get(child, "x").unwrap(), Atom::Integer(2));
    assert_eq!(env.get(child, "y").unwrap(), Atom::Integer(10));
    // The parent keeps its own binding and cannot see the child's.
    assert_eq!(env.get(0, "x").unwrap(), Atom::Integer(1));
    assert!(env.get(0, "z").is_none());
    // Overwriting in place replaces the local binding.
    env.set(child, "x", Atom::Integer(3));
    assert_eq!(env.get(child, "x").unwrap(), Atom::Integer(3));
}

#[test]
fn two_children_share_one_parent() {
    let mut env = Environment::new();
    env.set(0, "base", Atom::Integer(7));
    let left = env.extend(0);
    let right = env.extend(0);
    env.set(left, "only_left", Atom::Integer(1));
    assert_eq!(env.get(left, "base").unwrap(), Atom::Integer(7));
    assert_eq!(env.get(right, "base").unwrap(), Atom::Integer(7));
    assert!(env.get(right, "only_left").is_none());
}

use kelpyshark_interpreter::environment::Environment;
use kelpyshark_interpreter::value::Value;

fn number(x: f64) -> Value {
    Value::Number(x.to_bits())
}

#[test]
fn test_set_and_get() {
    let mut env = Environment::new();
    env.set("x", number(42.0));
    assert!(env.get("x").unwrap().equals(&number(42.0)));
}

#[test]
fn environment_test_undefined_variable() {
    let env: Environment<Value> = Environment::new();
    assert!(env.get("y").is_none());
}

#[test]
fn test_scope_shadowing() {
    let mut env = Environment::new();
    env.set("x", number(1.0));
    env.push_scope();
    env.set("x", number(2.0));
    assert!(env.get("x").unwrap().equals(&number(2.0)));
    env.pop_scope();
    assert!(env.get("x").unwrap().equals(&number(1.0)));
}

#[test]
fn test_inner_scope_sees_outer() {
    let mut env = Environment::new();
    env.set("global", Value::String("hello".to_string()));
    env.push_scope();
    assert!(env.get("global").unwrap().equals(&Value::String("hello".to_string())));
    env.pop_scope();
}

#[test]
fn test_update_in_outer_scope() {
    let mut env = Environment::new();
    env.set("x", number(1.0));
    env.push_scope();
    env.update("x", number(99.0));
    env.pop_scope();
    assert!(env.get("x").unwrap().equals(&number(99.0)));
}

#[test]
fn environment_pop_never_removes_global_scope() {
    let mut env = Environment::new();
    env.set("x", number(7.0));
    assert_eq!(env.depth(), 1);
    env.pop_scope();
    env.pop_scope();
    assert_eq!(env.depth(), 1);
    assert!(env.get("x").unwrap().equals(&number(7.0)));
}

#[test]
fn environment_set_keeps_other_names() {
    let mut env = Environment::new();
    env.set("a", number(1.0));
    env.set("b", number(2.0));
    env.set("a", number(3.0));
    assert!(env.get("a").unwrap().equals(&number(3.0)));
    assert!(env.get("b").unwrap().equals(&number(2.0)));
}

#[test]
fn environment_update_of_unbound_name_binds_innermost() {
    let mut env = Environment::new();
    env.push_scope();
    env.update("fresh", number(5.0));
    assert!(env.get("fresh").unwrap().equals(&number(5.0)));
    env.pop_scope();
    assert!(env.get("fresh").is_none());
}

#[test]
fn environment_default_is_one_empty_scope() {
    let env: Environment<Value> = Environment::default();
    assert_eq!(env.depth(), 1);
    assert!(env.get("x").is_none());
}

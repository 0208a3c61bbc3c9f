use risp::{Environment, EnvironmentStack, Value};

#[test]
fn test_setting_and_getting_values() {
    let mut environment_stack = EnvironmentStack::new();

    environment_stack.set("my-var", Value::Number(3));
    assert_eq!(environment_stack.get("my-var"), Some(Value::Number(3)));
}

#[test]
fn test_shadowing_variables() {
    let mut environment_stack = EnvironmentStack::new();

    environment_stack.set("my-var", Value::Number(3));
    assert_eq!(environment_stack.get("my-var"), Some(Value::Number(3)));

    {
        let mut arguments = Environment::new();
        arguments.set("my-var", Value::Number(2));
        environment_stack.push_environment(arguments);
        assert_eq!(environment_stack.get("my-var"), Some(Value::Number(2)));
    }

    {
        let mut arguments = Environment::new();
        arguments.set("my-var", Value::Number(5));
        environment_stack.push_environment(arguments);
        assert_eq!(environment_stack.get("my-var"), Some(Value::Number(5)));
    }

    environment_stack.pop_environment();
    environment_stack.pop_environment();

    environment_stack.pop_environment();
    assert_eq!(environment_stack.get("my-var"), Some(Value::Number(3)));
}

#[test]
fn set_writes_into_the_most_recent_scope() {
    let mut environment_stack = EnvironmentStack::new();
    environment_stack.push_environment(Environment::new());
    environment_stack.set("x", Value::Number(1));
    assert_eq!(environment_stack.get("x"), Some(Value::Number(1)));
    environment_stack.pop_environment();
    assert_eq!(environment_stack.get("x"), None);
}

#[test]
fn environment_keeps_the_last_write() {
    let mut environment = Environment::new();
    assert!(!environment.contains("a"));
    assert_eq!(environment.get("a"), None);
    environment.set("a", Value::Number(1));
    environment.set("b", Value::Boolean(true));
    environment.set("a", Value::String("z".to_string()));
    assert!(environment.contains("a"));
    assert_eq!(environment.get("a"), Some(Value::String("z".to_string())));
    assert_eq!(environment.get("b"), Some(Value::Boolean(true)));
}

#[test]
fn outer_call_scope_is_seen_when_inner_lacks_the_name() {
    let mut environment_stack = EnvironmentStack::new();
    let mut outer = Environment::new();
    outer.set("y", Value::Number(7));
    environment_stack.push_environment(outer);
    let mut inner = Environment::new();
    inner.set("z", Value::Number(8));
    environment_stack.push_environment(inner);
    assert_eq!(environment_stack.get("y"), Some(Value::Number(7)));
    assert_eq!(environment_stack.get("z"), Some(Value::Number(8)));
}

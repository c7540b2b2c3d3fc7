use luna::environment::{Environment, EnvironmentManager, FunctionEnvironment, Scope};
use luna::value::Value;

#[test]
fn test_environment_builtins() {
    let env = Environment::with_builtins();
    assert_eq!(
        env.get("_VERSION"),
        Some(Value::Str("Luna 1.0".to_string()))
    );
    assert_eq!(env.get("print"), Some(Value::Function(0)));
    assert_eq!(env.get("tonumber"), Some(Value::Function(3)));
    assert_eq!(env.get("nope"), None);
    assert!(env.is_global_scope());
}

#[test]
fn test_environment_shadowing() {
    let mut env = Environment::new();
    env.push_scope();
    env.define_local("x".to_string(), Value::Number(1)).unwrap();
    env.push_scope();
    env.define_local("x".to_string(), Value::Number(2)).unwrap();

    // The innermost declaration wins.
    assert_eq!(env.get("x"), Some(Value::Number(2)));
    assert_eq!(env.scope_depth(), 2);

    // Assignment lands in the innermost scope that binds the name.
    env.set("x", Value::Number(3)).unwrap();
    assert_eq!(env.get("x"), Some(Value::Number(3)));

    // Popping the inner scope uncovers the outer binding, untouched.
    assert!(env.pop_scope().is_some());
    assert_eq!(env.get("x"), Some(Value::Number(1)));
}

#[test]
fn test_environment_globals_fallback() {
    let mut env = Environment::new();
    // Assigning an unbound name creates a global.
    env.set("g", Value::Number(5)).unwrap();
    assert_eq!(env.get("g"), Some(Value::Number(5)));
    assert_eq!(env.get_globals().len(), 1);

    // With no scope open, a local declaration also lands in the globals.
    env.define_local("h".to_string(), Value::Number(6)).unwrap();
    assert_eq!(env.get("h"), Some(Value::Number(6)));

    env.push_scope();
    // The global stays reachable from inside a scope.
    assert_eq!(env.get("g"), Some(Value::Number(5)));
    // A local binding of a nil value is still a binding.
    env.define_local("n".to_string(), Value::Nil).unwrap();
    assert_eq!(env.get_local("n"), Some(Value::Nil));
    assert_eq!(env.get_local("g"), None);
    assert_eq!(env.get_all_locals().len(), 1);
}

#[test]
fn test_environment_set_local() {
    let mut env = Environment::new();
    assert!(env.set_local("x", Value::Number(1)).is_err());
    env.push_scope();
    assert!(env.set_local("x", Value::Number(1)).is_ok());
    assert_eq!(env.get_local("x"), Some(Value::Number(1)));
    let _ = Scope::new();
    env.print_environment();
}

#[test]
fn test_function_environment() {
    let params = vec!["a".to_string(), "b".to_string()];
    let mut fenv = FunctionEnvironment::new(params);
    assert_eq!(fenv.get_parameter_index("b"), Some(1));
    assert_eq!(fenv.get_parameter_index("c"), None);
    assert!(fenv.is_parameter("a"));
    assert!(!fenv.is_parameter("z"));
    fenv.capture_variable("up".to_string(), Value::Number(9));
    assert_eq!(fenv.captures.len(), 1);
    assert_eq!(fenv.local_count, 0);
}

#[test]
fn test_environment_manager() {
    let mut mgr = EnvironmentManager::new();
    mgr.push_scope();
    mgr.current_env();
    let idx = mgr.push_environment();
    let _ = idx;
    assert!(mgr.pop_environment().is_some());
    // The outermost environment always remains.
    assert!(mgr.pop_environment().is_none());
}

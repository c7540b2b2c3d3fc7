use luna::{execute, version, LunaConfig};

#[test]
fn test_version() {
    assert_eq!(version(), "0.1.0");
}

#[test]
fn test_default_config() {
    let config = LunaConfig::default();
    assert_eq!(config.jit_enabled, true);
    assert_eq!(config.optimization_level, 2);
}

#[test]
fn test_execute_print() {
    let result = execute("print('Hello World')");
    assert!(result.is_ok());
}

#[test]
fn test_execute_math_function() {
    let result = execute("math.abs(-42)");
    assert!(result.is_ok());
}

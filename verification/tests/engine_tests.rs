use luna::error::{division_by_zero, not_callable, not_indexable, ErrorContext, LuaError};
use luna::runtime::LuaJitRuntime;
use luna::stdlib::call_builtin;
use luna::value::Value;
use luna::vm::StandardLibrary;
use luna::ast::{BinaryOp, Expr, Program, Stmt};
use luna::lexer::{Lexer, TokenType};
use luna::{execute, execute_with_config, new_runtime, new_runtime_with_config, LunaConfig};

#[test]
fn test_determinism_fresh_runtimes() {
    let source = "local sum = 0\nfor i = 1, 5 do\n sum = sum + i\nend\nreturn sum";
    let a = execute(source).unwrap();
    let b = execute(source).unwrap();
    assert_eq!(a, b);
    assert_eq!(a, Value::Number(15));

    let bad = "return 5 / 0";
    let ea = execute(bad).unwrap_err();
    let eb = execute(bad).unwrap_err();
    assert_eq!(ea, eb);
}

#[test]
fn test_division_by_zero_is_arithmetic_error() {
    let e = execute("return 5 / 0").unwrap_err();
    assert_eq!(e.error_type(), "ArithmeticError");
    assert_eq!(e, division_by_zero());

    let e = execute("return 5 % 0").unwrap_err();
    assert_eq!(e.error_type(), "ArithmeticError");
}

#[test]
fn test_parse_error_kind() {
    let e = execute("return 5 +").unwrap_err();
    assert_eq!(e.error_type(), "ParseError");
}

#[test]
fn test_lex_error_kind() {
    let e = execute("return \"unterminated").unwrap_err();
    assert_eq!(e.error_type(), "LexError");
}

#[test]
fn test_undefined_global_call_is_call_type_error() {
    let e = execute("foo()").unwrap_err();
    assert_eq!(e, not_callable("nil"));
}

#[test]
fn test_indexing_non_table_never_crashes() {
    // A dotted builtin name resolves through the registry...
    let v = execute("return math.abs").unwrap();
    assert!(matches!(v, Value::Function(_)));
    // ...and an unknown dotted name yields nil.
    let v = execute("return x.y").unwrap();
    assert_eq!(v, Value::Nil);
}

#[test]
fn test_overflow_is_reported() {
    let e = execute("return 9223372036854775807 + 1").unwrap_err();
    assert_eq!(e.error_type(), "ArithmeticError");
}

#[test]
fn test_string_coercion_in_arithmetic() {
    assert_eq!(execute("return \"10\" + 5").unwrap(), Value::Number(15));
    assert_eq!(execute("return \"0012\" + 0").unwrap(), Value::Number(12));
    let e = execute("return \"zap\" + 1").unwrap_err();
    assert_eq!(e.error_type(), "TypeError");
}

#[test]
fn test_concatenation() {
    assert_eq!(execute("return 1 .. 2").unwrap(), Value::Str("12".to_string()));
    assert_eq!(
        execute("return \"a\" .. \"b\" .. 3").unwrap(),
        Value::Str("ab3".to_string())
    );
}

#[test]
fn test_unary_operators() {
    assert_eq!(execute("return -5").unwrap(), Value::Number(-5));
    assert_eq!(execute("return -(2 + 3)").unwrap(), Value::Number(-5));
    assert_eq!(execute("return not nil").unwrap(), Value::Boolean(true));
}

#[test]
fn test_power_and_modulo() {
    assert_eq!(execute("return 2 ^ 10").unwrap(), Value::Number(1024));
    assert_eq!(execute("return 10 % 3").unwrap(), Value::Number(1));
    assert_eq!(execute("return 2 ^ 0").unwrap(), Value::Number(1));
}

#[test]
fn test_truthiness_of_zero_and_empty_string() {
    // Zero and the empty string are truthy; only nil and false are falsy.
    assert_eq!(execute("return 0 and true").unwrap(), Value::Boolean(true));
    assert_eq!(execute("return \"\" and true").unwrap(), Value::Boolean(true));
    assert_eq!(execute("return nil and true").unwrap(), Value::Boolean(false));
}

#[test]
fn test_comments_are_skipped() {
    assert_eq!(execute("-- a comment\nreturn 7").unwrap(), Value::Number(7));
}

#[test]
fn test_nonintegral_literal_is_a_lex_error() {
    // Numbers are integer-valued in this engine.
    let e = execute("return 1.5").unwrap_err();
    assert_eq!(e.error_type(), "LexError");
}

#[test]
fn test_string_builtins() {
    assert_eq!(
        execute("return string.upper(\"abc\")").unwrap(),
        Value::Str("ABC".to_string())
    );
    assert_eq!(
        execute("return string.lower(\"AbC\")").unwrap(),
        Value::Str("abc".to_string())
    );
    assert_eq!(execute("return string.len(\"hello\")").unwrap(), Value::Number(5));
    assert_eq!(
        execute("return string.sub(\"hello\", 2, 4)").unwrap(),
        Value::Str("ell".to_string())
    );
    assert_eq!(
        execute("return string.char(104, 105)").unwrap(),
        Value::Str("hi".to_string())
    );
    assert_eq!(execute("return string.byte(\"A\")").unwrap(), Value::Number(65));
}

#[test]
fn test_math_builtins() {
    // max and min sit in the math namespace table; ceil and floor are
    // registry entries reached by id.
    assert_eq!(execute("return math.max(3, 9, 4)").unwrap(), Value::Number(9));
    assert_eq!(execute("return math.min(3, 9, 4)").unwrap(), Value::Number(3));
    let mut out = String::new();
    let v = call_builtin(24, &vec![Value::Number(7)], &mut out).unwrap();
    assert_eq!(v, Value::Number(7)); // math.ceil is the identity on integers
    let v = call_builtin(25, &vec![Value::Number(7)], &mut out).unwrap();
    assert_eq!(v, Value::Number(7)); // so is math.floor
}

#[test]
fn test_core_builtins() {
    let mut out = String::new();
    let v = call_builtin(1, &vec![Value::Number(5)], &mut out).unwrap();
    assert_eq!(v, Value::Str("number".to_string())); // type
    let v = call_builtin(2, &vec![Value::Boolean(true)], &mut out).unwrap();
    assert_eq!(v, Value::Str("true".to_string())); // tostring
    let v = call_builtin(3, &vec![Value::Str("42".to_string())], &mut out).unwrap();
    assert_eq!(v, Value::Number(42)); // tonumber
    let v = call_builtin(3, &vec![Value::Str("x".to_string())], &mut out).unwrap();
    assert_eq!(v, Value::Nil);
    let v = call_builtin(14, &vec![Value::Number(5)], &mut out).unwrap();
    assert_eq!(v, Value::Number(5)); // assert passes a truthy value through
    let e = call_builtin(
        14,
        &vec![Value::Boolean(false), Value::Str("boom".to_string())],
        &mut out,
    )
    .unwrap_err();
    assert_eq!(e.message(), "boom");
    let e = call_builtin(13, &vec![Value::Str("exploded".to_string())], &mut out).unwrap_err();
    assert_eq!(e.message(), "exploded");
    assert_eq!(out, "");
}

#[test]
fn test_table_builtins_through_dispatch() {
    let table = Value::Table(vec![
        ("k".to_string(), Value::Number(1)),
        ("m".to_string(), Value::Number(2)),
    ]);
    let mut out = String::new();

    // rawget reads an entry by its rendered key.
    let args = vec![table, Value::Str("m".to_string())];
    let v = call_builtin(7, &args, &mut out).unwrap();
    assert_eq!(v, Value::Number(2));

    // rawset binds a key, replacing an existing entry.
    let args = vec![
        args[0].clone(),
        Value::Str("k".to_string()),
        Value::Number(9),
    ];
    let v = call_builtin(8, &args, &mut out).unwrap();
    match &v {
        Value::Table(entries) => {
            assert_eq!(entries[0], ("k".to_string(), Value::Number(9)));
            assert_eq!(entries.len(), 2);
        }
        _ => panic!("rawset must return a table"),
    }

    // table.concat joins the entry values in order.
    let args = vec![v, Value::Str("-".to_string())];
    let joined = call_builtin(36, &args, &mut out).unwrap();
    assert_eq!(joined, Value::Str("9-2".to_string()));
    assert_eq!(out, "");
}

#[test]
fn test_print_output_is_tab_joined() {
    let args = vec![Value::Number(1), Value::Str("x".to_string()), Value::Nil];
    let mut out = String::new();
    let v = call_builtin(0, &args, &mut out).unwrap();
    assert_eq!(v, Value::Nil);
    assert_eq!(out, "1\tx\tnil\n");
}

#[test]
fn test_value_rendering() {
    assert_eq!(Value::Number(-5).to_display_string(), "-5");
    assert_eq!(Value::Number(1234).to_display_string(), "1234");
    assert_eq!(Value::Nil.to_display_string(), "nil");
    assert_eq!(Value::Boolean(false).to_display_string(), "false");
    assert_eq!(Value::Function(3).to_display_string(), "function:3");
    assert_eq!(Value::Table(Vec::new()).to_display_string(), "table");
    assert_eq!(Value::Str("s".to_string()).to_display_string(), "s");
}

#[test]
fn test_value_queries() {
    assert_eq!(Value::Number(0).kind_name(), "number");
    assert!(Value::Number(0).is_truthy());
    assert!(!Value::Nil.is_truthy());
    assert_eq!(Value::Str("-7".to_string()).to_number(), Some(-7));
    assert_eq!(Value::Str("7.5".to_string()).to_number(), None);
    assert_eq!(Value::Boolean(true).to_number(), None);
}

#[test]
fn test_error_rendering() {
    let e = LuaError::type_error("number", "nil", "addition");
    assert_eq!(
        e.to_display_string(),
        "Type error in addition: expected number, found nil"
    );
    let e = LuaError::parse_error("bad", 3, 7);
    assert_eq!(e.to_display_string(), "Parse error at 3:7: bad");
    assert_eq!(not_indexable("number").error_type(), "TypeError");
    let e = LuaError::argument_error(2, 1, "f");
    assert_eq!(
        e.to_display_string(),
        "Wrong number of arguments to f: expected 2, got 1"
    );
}

#[test]
fn test_error_context_rendering() {
    let ctx = ErrorContext::new()
        .with_function("outer".to_string())
        .push_call("inner".to_string())
        .push_call("innermost".to_string());
    let rendered = ctx.format_error(&LuaError::runtime_error("oops"));
    assert_eq!(
        rendered,
        "Runtime error: oops in function 'outer'\nCall stack:\n  1: innermost\n  2: inner"
    );
}

#[test]
fn test_registry_lookup() {
    let lib = StandardLibrary::new();
    assert_eq!(lib.get_function("print"), Some(0));
    assert_eq!(lib.get_function("math.abs"), Some(23));
    assert_eq!(lib.get_function("no.such"), None);
    assert_eq!(lib.get_function_name(0), Some("print"));
    assert!(lib.get_function_by_id(39));
    assert!(!lib.get_function_by_id(40));
    assert_eq!(lib.get_all_functions().len(), 40);
}

#[test]
fn test_config_constructors() {
    let config = LunaConfig::default();
    let mut rt = new_runtime_with_config(config);
    assert_eq!(rt.execute("return 1").unwrap(), Value::Number(1));
    let v = execute_with_config("return 2", LunaConfig::default()).unwrap();
    assert_eq!(v, Value::Number(2));
    let mut rt = new_runtime();
    assert_eq!(rt.execute("return 3").unwrap(), Value::Number(3));
}

#[test]
fn test_globals_survive_failed_run() {
    // No rollback: a failed call leaves assigned globals in place.
    let mut rt = LuaJitRuntime::new();
    let _ = rt.execute("x = 1\nreturn 1 / 0").unwrap_err();
    assert_eq!(rt.execute("return x").unwrap(), Value::Number(1));
}

#[test]
fn test_run_program_on_built_ast() {
    // return 2 + 3, handed to the runtime as an already-parsed program.
    let program = Program {
        statements: vec![Stmt::Return(Some(Expr::Binary {
            left: Box::new(Expr::Literal(Value::Number(2))),
            operator: BinaryOp::Add,
            right: Box::new(Expr::Literal(Value::Number(3))),
        }))],
    };
    let mut rt = new_runtime();
    assert_eq!(rt.run_program(&program).unwrap(), Value::Number(5));

    // An unsupported node (bracketed indexing) is the compiler's error.
    let unsupported = Program {
        statements: vec![Stmt::Return(Some(Expr::Index {
            object: Box::new(Expr::Identifier("t".to_string())),
            index: Box::new(Expr::Literal(Value::Number(1))),
        }))],
    };
    let e = rt.run_program(&unsupported).unwrap_err();
    assert_eq!(e.message(), "Expression not implemented");
}

#[test]
fn test_tokens_record_their_positions() {
    // "x = 1\n  y" — positions are 1-based; the token records where it began.
    let mut lexer = Lexer::new("x = 1\n  y");
    let tokens = lexer.tokenize().unwrap();
    assert!(matches!(tokens[0].token_type, TokenType::Identifier(_)));
    assert_eq!((tokens[0].line, tokens[0].column), (1, 1));
    assert!(matches!(tokens[1].token_type, TokenType::Assign));
    assert_eq!((tokens[1].line, tokens[1].column), (1, 3));
    assert!(matches!(tokens[2].token_type, TokenType::Number(1)));
    assert_eq!((tokens[2].line, tokens[2].column), (1, 5));
    assert!(matches!(tokens[3].token_type, TokenType::Newline));
    assert_eq!((tokens[3].line, tokens[3].column), (1, 6));
    assert!(matches!(tokens[4].token_type, TokenType::Identifier(_)));
    assert_eq!((tokens[4].line, tokens[4].column), (2, 3));
    assert!(matches!(tokens[5].token_type, TokenType::Eof));
}

#[test]
fn test_lex_error_reports_position_and_kind() {
    // An unexpected character fails at its own position...
    let mut lexer = Lexer::new("x = @");
    let e = lexer.tokenize().unwrap_err();
    assert_eq!(e.error_type(), "LexError");
    assert_eq!(e.to_display_string(), "Lexical error at 1:5: Unexpected character");

    // ...a stray dot in a digit run is an invalid number...
    let mut lexer = Lexer::new("return 1.5");
    let e = lexer.tokenize().unwrap_err();
    assert_eq!(e.error_type(), "LexError");
    assert!(e.message().starts_with("Invalid number: 1.5"));

    // ...and a string without its closing quote is unterminated.
    let mut lexer = Lexer::new("\"abc");
    let e = lexer.tokenize().unwrap_err();
    assert_eq!(e.message(), "Unterminated string");
}

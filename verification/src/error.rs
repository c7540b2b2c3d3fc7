//! The engine's error taxonomy: every failing core operation reports one
//! of these structured errors rather than aborting the process.

use vstd::prelude::*;
use crate::value::{int_to_seq, nat_to_seq, push_usize_digits, string_from, clone_string};

verus! {

/// A structured engine error.
#[derive(Debug, PartialEq)]
pub enum LuaError {
    LexError { message: String, line: usize, column: usize },
    ParseError { message: String, line: usize, column: usize },
    RuntimeError { message: String, line: Option<usize> },
    TypeError { expected: String, found: String, operation: String },
    UndefinedVariable { name: String },
    ArgumentError { expected: usize, found: usize, function: String },
    CallError { message: String, function: String },
    ArithmeticError { message: String, operation: String },
    StackOverflow,
    StackUnderflow,
    JitError { message: String, pc: usize },
    IoError { message: String },
    CustomError { message: String, error_type: String },
}

/// Result type used throughout the engine.
pub type LuaResult<T> = Result<T, LuaError>;

/// The mathematical model of a [`LuaError`]: strings become character
/// sequences, so that contracts can pin down the exact error returned.
#[verifier::ext_equal]
pub enum ErrModel {
    LexError { message: Seq<char>, line: usize, column: usize },
    ParseError { message: Seq<char>, line: usize, column: usize },
    RuntimeError { message: Seq<char>, line: Option<usize> },
    TypeError { expected: Seq<char>, found: Seq<char>, operation: Seq<char> },
    UndefinedVariable { name: Seq<char> },
    ArgumentError { expected: usize, found: usize, function: Seq<char> },
    CallError { message: Seq<char>, function: Seq<char> },
    ArithmeticError { message: Seq<char>, operation: Seq<char> },
    StackOverflow,
    StackUnderflow,
    JitError { message: Seq<char>, pc: usize },
    IoError { message: Seq<char> },
    CustomError { message: Seq<char>, error_type: Seq<char> },
}

pub open spec fn err_model(e: LuaError) -> ErrModel {
    match e {
        LuaError::LexError { message, line, column } => ErrModel::LexError {
            message: message@,
            line,
            column,
        },
        LuaError::ParseError { message, line, column } => ErrModel::ParseError {
            message: message@,
            line,
            column,
        },
        LuaError::RuntimeError { message, line } => ErrModel::RuntimeError {
            message: message@,
            line,
        },
        LuaError::TypeError { expected, found, operation } => ErrModel::TypeError {
            expected: expected@,
            found: found@,
            operation: operation@,
        },
        LuaError::UndefinedVariable { name } => ErrModel::UndefinedVariable { name: name@ },
        LuaError::ArgumentError { expected, found, function } => ErrModel::ArgumentError {
            expected,
            found,
            function: function@,
        },
        LuaError::CallError { message, function } => ErrModel::CallError {
            message: message@,
            function: function@,
        },
        LuaError::ArithmeticError { message, operation } => ErrModel::ArithmeticError {
            message: message@,
            operation: operation@,
        },
        LuaError::StackOverflow => ErrModel::StackOverflow,
        LuaError::StackUnderflow => ErrModel::StackUnderflow,
        LuaError::JitError { message, pc } => ErrModel::JitError { message: message@, pc },
        LuaError::IoError { message } => ErrModel::IoError { message: message@ },
        LuaError::CustomError { message, error_type } => ErrModel::CustomError {
            message: message@,
            error_type: error_type@,
        },
    }
}

impl View for LuaError {
    type V = ErrModel;

    open spec fn view(&self) -> ErrModel {
        err_model(*self)
    }
}

impl LuaError {
    pub fn lex_error(message: &str, line: usize, column: usize) -> (r: Self)
        ensures
            r matches LuaError::LexError { message: m, line: l, column: c } && m@ == message@ && l
                == line && c == column,
    {
        LuaError::LexError { message: string_from(message), line, column }
    }

    pub fn parse_error(message: &str, line: usize, column: usize) -> (r: Self)
        ensures
            r matches LuaError::ParseError { message: m, line: l, column: c } && m@ == message@ && l
                == line && c == column,
    {
        LuaError::ParseError { message: string_from(message), line, column }
    }

    pub fn runtime_error(message: &str) -> (r: Self)
        ensures
            r matches LuaError::RuntimeError { message: m, line: l } && m@ == message@ && l
                is None,
    {
        LuaError::RuntimeError { message: string_from(message), line: None }
    }

    pub fn runtime_error_with_line(message: &str, line: usize) -> (r: Self)
        ensures
            r matches LuaError::RuntimeError { message: m, line: l } && m@ == message@ && l
                == Some(line),
    {
        LuaError::RuntimeError { message: string_from(message), line: Some(line) }
    }

    pub fn type_error(expected: &str, found: &str, operation: &str) -> (r: Self)
        ensures
            r matches LuaError::TypeError { expected: e, found: f, operation: o } && e@ == expected@
                && f@ == found@ && o@ == operation@,
    {
        LuaError::TypeError {
            expected: string_from(expected),
            found: string_from(found),
            operation: string_from(operation),
        }
    }

    pub fn undefined_variable(name: &str) -> (r: Self)
        ensures
            r matches LuaError::UndefinedVariable { name: n } && n@ == name@,
    {
        LuaError::UndefinedVariable { name: string_from(name) }
    }

    pub fn argument_error(expected: usize, found: usize, function: &str) -> (r: Self)
        ensures
            r matches LuaError::ArgumentError { expected: e, found: f, function: g } && e
                == expected && f == found && g@ == function@,
    {
        LuaError::ArgumentError { expected, found, function: string_from(function) }
    }

    pub fn call_error(message: &str, function: &str) -> (r: Self)
        ensures
            r matches LuaError::CallError { message: m, function: f } && m@ == message@ && f@
                == function@,
    {
        LuaError::CallError { message: string_from(message), function: string_from(function) }
    }

    pub fn arithmetic_error(message: &str, operation: &str) -> (r: Self)
        ensures
            r matches LuaError::ArithmeticError { message: m, operation: o } && m@ == message@ && o@
                == operation@,
    {
        LuaError::ArithmeticError { message: string_from(message), operation: string_from(operation) }
    }

    pub fn jit_error(message: &str, pc: usize) -> (r: Self)
        ensures
            r matches LuaError::JitError { message: m, pc: p } && m@ == message@ && p == pc,
    {
        LuaError::JitError { message: string_from(message), pc }
    }

    pub fn io_error(message: &str) -> (r: Self)
        ensures
            r matches LuaError::IoError { message: m } && m@ == message@,
    {
        LuaError::IoError { message: string_from(message) }
    }

    pub fn custom_error(message: &str, error_type: &str) -> (r: Self)
        ensures
            r matches LuaError::CustomError { message: m, error_type: t } && m@ == message@ && t@
                == error_type@,
    {
        LuaError::CustomError { message: string_from(message), error_type: string_from(error_type) }
    }

    /// The name of this error's kind.
    pub fn error_type(&self) -> (r: &'static str)
        ensures
            r@ == error_type_spec(self),
    {
        match self {
            LuaError::LexError { .. } => "LexError",
            LuaError::ParseError { .. } => "ParseError",
            LuaError::RuntimeError { .. } => "RuntimeError",
            LuaError::TypeError { .. } => "TypeError",
            LuaError::UndefinedVariable { .. } => "UndefinedVariable",
            LuaError::ArgumentError { .. } => "ArgumentError",
            LuaError::CallError { .. } => "CallError",
            LuaError::ArithmeticError { .. } => "ArithmeticError",
            LuaError::StackOverflow => "StackOverflow",
            LuaError::StackUnderflow => "StackUnderflow",
            LuaError::JitError { .. } => "JitError",
            LuaError::IoError { .. } => "IoError",
            LuaError::CustomError { .. } => "CustomError",
        }
    }

    /// The error's carried message, where one exists; a fixed placeholder
    /// for the kinds whose message is assembled only when rendered.
    pub fn message(&self) -> (r: &str)
        ensures
            r@ == message_spec(self),
    {
        match self {
            LuaError::LexError { message, .. } => message.as_str(),
            LuaError::ParseError { message, .. } => message.as_str(),
            LuaError::RuntimeError { message, .. } => message.as_str(),
            LuaError::CallError { message, .. } => message.as_str(),
            LuaError::ArithmeticError { message, .. } => message.as_str(),
            LuaError::JitError { message, .. } => message.as_str(),
            LuaError::IoError { message, .. } => message.as_str(),
            LuaError::CustomError { message, .. } => message.as_str(),
            LuaError::TypeError { .. } => "Type error (see rendered form for details)",
            LuaError::UndefinedVariable { .. } => "Undefined variable",
            LuaError::ArgumentError { .. } => "Wrong number of arguments",
            LuaError::StackOverflow => "Stack overflow",
            LuaError::StackUnderflow => "Stack underflow",
        }
    }

    /// Attaches a source line to a runtime error; other kinds pass through
    /// unchanged.
    pub fn with_line(self, line: usize) -> (r: Self)
        ensures
            r == with_line_spec(self, line),
    {
        match self {
            LuaError::RuntimeError { message, line: _ } => LuaError::RuntimeError {
                message,
                line: Some(line),
            },
            other => other,
        }
    }

    /// Renders the error as the one-line human-readable message shown to
    /// the user.
    pub fn to_display_string(&self) -> (r: String)
        ensures
            r@ == error_display_spec(self),
    {
        let r = match self {
            LuaError::LexError { message, line, column } => {
                let mut out = string_from("Lexical error at ");
                push_usize_digits(&mut out, *line);
                push_str_slice(&mut out, ":");
                push_usize_digits(&mut out, *column);
                push_str_slice(&mut out, ": ");
                push_str_all(&mut out, message);
                out
            },
            LuaError::ParseError { message, line, column } => {
                let mut out = string_from("Parse error at ");
                push_usize_digits(&mut out, *line);
                push_str_slice(&mut out, ":");
                push_usize_digits(&mut out, *column);
                push_str_slice(&mut out, ": ");
                push_str_all(&mut out, message);
                out
            },
            LuaError::RuntimeError { message, line } => {
                match line {
                    Some(l) => {
                        let mut out = string_from("Runtime error at line ");
                        push_usize_digits(&mut out, *l);
                        push_str_slice(&mut out, ": ");
                        push_str_all(&mut out, message);
                        out
                    },
                    None => {
                        let mut out = string_from("Runtime error: ");
                        push_str_all(&mut out, message);
                        out
                    },
                }
            },
            LuaError::TypeError { expected, found, operation } => {
                let mut out = string_from("Type error in ");
                push_str_all(&mut out, operation);
                push_str_slice(&mut out, ": expected ");
                push_str_all(&mut out, expected);
                push_str_slice(&mut out, ", found ");
                push_str_all(&mut out, found);
                out
            },
            LuaError::UndefinedVariable { name } => {
                let mut out = string_from("Undefined variable: ");
                push_str_all(&mut out, name);
                out
            },
            LuaError::ArgumentError { expected, found, function } => {
                let mut out = string_from("Wrong number of arguments to ");
                push_str_all(&mut out, function);
                push_str_slice(&mut out, ": expected ");
                push_usize_digits(&mut out, *expected);
                push_str_slice(&mut out, ", got ");
                push_usize_digits(&mut out, *found);
                out
            },
            LuaError::CallError { message, function } => {
                let mut out = string_from("Error calling ");
                push_str_all(&mut out, function);
                push_str_slice(&mut out, ": ");
                push_str_all(&mut out, message);
                out
            },
            LuaError::ArithmeticError { message, operation } => {
                let mut out = string_from("Arithmetic error in ");
                push_str_all(&mut out, operation);
                push_str_slice(&mut out, ": ");
                push_str_all(&mut out, message);
                out
            },
            LuaError::StackOverflow => string_from("Stack overflow"),
            LuaError::StackUnderflow => string_from("Stack underflow"),
            LuaError::JitError { message, pc } => {
                let mut out = string_from("JIT compilation error at PC ");
                push_usize_digits(&mut out, *pc);
                push_str_slice(&mut out, ": ");
                push_str_all(&mut out, message);
                out
            },
            LuaError::IoError { message } => {
                let mut out = string_from("IO error: ");
                push_str_all(&mut out, message);
                out
            },
            LuaError::CustomError { message, error_type } => {
                let mut out = clone_string(error_type);
                push_str_slice(&mut out, ": ");
                push_str_all(&mut out, message);
                out
            },
        };
        proof {
            assert(r@ =~= error_display_spec(self));
        }
        r
    }
}

pub open spec fn error_type_spec(e: &LuaError) -> Seq<char> {
    match e {
        LuaError::LexError { .. } => "LexError"@,
        LuaError::ParseError { .. } => "ParseError"@,
        LuaError::RuntimeError { .. } => "RuntimeError"@,
        LuaError::TypeError { .. } => "TypeError"@,
        LuaError::UndefinedVariable { .. } => "UndefinedVariable"@,
        LuaError::ArgumentError { .. } => "ArgumentError"@,
        LuaError::CallError { .. } => "CallError"@,
        LuaError::ArithmeticError { .. } => "ArithmeticError"@,
        LuaError::StackOverflow => "StackOverflow"@,
        LuaError::StackUnderflow => "StackUnderflow"@,
        LuaError::JitError { .. } => "JitError"@,
        LuaError::IoError { .. } => "IoError"@,
        LuaError::CustomError { .. } => "CustomError"@,
    }
}

pub open spec fn message_spec(e: &LuaError) -> Seq<char> {
    match e {
        LuaError::LexError { message, .. } => message@,
        LuaError::ParseError { message, .. } => message@,
        LuaError::RuntimeError { message, .. } => message@,
        LuaError::CallError { message, .. } => message@,
        LuaError::ArithmeticError { message, .. } => message@,
        LuaError::JitError { message, .. } => message@,
        LuaError::IoError { message, .. } => message@,
        LuaError::CustomError { message, .. } => message@,
        LuaError::TypeError { .. } => "Type error (see rendered form for details)"@,
        LuaError::UndefinedVariable { .. } => "Undefined variable"@,
        LuaError::ArgumentError { .. } => "Wrong number of arguments"@,
        LuaError::StackOverflow => "Stack overflow"@,
        LuaError::StackUnderflow => "Stack underflow"@,
    }
}

pub open spec fn with_line_spec(e: LuaError, line: usize) -> LuaError {
    match e {
        LuaError::RuntimeError { message, line: _ } => LuaError::RuntimeError {
            message,
            line: Some(line),
        },
        _ => e,
    }
}

/// The one-line rendering of each error kind.
pub open spec fn error_display_spec(e: &LuaError) -> Seq<char> {
    match e {
        LuaError::LexError { message, line, column } => "Lexical error at "@ + nat_to_seq(
            *line as int,
        ) + ":"@ + nat_to_seq(*column as int) + ": "@ + message@,
        LuaError::ParseError { message, line, column } => "Parse error at "@ + nat_to_seq(
            *line as int,
        ) + ":"@ + nat_to_seq(*column as int) + ": "@ + message@,
        LuaError::RuntimeError { message, line } => match line {
            Some(l) => "Runtime error at line "@ + nat_to_seq(*l as int) + ": "@ + message@,
            None => "Runtime error: "@ + message@,
        },
        LuaError::TypeError { expected, found, operation } => "Type error in "@ + operation@
            + ": expected "@ + expected@ + ", found "@ + found@,
        LuaError::UndefinedVariable { name } => "Undefined variable: "@ + name@,
        LuaError::ArgumentError { expected, found, function } => "Wrong number of arguments to "@
            + function@ + ": expected "@ + nat_to_seq(*expected as int) + ", got "@ + nat_to_seq(
            *found as int,
        ),
        LuaError::CallError { message, function } => "Error calling "@ + function@ + ": "@
            + message@,
        LuaError::ArithmeticError { message, operation } => "Arithmetic error in "@ + operation@
            + ": "@ + message@,
        LuaError::StackOverflow => "Stack overflow"@,
        LuaError::StackUnderflow => "Stack underflow"@,
        LuaError::JitError { message, pc } => "JIT compilation error at PC "@ + nat_to_seq(
            *pc as int,
        ) + ": "@ + message@,
        LuaError::IoError { message } => "IO error: "@ + message@,
        LuaError::CustomError { message, error_type } => error_type@ + ": "@ + message@,
    }
}

/// Appends an owned string's text.
pub fn push_str_all(out: &mut String, s: &String)
    ensures
        final(out)@ == old(out)@ + s@,
{
    out.append(s.as_str());
}

/// Appends a string slice's text.
pub fn push_str_slice(out: &mut String, s: &str)
    ensures
        final(out)@ == old(out)@ + s@,
{
    out.append(s);
}

// ---------------------------------------------------------------------------
// Common error builders
// ---------------------------------------------------------------------------

/// The arithmetic error reported for a zero divisor.
pub fn division_by_zero() -> (r: LuaError)
    ensures
        r matches LuaError::ArithmeticError { message: m, operation: o } && m@
            == "Division by zero"@ && o@ == "division"@,
{
    LuaError::arithmetic_error("Division by zero", "division")
}

/// The type error reported when an operator meets operands it cannot use.
pub fn invalid_operation(op: &str, left_type: &str, right_type: &str) -> (r: LuaError)
    ensures
        r matches LuaError::TypeError { expected: e, found: f, operation: o } && e@
            == "number or string"@ && f@ == left_type@ + " and "@ + right_type@ && o@ == op@,
{
    let mut found = string_from(left_type);
    push_str_slice(&mut found, " and ");
    push_str_slice(&mut found, right_type);
    LuaError::type_error("number or string", found.as_str(), op)
}

/// The type error reported when a non-function value is called.
pub fn not_callable(value_type: &str) -> (r: LuaError)
    ensures
        r matches LuaError::TypeError { expected: e, found: f, operation: o } && e@ == "function"@
            && f@ == value_type@ && o@ == "call"@,
{
    LuaError::type_error("function", value_type, "call")
}

/// The type error reported when a non-table value is indexed.
pub fn not_indexable(value_type: &str) -> (r: LuaError)
    ensures
        r matches LuaError::TypeError { expected: e, found: f, operation: o } && e@ == "table"@
            && f@ == value_type@ && o@ == "index"@,
{
    LuaError::type_error("table", value_type, "index")
}

// ---------------------------------------------------------------------------
// Error context
// ---------------------------------------------------------------------------

/// A record of where an error arose, carried for diagnostic composition;
/// the interpreter loop does not populate it automatically.
pub struct ErrorContext {
    pub file: Option<String>,
    pub line: Option<usize>,
    pub column: Option<usize>,
    pub function_name: Option<String>,
    pub call_stack: Vec<String>,
}

/// The trailing call-stack listing of [`ErrorContext::format_error`]:
/// one line per recorded call, innermost call first, numbered from one.
pub open spec fn stack_lines_spec(calls: Seq<Seq<char>>, k: int) -> Seq<char>
    decreases k,
{
    if k <= 0 || k > calls.len() {
        Seq::empty()
    } else {
        stack_lines_spec(calls, k - 1) + "\n  "@ + nat_to_seq(k) + ": "@ + calls[calls.len() - k]
    }
}

/// The full rendering of an error in context.
pub open spec fn format_error_spec(ctx: &ErrorContext, e: &LuaError) -> Seq<char> {
    let base = error_display_spec(e);
    let with_fn = match ctx.function_name {
        Some(f) => base + " in function '"@ + f@ + "'"@,
        None => base,
    };
    let with_file = match ctx.file {
        Some(f) => with_fn + " in file '"@ + f@ + "'"@,
        None => with_fn,
    };
    if ctx.call_stack@.len() > 0 {
        with_file + "\nCall stack:"@ + stack_lines_spec(
            ctx.call_stack@.map_values(|s: String| s@),
            ctx.call_stack@.len() as int,
        )
    } else {
        with_file
    }
}

impl ErrorContext {
    pub fn new() -> (r: Self)
        ensures
            r.file is None,
            r.line is None,
            r.column is None,
            r.function_name is None,
            r.call_stack@.len() == 0,
    {
        ErrorContext {
            file: None,
            line: None,
            column: None,
            function_name: None,
            call_stack: Vec::new(),
        }
    }

    pub fn with_line(self, line: usize) -> (r: Self)
        ensures
            r.line == Some(line),
            r.file == self.file,
            r.column == self.column,
            r.function_name == self.function_name,
            r.call_stack == self.call_stack,
    {
        ErrorContext { line: Some(line), ..self }
    }

    pub fn with_function(self, function_name: String) -> (r: Self)
        ensures
            r.function_name == Some(function_name),
            r.file == self.file,
            r.line == self.line,
            r.column == self.column,
            r.call_stack == self.call_stack,
    {
        ErrorContext { function_name: Some(function_name), ..self }
    }

    pub fn push_call(self, function_name: String) -> (r: Self)
        ensures
            r.call_stack@ == self.call_stack@.push(function_name),
            r.file == self.file,
            r.line == self.line,
            r.column == self.column,
            r.function_name == self.function_name,
    {
        let mut c = self;
        c.call_stack.push(function_name);
        c
    }

    /// Renders `error` together with this context's function, file and
    /// recorded call stack (innermost call listed first).
    pub fn format_error(&self, error: &LuaError) -> (r: String)
        ensures
            r@ == format_error_spec(self, error),
    {
        let mut out = error.to_display_string();
        match &self.function_name {
            Some(f) => {
                push_str_slice(&mut out, " in function '");
                push_str_all(&mut out, f);
                push_str_slice(&mut out, "'");
                proof {
                    assert(out@ =~= error_display_spec(error) + " in function '"@
                        + self.function_name->0@ + "'"@);
                }
            },
            None => {},
        }
        match &self.file {
            Some(f) => {
                push_str_slice(&mut out, " in file '");
                push_str_all(&mut out, f);
                push_str_slice(&mut out, "'");
            },
            None => {},
        }
        let ghost with_file = out@;
        if self.call_stack.len() > 0 {
            push_str_slice(&mut out, "\nCall stack:");
            let n = self.call_stack.len();
            let ghost calls = self.call_stack@.map_values(|s: String| s@);
            let mut k: usize = 0;
            while k < n
                invariant
                    n == self.call_stack@.len(),
                    k <= n,
                    calls == self.call_stack@.map_values(|s: String| s@),
                    out@ == with_file + "\nCall stack:"@ + stack_lines_spec(calls, k as int),
                decreases n - k,
            {
                let ghost pre = out@;
                push_str_slice(&mut out, "\n  ");
                push_usize_digits(&mut out, k + 1);
                push_str_slice(&mut out, ": ");
                push_str_all(&mut out, &self.call_stack[n - 1 - k]);
                proof {
                    assert(calls[n - 1 - k] == self.call_stack@[n - 1 - k as int]@);
                    assert(out@ =~= pre + "\n  "@ + nat_to_seq((k + 1) as int) + ": "@ + calls[n - 1
                        - k]);
                    assert(stack_lines_spec(calls, k + 1 as int) == stack_lines_spec(calls, k as int)
                        + "\n  "@ + nat_to_seq((k + 1) as int) + ": "@ + calls[calls.len() - (k
                        + 1)]);
                    assert(out@ =~= with_file + "\nCall stack:"@ + stack_lines_spec(
                        calls,
                        (k + 1) as int,
                    ));
                }
                k += 1;
            }
            proof {
                assert(out@ == format_error_spec(self, error));
            }
        }
        out
    }
}

} // verus!

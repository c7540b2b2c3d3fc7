//! Luna: a small dynamic-language execution engine.
//!
//! Source text is lexed, parsed into an AST, lowered into a stack-based
//! bytecode chunk, and run by a stack-machine interpreter that profiles
//! itself and prepares native machine code for frequently executed bytecode
//! regions.  Numbers are integer-valued: the engine's arithmetic is exact
//! 64-bit signed arithmetic, and division or modulo by zero is a reported
//! error, never an infinity.  The integer model also means that the
//! float-rooted library entries (`math.sqrt`, `math.sin`, `math.cos`,
//! `math.tan`, `math.pi`, `math.random`) report a "not supported" error,
//! string-to-number coercion is an exact integer parse, and a fractional
//! numeric literal is a lexical error.

pub mod ast;
pub mod bytecode;
pub mod environment;
pub mod error;
pub mod jit;
pub mod lexer;
pub mod parser;
pub mod runtime;
pub mod stdlib;
pub mod value;
pub mod vm;

use vstd::prelude::*;
use crate::ast::{Program, program_supported};
use crate::bytecode::lower_program;
use crate::error::ErrModel;
use crate::lexer::lex_spec;
use crate::runtime::{
    LuaJitRuntime, StepResult, STEP_LIMIT, init_state, initial_globals, rt_wf, run_n,
    runtime_model,
};

pub use crate::error::LuaResult;
pub use crate::value::Value;

verus! {

/// Engine configuration.  The interpreter currently honours the defaults
/// regardless of these settings; they are carried for API stability.
#[derive(Debug, Clone, Copy)]
pub struct LunaConfig {
    pub jit_enabled: bool,
    pub optimization_level: u8,
}

impl Default for LunaConfig {
    fn default() -> (c: Self)
        ensures
            c.jit_enabled == true,
            c.optimization_level == 2,
    {
        Self { jit_enabled: true, optimization_level: 2 }
    }
}

/// The engine's version string.
pub fn version() -> (v: &'static str)
    ensures
        v@ == "0.1.0"@,
{
    "0.1.0"
}

/// A fresh runtime with the standard registry and initial globals.
pub fn new_runtime() -> (r: LuaJitRuntime)
    ensures
        rt_wf(&r),
        runtime_model(&r).globals == initial_globals(),
        runtime_model(&r).out.len() == 0,
{
    LuaJitRuntime::new()
}

/// A fresh runtime under the given configuration.
pub fn new_runtime_with_config(config: LunaConfig) -> (r: LuaJitRuntime)
    ensures
        rt_wf(&r),
        runtime_model(&r).globals == initial_globals(),
        runtime_model(&r).out.len() == 0,
{
    LuaJitRuntime::with_config(config)
}

/// What a fresh run of the lowering of some supported program, from the
/// initial globals, yields within the step limit.
pub open spec fn fresh_outcome(p: &Program, n: nat) -> StepResult {
    run_n(init_state(lower_program(p), initial_globals(), Seq::empty()), n)
}

/// Bridges a runtime-level machine outcome to a fresh-runtime outcome:
/// with the initial globals and no pending output, the two initial
/// states coincide.
proof fn lift_fresh_outcome(
    code: Seq<char>,
    r: &LuaResult<Value>,
    g0: Seq<(Seq<char>, crate::value::ValueModel)>,
    o0: Seq<char>,
    rt: &LuaJitRuntime,
)
    requires
        g0 == initial_globals(),
        o0 == Seq::<char>::empty(),
        match r {
            Ok(v) => lex_spec(code) is Ok && exists|p: Program, n: nat|
                {
                    &&& program_supported(&p)
                    &&& n <= STEP_LIMIT
                    &&& (#[trigger] run_n(init_state(lower_program(&p), g0, o0), n)) matches
                        StepResult::Done(st, m) && m == v@
                },
            Err(e) => {
                ||| (lex_spec(code) matches Err(el) && e@ == el)
                ||| (lex_spec(code) is Ok && e@ is ParseError)
                ||| (lex_spec(code) is Ok && (e@ matches ErrModel::RuntimeError { message, line }
                    && line is None && (message == "Statement not implemented"@ || message
                    == "Expression not implemented"@ || message
                    == "execution step limit exceeded"@)))
                ||| (lex_spec(code) is Ok && exists|p: Program, n: nat|
                    {
                        &&& program_supported(&p)
                        &&& n <= STEP_LIMIT
                        &&& (#[trigger] run_n(init_state(lower_program(&p), g0, o0), n)) matches
                            StepResult::Fail(st, em) && em == e@
                    })
            },
        },
    ensures
        match r {
            Ok(v) => lex_spec(code) is Ok && exists|p: Program, n: nat|
                {
                    &&& program_supported(&p)
                    &&& n <= STEP_LIMIT
                    &&& (#[trigger] fresh_outcome(&p, n)) matches StepResult::Done(st, m) && m
                        == v@
                },
            Err(e) => {
                ||| (lex_spec(code) matches Err(el) && e@ == el)
                ||| (lex_spec(code) is Ok && e@ is ParseError)
                ||| (lex_spec(code) is Ok && (e@ matches ErrModel::RuntimeError { message, line }
                    && line is None && (message == "Statement not implemented"@ || message
                    == "Expression not implemented"@ || message
                    == "execution step limit exceeded"@)))
                ||| (lex_spec(code) is Ok && exists|p: Program, n: nat|
                    {
                        &&& program_supported(&p)
                        &&& n <= STEP_LIMIT
                        &&& (#[trigger] fresh_outcome(&p, n)) matches StepResult::Fail(st, em)
                            && em == e@
                    })
            },
        },
{
    match r {
        Ok(v) => {
            let (p0, n0): (Program, nat) = choose|p: Program, n: nat|
                {
                    &&& program_supported(&p)
                    &&& n <= STEP_LIMIT
                    &&& (#[trigger] run_n(init_state(lower_program(&p), g0, o0), n)) matches
                        StepResult::Done(st, m) && m == v@
                };
            assert(fresh_outcome(&p0, n0) == run_n(init_state(lower_program(&p0), g0, o0), n0));
            assert({
                &&& program_supported(&p0)
                &&& n0 <= STEP_LIMIT
                &&& (#[trigger] fresh_outcome(&p0, n0)) matches StepResult::Done(st, m) && m
                    == v@
            });
        },
        Err(e) => {
            if exists|p: Program, n: nat|
                {
                    &&& program_supported(&p)
                    &&& n <= STEP_LIMIT
                    &&& (#[trigger] run_n(init_state(lower_program(&p), g0, o0), n)) matches
                        StepResult::Fail(st, em) && em == e@
                } {
                let (p0, n0): (Program, nat) = choose|p: Program, n: nat|
                    {
                        &&& program_supported(&p)
                        &&& n <= STEP_LIMIT
                        &&& (#[trigger] run_n(init_state(lower_program(&p), g0, o0), n)) matches
                            StepResult::Fail(st, em) && em == e@
                    };
                assert(fresh_outcome(&p0, n0) == run_n(
                    init_state(lower_program(&p0), g0, o0),
                    n0,
                ));
                assert({
                    &&& program_supported(&p0)
                    &&& n0 <= STEP_LIMIT
                    &&& (#[trigger] fresh_outcome(&p0, n0)) matches StepResult::Fail(st, em)
                        && em == e@
                });
            }
        },
    }
}

/// Lexes, parses, lowers and runs source text on a fresh runtime,
/// returning the program's final value (nil if nothing was returned).
/// On success the result is the machine's unique outcome for the
/// lowering of the parsed program from the initial globals; each failing
/// stage reports its own error kind.  Repeated calls on the same parsed
/// program therefore return the same result (`lemma_run_deterministic`);
/// lexing is pinned by `lex_spec`, while the parser carries no
/// functional contract, so past it this contract is existential in the
/// parsed program — [`LuaJitRuntime::run_program`] states the exact
/// outcome with the program as its argument.
pub fn execute(code: &str) -> (r: LuaResult<Value>)
    ensures
        match r {
            Ok(v) => lex_spec(code@) is Ok && exists|p: Program, n: nat|
                {
                    &&& program_supported(&p)
                    &&& n <= STEP_LIMIT
                    &&& (#[trigger] fresh_outcome(&p, n)) matches StepResult::Done(st, m) && m
                        == v@
                },
            Err(e) => {
                ||| (lex_spec(code@) matches Err(el) && e@ == el)
                ||| (lex_spec(code@) is Ok && e@ is ParseError)
                ||| (lex_spec(code@) is Ok && (e@ matches ErrModel::RuntimeError { message, line }
                    && line is None && (message == "Statement not implemented"@ || message
                    == "Expression not implemented"@ || message
                    == "execution step limit exceeded"@)))
                ||| (lex_spec(code@) is Ok && exists|p: Program, n: nat|
                    {
                        &&& program_supported(&p)
                        &&& n <= STEP_LIMIT
                        &&& (#[trigger] fresh_outcome(&p, n)) matches StepResult::Fail(st, em)
                            && em == e@
                    })
            },
        },
{
    let mut runtime = new_runtime();
    let ghost g0 = runtime_model(&runtime).globals;
    let ghost o0 = runtime_model(&runtime).out;
    proof {
        assert(o0 =~= Seq::<char>::empty());
    }
    let r = runtime.execute(code);
    proof {
        lift_fresh_outcome(code@, &r, g0, o0, &runtime);
    }
    r
}

/// As [`execute`], under the given configuration.
pub fn execute_with_config(code: &str, config: LunaConfig) -> (r: LuaResult<Value>)
    ensures
        match r {
            Ok(v) => lex_spec(code@) is Ok && exists|p: Program, n: nat|
                {
                    &&& program_supported(&p)
                    &&& n <= STEP_LIMIT
                    &&& (#[trigger] fresh_outcome(&p, n)) matches StepResult::Done(st, m) && m
                        == v@
                },
            Err(e) => {
                ||| (lex_spec(code@) matches Err(el) && e@ == el)
                ||| (lex_spec(code@) is Ok && e@ is ParseError)
                ||| (lex_spec(code@) is Ok && (e@ matches ErrModel::RuntimeError { message, line }
                    && line is None && (message == "Statement not implemented"@ || message
                    == "Expression not implemented"@ || message
                    == "execution step limit exceeded"@)))
                ||| (lex_spec(code@) is Ok && exists|p: Program, n: nat|
                    {
                        &&& program_supported(&p)
                        &&& n <= STEP_LIMIT
                        &&& (#[trigger] fresh_outcome(&p, n)) matches StepResult::Fail(st, em)
                            && em == e@
                    })
            },
        },
{
    let mut runtime = new_runtime_with_config(config);
    let ghost g0 = runtime_model(&runtime).globals;
    let ghost o0 = runtime_model(&runtime).out;
    proof {
        assert(o0 =~= Seq::<char>::empty());
    }
    let r = runtime.execute(code);
    proof {
        lift_fresh_outcome(code@, &r, g0, o0, &runtime);
    }
    r
}

} // verus!

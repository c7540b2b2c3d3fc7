//! The stack-machine interpreter and its owning runtime: an operand
//! stack, a call-frame stack, a global table and the JIT profiler, driven
//! one instruction at a time.  Every observable step of execution is
//! given by the small-step machine [`step_spec`] over [`MachineState`];
//! the interpreter is proved to follow it exactly, which makes
//! interpretation deterministic.

use vstd::prelude::*;
use crate::bytecode::{Chunk, Compiler, Instruction, InstrModel, clone_chunk, clone_instruction};
use crate::ast::Program;
use crate::lexer::{Lexer, LexCursor, lex_spec, lex_spec_from};
use crate::parser::Parser;
use crate::jit::JitCompiler;
use crate::error::{ErrModel, LuaError, push_str_all, push_str_slice};
use crate::stdlib::{builtin_spec, call_builtin, vals_model, write_stdout};
use crate::value::{
    Value, ValueModel, clone_value, display_spec, eq_value, kind_name_spec, string_from,
    table_get, table_get_model, table_set, table_set_model, to_number_spec, truthy, value_model,
};
use crate::vm::{StandardLibrary, registry_names, registry_lookup, name_index};

verus! {

/// One call frame: the chunk it executes, its program counter, and its
/// local-variable slots.
pub struct CallFrame {
    pub chunk: Chunk,
    pub pc: usize,
    pub locals: Vec<Value>,
}

/// The model of a call frame.
#[verifier::ext_equal]
pub struct FrameModel {
    pub code: Seq<InstrModel>,
    pub pc: int,
    pub locals: Seq<ValueModel>,
}

pub open spec fn frame_model(f: CallFrame) -> FrameModel {
    FrameModel {
        code: f.chunk@.code,
        pc: f.pc as int,
        locals: f.locals@.map_values(|v: Value| value_model(v)),
    }
}

/// The whole observable state of the machine: the frame stack, the
/// operand stack, the global table, and the output produced so far.
#[verifier::ext_equal]
pub struct MachineState {
    pub frames: Seq<FrameModel>,
    pub stack: Seq<ValueModel>,
    pub globals: Seq<(Seq<char>, ValueModel)>,
    pub out: Seq<char>,
}

/// What one machine step yields: the next state, or completion with the
/// program's result, or a structured error.  The carried state on
/// completion or failure is the machine's state at that moment; a failed
/// run leaves globals as they were (no rollback).
#[verifier::ext_equal]
pub enum StepResult {
    Next(MachineState),
    Done(MachineState, ValueModel),
    Fail(MachineState, ErrModel),
}

// --------------------------------------------------------------------------
// Spec-level state transitions
// --------------------------------------------------------------------------

pub open spec fn sp_cur(s: MachineState) -> FrameModel {
    s.frames.last()
}

/// The current frame's program counter replaced.
pub open spec fn sp_set_pc(s: MachineState, t: int) -> MachineState {
    MachineState {
        frames: s.frames.update(
            s.frames.len() - 1,
            FrameModel { pc: t, ..s.frames.last() },
        ),
        ..s
    }
}

/// The program counter advanced past the current instruction.
pub open spec fn sp_bump(s: MachineState) -> MachineState {
    sp_set_pc(s, sp_cur(s).pc + 1)
}

/// The top `n` operands removed.
pub open spec fn sp_shrink(s: MachineState, n: int) -> MachineState {
    MachineState { stack: s.stack.take(s.stack.len() - n), ..s }
}

/// A value pushed.
pub open spec fn sp_push(s: MachineState, v: ValueModel) -> MachineState {
    MachineState { stack: s.stack.push(v), ..s }
}

/// The current frame's locals replaced.
pub open spec fn sp_set_locals(s: MachineState, locals: Seq<ValueModel>) -> MachineState {
    MachineState {
        frames: s.frames.update(
            s.frames.len() - 1,
            FrameModel { locals, ..s.frames.last() },
        ),
        ..s
    }
}

/// The local slot array extended with nils up to `i` and slot `i` set.
pub open spec fn store_local_model(locals: Seq<ValueModel>, i: int, v: ValueModel) -> Seq<
    ValueModel,
> {
    let padded = if i < locals.len() {
        locals
    } else {
        locals + Seq::new((i + 1 - locals.len()) as nat, |k: int| ValueModel::Nil)
    };
    padded.update(i, v)
}

// --------------------------------------------------------------------------
// Arithmetic
// --------------------------------------------------------------------------

/// The numeric binary operators (comparisons included: both coerce their
/// operands to numbers).
#[derive(Clone, Copy)]
pub enum NumOp {
    Add,
    Sub,
    Mul,
    Div,
    Mod,
    Pow,
    Lt,
    Le,
    Gt,
    Ge,
}

pub open spec fn num_op_name(op: NumOp) -> Seq<char> {
    match op {
        NumOp::Add => "addition"@,
        NumOp::Sub => "subtraction"@,
        NumOp::Mul => "multiplication"@,
        NumOp::Div => "division"@,
        NumOp::Mod => "modulo"@,
        NumOp::Pow => "power"@,
        _ => "comparison"@,
    }
}

/// Truncating division (the quotient rounds toward zero).
pub open spec fn div_trunc(x: int, d: int) -> int {
    if x == 0 {
        0
    } else if x > 0 && d > 0 {
        x / d
    } else if x < 0 && d < 0 {
        (x * -1) / (d * -1)
    } else if x < 0 {
        ((x * -1) / d) * -1
    } else {
        (x / (d * -1)) * -1
    }
}

/// The remainder matching truncating division (it takes the sign of the
/// dividend).
pub open spec fn rem_trunc(x: int, d: int) -> int {
    if x == 0 {
        0
    } else if x > 0 && d > 0 {
        x % d
    } else if x < 0 && d < 0 {
        ((x * -1) % (d * -1)) * -1
    } else if x < 0 {
        ((x * -1) % d) * -1
    } else {
        x % (d * -1)
    }
}

/// Integer exponentiation.
pub open spec fn pow_int(x: int, y: nat) -> int
    decreases y,
{
    if y == 0 {
        1
    } else {
        pow_int(x, (y - 1) as nat) * x
    }
}

pub open spec fn arith_err(message: Seq<char>, op: NumOp) -> ErrModel {
    ErrModel::ArithmeticError { message, operation: num_op_name(op) }
}

/// A numeric result squeezed back into a 64-bit word, or an overflow
/// error.
pub open spec fn fit_i64(v: int, op: NumOp) -> Result<ValueModel, ErrModel> {
    if i64::MIN <= v <= i64::MAX {
        Ok(ValueModel::Number(v as i64))
    } else {
        Err(arith_err("overflow"@, op))
    }
}

/// The exact value of each numeric operator on coerced operands:
/// arithmetic is exact 64-bit signed arithmetic; a zero divisor is an
/// error, never an infinity; a result outside the 64-bit range is an
/// overflow error; comparisons yield booleans.
pub open spec fn num_binop_val(op: NumOp, x: i64, y: i64) -> Result<ValueModel, ErrModel> {
    match op {
        NumOp::Add => fit_i64(x + y, op),
        NumOp::Sub => fit_i64(x - y, op),
        NumOp::Mul => fit_i64(x * y, op),
        NumOp::Div => if y == 0 {
            Err(ErrModel::ArithmeticError { message: "Division by zero"@, operation: "division"@ })
        } else {
            fit_i64(div_trunc(x as int, y as int), op)
        },
        NumOp::Mod => if y == 0 {
            Err(ErrModel::ArithmeticError { message: "Modulo by zero"@, operation: "modulo"@ })
        } else {
            fit_i64(rem_trunc(x as int, y as int), op)
        },
        NumOp::Pow => if y < 0 {
            Err(arith_err("negative exponent"@, op))
        } else {
            fit_i64(pow_int(x as int, y as nat), op)
        },
        NumOp::Lt => Ok(ValueModel::Boolean(x < y)),
        NumOp::Le => Ok(ValueModel::Boolean(x <= y)),
        NumOp::Gt => Ok(ValueModel::Boolean(x > y)),
        NumOp::Ge => Ok(ValueModel::Boolean(x >= y)),
    }
}

/// A numeric operator applied to two runtime values: each operand is
/// coerced to a number (numbers pass through; strings parse), anything
/// else is a type error.
pub open spec fn num_binop_full(op: NumOp, a: ValueModel, b: ValueModel) -> Result<
    ValueModel,
    ErrModel,
> {
    match (to_number_spec(a), to_number_spec(b)) {
        (Some(x), Some(y)) => num_binop_val(op, x, y),
        _ => Err(
            ErrModel::TypeError {
                expected: "number or string"@,
                found: kind_name_spec(a) + " and "@ + kind_name_spec(b),
                operation: num_op_name(op),
            },
        ),
    }
}

/// Unary negation.
pub open spec fn neg_spec(a: ValueModel) -> Result<ValueModel, ErrModel> {
    match to_number_spec(a) {
        Some(n) => if n == i64::MIN {
            Err(ErrModel::ArithmeticError { message: "overflow"@, operation: "negation"@ })
        } else {
            Ok(ValueModel::Number((-n) as i64))
        },
        None => Err(
            ErrModel::TypeError {
                expected: "number or string"@,
                found: kind_name_spec(a),
                operation: "negation"@,
            },
        ),
    }
}

// --------------------------------------------------------------------------
// The small-step machine
// --------------------------------------------------------------------------

/// The effect of one instruction, with `f` the current frame and `i` the
/// instruction at its program counter.
pub open spec fn instr_step(s: MachineState, f: FrameModel, i: InstrModel) -> StepResult {
    match i {
        InstrModel::LoadConst(v) => StepResult::Next(sp_bump(sp_push(s, v))),
        InstrModel::LoadGlobal(name) => StepResult::Next(
            sp_bump(sp_push(s, table_get_model(s.globals, name))),
        ),
        InstrModel::StoreGlobal(name) => {
            if s.stack.len() == 0 {
                StepResult::Fail(s, ErrModel::StackUnderflow)
            } else {
                let v = s.stack.last();
                let s1 = MachineState {
                    globals: table_set_model(s.globals, name, v),
                    ..sp_shrink(s, 1)
                };
                StepResult::Next(sp_bump(s1))
            }
        },
        InstrModel::LoadLocal(k) => {
            let v = if (k as int) < f.locals.len() {
                f.locals[k as int]
            } else {
                ValueModel::Nil
            };
            StepResult::Next(sp_bump(sp_push(s, v)))
        },
        InstrModel::StoreLocal(k) => {
            if k == usize::MAX {
                StepResult::Fail(
                    s,
                    ErrModel::RuntimeError { message: "local slot index out of range"@, line: None },
                )
            } else if s.stack.len() == 0 {
                StepResult::Fail(s, ErrModel::StackUnderflow)
            } else {
                let v = s.stack.last();
                let s1 = sp_set_locals(sp_shrink(s, 1), store_local_model(f.locals, k as int, v));
                StepResult::Next(sp_bump(s1))
            }
        },
        InstrModel::Add => binop_step(s, NumOp::Add),
        InstrModel::Sub => binop_step(s, NumOp::Sub),
        InstrModel::Mul => binop_step(s, NumOp::Mul),
        InstrModel::Div => binop_step(s, NumOp::Div),
        InstrModel::Mod => binop_step(s, NumOp::Mod),
        InstrModel::Pow => binop_step(s, NumOp::Pow),
        InstrModel::Neg => {
            if s.stack.len() == 0 {
                StepResult::Fail(s, ErrModel::StackUnderflow)
            } else {
                let a = s.stack.last();
                let s1 = sp_shrink(s, 1);
                match neg_spec(a) {
                    Ok(v) => StepResult::Next(sp_bump(sp_push(s1, v))),
                    Err(e) => StepResult::Fail(s1, e),
                }
            }
        },
        InstrModel::Equal => eq_step(s, true),
        InstrModel::NotEqual => eq_step(s, false),
        InstrModel::Less => binop_step(s, NumOp::Lt),
        InstrModel::LessEqual => binop_step(s, NumOp::Le),
        InstrModel::Greater => binop_step(s, NumOp::Gt),
        InstrModel::GreaterEqual => binop_step(s, NumOp::Ge),
        InstrModel::And => logic_step(s, true),
        InstrModel::Or => logic_step(s, false),
        InstrModel::Not => {
            if s.stack.len() == 0 {
                StepResult::Fail(s, ErrModel::StackUnderflow)
            } else {
                let a = s.stack.last();
                StepResult::Next(
                    sp_bump(sp_push(sp_shrink(s, 1), ValueModel::Boolean(!truthy(a)))),
                )
            }
        },
        InstrModel::Concat => {
            if s.stack.len() < 2 {
                StepResult::Fail(s, ErrModel::StackUnderflow)
            } else {
                let b = s.stack.last();
                let a = s.stack[s.stack.len() - 2];
                StepResult::Next(
                    sp_bump(
                        sp_push(sp_shrink(s, 2), ValueModel::Str(display_spec(a) + display_spec(b))),
                    ),
                )
            }
        },
        InstrModel::Jump(t) => StepResult::Next(sp_set_pc(s, t as int)),
        InstrModel::JumpIfFalse(t) => {
            if s.stack.len() == 0 {
                StepResult::Fail(s, ErrModel::StackUnderflow)
            } else {
                let c = s.stack.last();
                let s1 = sp_shrink(s, 1);
                if !truthy(c) {
                    StepResult::Next(sp_set_pc(s1, t as int))
                } else {
                    StepResult::Next(sp_bump(s1))
                }
            }
        },
        InstrModel::JumpIfTrue(t) => {
            if s.stack.len() == 0 {
                StepResult::Fail(s, ErrModel::StackUnderflow)
            } else {
                let c = s.stack.last();
                let s1 = sp_shrink(s, 1);
                if truthy(c) {
                    StepResult::Next(sp_set_pc(s1, t as int))
                } else {
                    StepResult::Next(sp_bump(s1))
                }
            }
        },
        InstrModel::Call(argc) => call_step(s, argc as int),
        InstrModel::Return => StepResult::Next(
            MachineState { frames: s.frames.drop_last(), ..s },
        ),
        InstrModel::Pop => {
            let s1 = if s.stack.len() > 0 {
                sp_shrink(s, 1)
            } else {
                s
            };
            StepResult::Next(sp_bump(s1))
        },
        InstrModel::GetIndex => get_index_step(s),
        _ => StepResult::Fail(
            s,
            ErrModel::RuntimeError { message: "Unimplemented instruction"@, line: None },
        ),
    }
}

/// A numeric binary operator: pop two, coerce, compute, push.
pub open spec fn binop_step(s: MachineState, op: NumOp) -> StepResult {
    if s.stack.len() < 2 {
        StepResult::Fail(s, ErrModel::StackUnderflow)
    } else {
        let b = s.stack.last();
        let a = s.stack[s.stack.len() - 2];
        let s1 = sp_shrink(s, 2);
        match num_binop_full(op, a, b) {
            Ok(v) => StepResult::Next(sp_bump(sp_push(s1, v))),
            Err(e) => StepResult::Fail(s1, e),
        }
    }
}

/// Structural equality / inequality on any two values.
pub open spec fn eq_step(s: MachineState, positive: bool) -> StepResult {
    if s.stack.len() < 2 {
        StepResult::Fail(s, ErrModel::StackUnderflow)
    } else {
        let b = s.stack.last();
        let a = s.stack[s.stack.len() - 2];
        let r = if positive {
            a == b
        } else {
            a != b
        };
        StepResult::Next(sp_bump(sp_push(sp_shrink(s, 2), ValueModel::Boolean(r))))
    }
}

/// Logical and/or on truthiness; both operands are already on the stack,
/// so there is no short-circuiting.
pub open spec fn logic_step(s: MachineState, conj: bool) -> StepResult {
    if s.stack.len() < 2 {
        StepResult::Fail(s, ErrModel::StackUnderflow)
    } else {
        let b = s.stack.last();
        let a = s.stack[s.stack.len() - 2];
        let r = if conj {
            truthy(a) && truthy(b)
        } else {
            truthy(a) || truthy(b)
        };
        StepResult::Next(sp_bump(sp_push(sp_shrink(s, 2), ValueModel::Boolean(r))))
    }
}

/// A call: the callee sits on top of `argc` arguments.  A function
/// reference dispatches into the registry; calling anything else is a
/// type error.
pub open spec fn call_step(s: MachineState, argc: int) -> StepResult {
    if s.stack.len() < argc + 1 {
        StepResult::Fail(s, ErrModel::StackUnderflow)
    } else {
        let callee = s.stack.last();
        let args = s.stack.subrange(s.stack.len() - 1 - argc, s.stack.len() - 1);
        let s1 = sp_shrink(s, argc + 1);
        match callee {
            ValueModel::Function(id) => {
                let b = builtin_spec(id as int, args);
                let s2 = MachineState { out: s1.out + b.out, ..s1 };
                match b.res {
                    Ok(v) => StepResult::Next(sp_bump(sp_push(s2, v))),
                    Err(e) => StepResult::Fail(s2, e),
                }
            },
            _ => StepResult::Fail(
                s1,
                ErrModel::TypeError {
                    expected: "function"@,
                    found: kind_name_spec(callee),
                    operation: "call"@,
                },
            ),
        }
    }
}

/// Table indexing, with the registry fallback for dotted builtin names:
/// indexing a non-table looks `<table>.<key>` up in the registry and
/// yields a function reference or nil, never a crash.
pub open spec fn get_index_step(s: MachineState) -> StepResult {
    if s.stack.len() < 2 {
        StepResult::Fail(s, ErrModel::StackUnderflow)
    } else {
        let key = s.stack.last();
        let table = s.stack[s.stack.len() - 2];
        let s1 = sp_shrink(s, 2);
        match table {
            ValueModel::Table(t) => StepResult::Next(
                sp_bump(sp_push(s1, table_get_model(t, display_spec(key)))),
            ),
            _ => {
                let full_name = display_spec(table) + "."@ + display_spec(key);
                match registry_lookup(full_name) {
                    Some(id) => StepResult::Next(
                        sp_bump(sp_push(s1, ValueModel::Function(id as usize))),
                    ),
                    None => StepResult::Next(sp_bump(sp_push(s1, ValueModel::Nil))),
                }
            },
        }
    }
}

/// One machine step.  With no frames left, execution is complete and the
/// result is the top of the operand stack (nil if it is empty); a frame
/// whose program counter has run off the end of its code is popped;
/// otherwise the instruction at the program counter executes.
pub open spec fn step_spec(s: MachineState) -> StepResult {
    if s.frames.len() == 0 {
        StepResult::Done(
            s,
            if s.stack.len() > 0 {
                s.stack.last()
            } else {
                ValueModel::Nil
            },
        )
    } else {
        let f = s.frames.last();
        if f.pc < 0 || f.pc >= f.code.len() {
            StepResult::Next(MachineState { frames: s.frames.drop_last(), ..s })
        } else {
            instr_step(s, f, f.code[f.pc])
        }
    }
}

/// The machine after `n` steps: still running, or finished, or failed;
/// finishing and failing are absorbing.
pub open spec fn run_n(s0: MachineState, n: nat) -> StepResult
    decreases n,
{
    if n == 0 {
        StepResult::Next(s0)
    } else {
        match run_n(s0, (n - 1) as nat) {
            StepResult::Next(s) => step_spec(s),
            done_or_failed => done_or_failed,
        }
    }
}

/// Terminal outcomes absorb: once the machine has finished or failed, it
/// stays finished or failed with the same state and result.
pub proof fn lemma_run_absorbs(s0: MachineState, n: nat, m: nat)
    requires
        n <= m,
        !(run_n(s0, n) is Next),
    ensures
        run_n(s0, m) == run_n(s0, n),
    decreases m - n,
{
    if n < m {
        lemma_run_absorbs(s0, n, (m - 1) as nat);
    }
}

/// Determinism of interpretation: two runs of the machine from the same
/// initial state that both reach a terminal outcome reach the same
/// outcome — the same result or error, and the same final state.
pub proof fn lemma_run_deterministic(s0: MachineState, n1: nat, n2: nat)
    requires
        !(run_n(s0, n1) is Next),
        !(run_n(s0, n2) is Next),
    ensures
        run_n(s0, n1) == run_n(s0, n2),
{
    if n1 <= n2 {
        lemma_run_absorbs(s0, n1, n2);
    } else {
        lemma_run_absorbs(s0, n2, n1);
    }
}

// --------------------------------------------------------------------------
// Sequence-map lemmas
// --------------------------------------------------------------------------

pub proof fn lemma_map_values_push<A, B>(s: Seq<A>, f: spec_fn(A) -> B, x: A)
    ensures
        s.push(x).map_values(f) == s.map_values(f).push(f(x)),
{
    assert(s.push(x).map_values(f) =~= s.map_values(f).push(f(x)));
}

pub proof fn lemma_map_values_drop_last<A, B>(s: Seq<A>, f: spec_fn(A) -> B)
    requires
        s.len() > 0,
    ensures
        s.drop_last().map_values(f) == s.map_values(f).drop_last(),
{
    assert(s.drop_last().map_values(f) =~= s.map_values(f).drop_last());
}

pub proof fn lemma_map_values_update<A, B>(s: Seq<A>, f: spec_fn(A) -> B, i: int, x: A)
    requires
        0 <= i < s.len(),
    ensures
        s.update(i, x).map_values(f) == s.map_values(f).update(i, f(x)),
{
    assert(s.update(i, x).map_values(f) =~= s.map_values(f).update(i, f(x)));
}

pub proof fn lemma_map_values_take<A, B>(s: Seq<A>, f: spec_fn(A) -> B, n: int)
    requires
        0 <= n <= s.len(),
    ensures
        s.take(n).map_values(f) == s.map_values(f).take(n),
{
    assert(s.take(n).map_values(f) =~= s.map_values(f).take(n));
}

// --------------------------------------------------------------------------
// Arithmetic, executable
// --------------------------------------------------------------------------

pub open spec fn iabs(v: int) -> int {
    if v < 0 {
        -v
    } else {
        v
    }
}

proof fn lemma_pow_one(y: nat)
    ensures
        pow_int(1, y) == 1,
    decreases y,
{
    if y > 0 {
        lemma_pow_one((y - 1) as nat);
    }
}

proof fn lemma_pow_zero(y: nat)
    requires
        y >= 1,
    ensures
        pow_int(0, y) == 0,
    decreases y,
{
    if y > 1 {
        lemma_pow_zero((y - 1) as nat);
    }
}

proof fn lemma_pow_neg_one(y: nat)
    ensures
        pow_int(-1, y) == if y % 2 == 0 {
            1int
        } else {
            -1int
        },
    decreases y,
{
    if y > 0 {
        lemma_pow_neg_one((y - 1) as nat);
    }
}

/// With a base of magnitude at least two, the power's magnitude at least
/// doubles with each extra step.
proof fn lemma_pow_abs_grow(x: int, k: nat, y: nat)
    requires
        iabs(x) >= 2,
        k <= y,
    ensures
        iabs(pow_int(x, y)) >= iabs(pow_int(x, k)),
        k < y ==> iabs(pow_int(x, y)) >= 2 * iabs(pow_int(x, k)),
        iabs(pow_int(x, k)) >= 1,
    decreases y - k,
{
    if k == y {
        lemma_pow_abs_pos(x, k);
    } else {
        lemma_pow_abs_grow(x, k, (y - 1) as nat);
        let p = pow_int(x, (y - 1) as nat);
        assert(pow_int(x, y) == p * x);
        assert(iabs(p * x) == iabs(p) * iabs(x)) by (nonlinear_arith);
        assert(iabs(p) * iabs(x) >= iabs(p) * 2) by (nonlinear_arith)
            requires
                iabs(x) >= 2,
                iabs(p) >= 0,
        ;
        lemma_pow_abs_pos(x, k);
    }
}

proof fn lemma_pow_abs_pos(x: int, k: nat)
    requires
        iabs(x) >= 1,
    ensures
        iabs(pow_int(x, k)) >= 1,
    decreases k,
{
    if k > 0 {
        lemma_pow_abs_pos(x, (k - 1) as nat);
        let p = pow_int(x, (k - 1) as nat);
        assert(iabs(p * x) == iabs(p) * iabs(x)) by (nonlinear_arith);
        assert(iabs(p) * iabs(x) >= 1) by (nonlinear_arith)
            requires
                iabs(p) >= 1,
                iabs(x) >= 1,
        ;
    }
}

/// Integer exponentiation with overflow detection.
fn pow_exec(x: i64, y: i64) -> (r: Option<i64>)
    requires
        y >= 0,
    ensures
        match r {
            Some(v) => i64::MIN <= pow_int(x as int, y as nat) <= i64::MAX && v as int == pow_int(
                x as int,
                y as nat,
            ),
            None => !(i64::MIN <= pow_int(x as int, y as nat) <= i64::MAX),
        },
{
    if x == 0 {
        if y == 0 {
            return Some(1);
        }
        proof {
            lemma_pow_zero(y as nat);
        }
        return Some(0);
    }
    if x == 1 {
        proof {
            lemma_pow_one(y as nat);
        }
        return Some(1);
    }
    if x == -1 {
        proof {
            lemma_pow_neg_one(y as nat);
        }
        if (y as u64) % 2 == 0 {
            return Some(1);
        } else {
            return Some(-1);
        }
    }
    let yy = y as u64;
    let mut acc: i64 = 1;
    let mut k: u64 = 0;
    while k < yy
        invariant
            k <= yy,
            yy == y as u64,
            y >= 0,
            iabs(x as int) >= 2,
            acc as int == pow_int(x as int, k as nat),
        decreases yy - k,
    {
        match acc.checked_mul(x) {
            Some(n) => {
                proof {
                    assert(pow_int(x as int, k as nat + 1) == pow_int(x as int, k as nat) * x);
                }
                acc = n;
                k = k + 1;
            },
            None => {
                proof {
                    let xi = x as int;
                    let k1 = k as nat + 1;
                    assert(pow_int(xi, k1) == pow_int(xi, k as nat) * xi);
                    assert(!(i64::MIN <= pow_int(xi, k1) <= i64::MAX));
                    if k1 < y as nat {
                        lemma_pow_abs_grow(xi, k1, y as nat);
                        assert(iabs(pow_int(xi, k1)) >= 0x8000000000000000);
                        assert(iabs(pow_int(xi, y as nat)) >= 2 * iabs(pow_int(xi, k1)));
                    }
                }
                return None;
            },
        }
    }
    Some(acc)
}

/// One numeric binary operator applied to two operands, with the exact
/// result (or error) of [`num_binop_full`].
fn apply_num_binop(op: &NumOp, a: &Value, b: &Value) -> (r: Result<Value, LuaError>)
    ensures
        ({
            let spec_r = num_binop_full(num_op_of(op), a@, b@);
            match r {
                Ok(v) => spec_r is Ok && v@ == spec_r->Ok_0,
                Err(e) => spec_r is Err && e@ == spec_r->Err_0,
            }
        }),
{
    let x = match a.to_number() {
        Some(x) => x,
        None => {
            return Err(invalid_operands(op, a, b));
        },
    };
    let y = match b.to_number() {
        Some(y) => y,
        None => {
            return Err(invalid_operands(op, a, b));
        },
    };
    match op {
        NumOp::Add => {
            match x.checked_add(y) {
                Some(v) => Ok(Value::Number(v)),
                None => Err(LuaError::arithmetic_error("overflow", "addition")),
            }
        },
        NumOp::Sub => {
            match x.checked_sub(y) {
                Some(v) => Ok(Value::Number(v)),
                None => Err(LuaError::arithmetic_error("overflow", "subtraction")),
            }
        },
        NumOp::Mul => {
            match x.checked_mul(y) {
                Some(v) => Ok(Value::Number(v)),
                None => Err(LuaError::arithmetic_error("overflow", "multiplication")),
            }
        },
        NumOp::Div => {
            if y == 0 {
                Err(LuaError::arithmetic_error("Division by zero", "division"))
            } else {
                match x.checked_div(y) {
                    Some(v) => Ok(Value::Number(v)),
                    None => Err(LuaError::arithmetic_error("overflow", "division")),
                }
            }
        },
        NumOp::Mod => {
            if y == 0 {
                Err(LuaError::arithmetic_error("Modulo by zero", "modulo"))
            } else if x == i64::MIN && y == -1 {
                proof {
                    assert(rem_trunc(x as int, y as int) == 0);
                }
                Ok(Value::Number(0))
            } else {
                match x.checked_rem(y) {
                    Some(v) => Ok(Value::Number(v)),
                    None => {
                        proof {
                            assert(false);
                        }
                        Err(LuaError::arithmetic_error("overflow", "modulo"))
                    },
                }
            }
        },
        NumOp::Pow => {
            if y < 0 {
                Err(LuaError::arithmetic_error("negative exponent", "power"))
            } else {
                match pow_exec(x, y) {
                    Some(v) => Ok(Value::Number(v)),
                    None => Err(LuaError::arithmetic_error("overflow", "power")),
                }
            }
        },
        NumOp::Lt => Ok(Value::Boolean(x < y)),
        NumOp::Le => Ok(Value::Boolean(x <= y)),
        NumOp::Gt => Ok(Value::Boolean(x > y)),
        NumOp::Ge => Ok(Value::Boolean(x >= y)),
    }
}

/// The identity on the operator tag (tags are consumed by reference).
pub open spec fn num_op_of(op: &NumOp) -> NumOp {
    *op
}

// --------------------------------------------------------------------------
// The runtime
// --------------------------------------------------------------------------

/// The owning runtime: globals, operand stack, call-frame stack, the JIT
/// profiler, the function registry, and the output accumulated since the
/// last flush.
pub struct LuaJitRuntime {
    globals: Vec<(String, Value)>,
    stack: Vec<Value>,
    call_stack: Vec<CallFrame>,
    jit_compiler: JitCompiler,
    stdlib: StandardLibrary,
    out: String,
}

/// The machine state a runtime currently embodies.
pub closed spec fn runtime_model(rt: &LuaJitRuntime) -> MachineState {
    MachineState {
        frames: rt.call_stack@.map_values(|f: CallFrame| frame_model(f)),
        stack: vals_model(rt.stack@),
        globals: crate::value::table_model(rt.globals@),
        out: rt.out@,
    }
}

/// The runtime's structural invariant: its registry is the standard one.
pub closed spec fn rt_wf(rt: &LuaJitRuntime) -> bool {
    rt.stdlib@ == registry_names()
}

/// The parts of the runtime one machine step never touches.
spec fn preserved(a: &LuaJitRuntime, b: &LuaJitRuntime) -> bool {
    a.jit_compiler == b.jit_compiler && a.stdlib == b.stdlib
}

/// What one interpreter step did.
pub enum StepOutcome {
    KeepGoing,
    Finished(Value),
    Failed(LuaError),
}

/// The step outcome `r`, taking the machine from `pre` to `post`,
/// realizes the specified step result `target`.
pub open spec fn outcome_matches(
    pre: MachineState,
    r: StepOutcome,
    post: MachineState,
    target: StepResult,
) -> bool {
    match r {
        StepOutcome::KeepGoing => target == StepResult::Next(post),
        StepOutcome::Finished(v) => target == StepResult::Done(post, v@),
        StepOutcome::Failed(e) => target == StepResult::Fail(post, e@),
    }
}

impl LuaJitRuntime {
    /// Sets the current frame's program counter.
    fn with_frame_pc(&mut self, t: usize)
        requires
            old(self).call_stack@.len() > 0,
        ensures
            preserved(old(self), final(self)),
            runtime_model(final(self)) == sp_set_pc(runtime_model(old(self)), t as int),
    {
        let ghost pre = runtime_model(self);
        match self.call_stack.pop() {
            Some(fr) => {
                let fr2 = CallFrame { pc: t, ..fr };
                self.call_stack.push(fr2);
                proof {
                    let f = |fr: CallFrame| frame_model(fr);
                    lemma_map_values_drop_last(old(self).call_stack@, f);
                    lemma_map_values_push(old(self).call_stack@.drop_last(), f, fr2);
                    assert(frame_model(fr2) == (FrameModel { pc: t as int, ..frame_model(fr) }));
                    assert(runtime_model(self).frames =~= pre.frames.update(
                        pre.frames.len() - 1,
                        FrameModel { pc: t as int, ..pre.frames.last() },
                    ));
                    assert(runtime_model(self) =~= sp_set_pc(pre, t as int));
                }
            },
            None => {
                proof {
                    assert(false);
                }
            },
        }
    }

    /// Advances the current frame's program counter by one.
    fn bump_pc(&mut self)
        requires
            old(self).call_stack@.len() > 0,
            old(self).call_stack@.last().pc < usize::MAX,
        ensures
            preserved(old(self), final(self)),
            runtime_model(final(self)) == sp_bump(runtime_model(old(self))),
    {
        let i = self.call_stack.len() - 1;
        let pc = self.call_stack[i].pc;
        self.with_frame_pc(pc + 1);
        proof {
            assert(sp_cur(runtime_model(old(self))).pc == pc as int);
        }
    }

    /// Pushes a value on the operand stack.
    fn push_value(&mut self, v: Value)
        ensures
            preserved(old(self), final(self)),
            runtime_model(final(self)) == sp_push(runtime_model(old(self)), v@),
    {
        let ghost pre = runtime_model(self);
        proof {
            lemma_map_values_push(self.stack@, |x: Value| value_model(x), v);
        }
        self.stack.push(v);
        proof {
            assert(runtime_model(self) =~= sp_push(pre, v@));
        }
    }

    /// Removes the top `n` operands.
    fn shrink_stack(&mut self, n: usize)
        requires
            n <= old(self).stack@.len(),
        ensures
            preserved(old(self), final(self)),
            runtime_model(final(self)) == sp_shrink(runtime_model(old(self)), n as int),
    {
        let ghost pre = runtime_model(self);
        let keep = self.stack.len() - n;
        proof {
            lemma_map_values_take(self.stack@, |x: Value| value_model(x), keep as int);
        }
        self.stack.truncate(keep);
        proof {
            assert(runtime_model(self) =~= sp_shrink(pre, n as int));
        }
    }

    /// Reads the operand `back` places below the top (zero is the top).
    fn stack_at(&self, back: usize) -> (r: Value)
        requires
            back < self.stack@.len(),
        ensures
            r@ == runtime_model(self).stack[runtime_model(self).stack.len() - 1 - back],
    {
        let n = self.stack.len();
        clone_value(&self.stack[n - 1 - back])
    }

    /// A numeric binary operator: pop two, coerce, compute, push.
    fn do_binop(&mut self, op: NumOp) -> (r: StepOutcome)
        requires
            old(self).call_stack@.len() > 0,
            old(self).call_stack@.last().pc < usize::MAX,
        ensures
            preserved(old(self), final(self)),
            outcome_matches(
                runtime_model(old(self)),
                r,
                runtime_model(final(self)),
                binop_step(runtime_model(old(self)), op),
            ),
    {
        let ghost pre = runtime_model(self);
        let n = self.stack.len();
        if n < 2 {
            return StepOutcome::Failed(LuaError::StackUnderflow);
        }
        let b = self.stack_at(0);
        let a = self.stack_at(1);
        self.shrink_stack(2);
        match apply_num_binop(&op, &a, &b) {
            Ok(v) => {
                self.push_value(v);
                self.bump_pc();
                StepOutcome::KeepGoing
            },
            Err(e) => StepOutcome::Failed(e),
        }
    }

    /// Structural equality / inequality.
    fn do_eq(&mut self, positive: bool) -> (r: StepOutcome)
        requires
            old(self).call_stack@.len() > 0,
            old(self).call_stack@.last().pc < usize::MAX,
        ensures
            preserved(old(self), final(self)),
            outcome_matches(
                runtime_model(old(self)),
                r,
                runtime_model(final(self)),
                eq_step(runtime_model(old(self)), positive),
            ),
    {
        let n = self.stack.len();
        if n < 2 {
            return StepOutcome::Failed(LuaError::StackUnderflow);
        }
        let b = self.stack_at(0);
        let a = self.stack_at(1);
        self.shrink_stack(2);
        let same = eq_value(&a, &b);
        let v = if positive {
            same
        } else {
            !same
        };
        self.push_value(Value::Boolean(v));
        self.bump_pc();
        StepOutcome::KeepGoing
    }

    /// Logical and/or on truthiness (both operands already evaluated).
    fn do_logic(&mut self, conj: bool) -> (r: StepOutcome)
        requires
            old(self).call_stack@.len() > 0,
            old(self).call_stack@.last().pc < usize::MAX,
        ensures
            preserved(old(self), final(self)),
            outcome_matches(
                runtime_model(old(self)),
                r,
                runtime_model(final(self)),
                logic_step(runtime_model(old(self)), conj),
            ),
    {
        let n = self.stack.len();
        if n < 2 {
            return StepOutcome::Failed(LuaError::StackUnderflow);
        }
        let b = self.stack_at(0);
        let a = self.stack_at(1);
        self.shrink_stack(2);
        let v = if conj {
            a.is_truthy() && b.is_truthy()
        } else {
            a.is_truthy() || b.is_truthy()
        };
        self.push_value(Value::Boolean(v));
        self.bump_pc();
        StepOutcome::KeepGoing
    }

    /// A call: pops the callee and its arguments and dispatches into the
    /// registry.
    fn do_call(&mut self, argc: usize) -> (r: StepOutcome)
        requires
            old(self).call_stack@.len() > 0,
            old(self).call_stack@.last().pc < usize::MAX,
        ensures
            preserved(old(self), final(self)),
            outcome_matches(
                runtime_model(old(self)),
                r,
                runtime_model(final(self)),
                call_step(runtime_model(old(self)), argc as int),
            ),
    {
        let ghost pre = runtime_model(self);
        let n = self.stack.len();
        if argc >= n {
            return StepOutcome::Failed(LuaError::StackUnderflow);
        }
        let callee = self.stack_at(0);
        let base = n - 1 - argc;
        let mut args: Vec<Value> = Vec::new();
        let mut j: usize = 0;
        while j < argc
            invariant
                n == self.stack@.len(),
                argc < n,
                base == n - 1 - argc,
                j <= argc,
                pre == runtime_model(self),
                args@.len() == j,
                forall|k: int|
                    0 <= k < j ==> (#[trigger] args@[k])@ == pre.stack[base + k],
            decreases argc - j,
        {
            args.push(clone_value(&self.stack[base + j]));
            j += 1;
        }
        proof {
            assert forall|k: int|
                0 <= k < argc implies vals_model(args@)[k] == pre.stack.subrange(
                pre.stack.len() - 1 - argc,
                pre.stack.len() - 1,
            )[k] by {
                assert(vals_model(args@)[k] == args@[k]@);
            }
            assert(vals_model(args@) =~= pre.stack.subrange(
                pre.stack.len() - 1 - argc,
                pre.stack.len() - 1,
            ));
        }
        self.shrink_stack(argc + 1);
        match callee {
            Value::Function(id) => {
                let ghost mid = runtime_model(self);
                let ghost pre_out = self.out@;
                let res = call_builtin(id, &args, &mut self.out);
                proof {
                    assert(runtime_model(self) =~= (MachineState {
                        out: mid.out + builtin_spec(id as int, vals_model(args@)).out,
                        ..mid
                    }));
                }
                match res {
                    Ok(v) => {
                        self.push_value(v);
                        self.bump_pc();
                        StepOutcome::KeepGoing
                    },
                    Err(e) => StepOutcome::Failed(e),
                }
            },
            other => {
                let e = crate::error::not_callable(other.kind_name());
                StepOutcome::Failed(e)
            },
        }
    }

    /// Table indexing with the registry fallback for dotted names.
    fn do_get_index(&mut self) -> (r: StepOutcome)
        requires
            rt_wf(old(self)),
            old(self).call_stack@.len() > 0,
            old(self).call_stack@.last().pc < usize::MAX,
        ensures
            preserved(old(self), final(self)),
            outcome_matches(
                runtime_model(old(self)),
                r,
                runtime_model(final(self)),
                get_index_step(runtime_model(old(self))),
            ),
    {
        let n = self.stack.len();
        if n < 2 {
            return StepOutcome::Failed(LuaError::StackUnderflow);
        }
        let key = self.stack_at(0);
        let table = self.stack_at(1);
        self.shrink_stack(2);
        match table {
            Value::Table(t) => {
                let key_str = key.to_display_string();
                let v = table_get(&t, &key_str);
                self.push_value(v);
                self.bump_pc();
                StepOutcome::KeepGoing
            },
            other => {
                let mut full_name = other.to_display_string();
                push_str_slice(&mut full_name, ".");
                let key_str = key.to_display_string();
                push_str_all(&mut full_name, &key_str);
                match self.stdlib.get_function(full_name.as_str()) {
                    Some(id) => {
                        self.push_value(Value::Function(id));
                        self.bump_pc();
                        StepOutcome::KeepGoing
                    },
                    None => {
                        self.push_value(Value::Nil);
                        self.bump_pc();
                        StepOutcome::KeepGoing
                    },
                }
            },
        }
    }

    /// Stores the popped value in local slot `k`, growing the slot array
    /// with nils as needed.
    fn do_store_local(&mut self, k: usize) -> (r: StepOutcome)
        requires
            old(self).call_stack@.len() > 0,
            old(self).call_stack@.last().pc < usize::MAX,
            k < usize::MAX,
        ensures
            preserved(old(self), final(self)),
            outcome_matches(
                runtime_model(old(self)),
                r,
                runtime_model(final(self)),
                instr_step(
                    runtime_model(old(self)),
                    sp_cur(runtime_model(old(self))),
                    InstrModel::StoreLocal(k),
                ),
            ),
    {
        let ghost pre = runtime_model(self);
        if self.stack.len() == 0 {
            return StepOutcome::Failed(LuaError::StackUnderflow);
        }
        let v = self.stack_at(0);
        self.shrink_stack(1);
        let ghost mid = runtime_model(self);
        let ghost cs_mid = self.call_stack@;
        match self.call_stack.pop() {
            Some(fr) => {
                let ghost old_locals = fr.locals@.map_values(|x: Value| value_model(x));
                let ghost fr0 = fr;
                let mut fr = fr;
                while fr.locals.len() <= k
                    invariant
                        k < usize::MAX,
                        fr.chunk == fr0.chunk,
                        fr.pc == fr0.pc,
                        old_locals == fr0.locals@.map_values(|x: Value| value_model(x)),
                        fr.locals@.map_values(|x: Value| value_model(x)) =~= old_locals + Seq::new(
                            (fr.locals@.len() - old_locals.len()) as nat,
                            |q: int| ValueModel::Nil,
                        ),
                        fr.locals@.len() >= old_locals.len(),
                        old_locals.len() > k ==> fr.locals@.len() == old_locals.len(),
                        old_locals.len() <= k ==> fr.locals@.len() <= k + 1,
                    decreases k + 1 - fr.locals@.len(),
                {
                    proof {
                        lemma_map_values_push(fr.locals@, |x: Value| value_model(x), Value::Nil);
                    }
                    fr.locals.push(Value::Nil);
                    proof {
                        assert(fr.locals@.map_values(|x: Value| value_model(x)) =~= old_locals
                            + Seq::new(
                            (fr.locals@.len() - old_locals.len()) as nat,
                            |q: int| ValueModel::Nil,
                        ));
                    }
                }
                proof {
                    lemma_map_values_update(fr.locals@, |x: Value| value_model(x), k as int, v);
                }
                let ghost padded = fr.locals@.map_values(|x: Value| value_model(x));
                fr.locals[k] = v;
                proof {
                    assert(fr.locals@.map_values(|x: Value| value_model(x)) == padded.update(
                        k as int,
                        v@,
                    ));
                    assert(padded =~= (if k < old_locals.len() {
                        old_locals
                    } else {
                        old_locals + Seq::new(
                            (k + 1 - old_locals.len()) as nat,
                            |q: int| ValueModel::Nil,
                        )
                    }));
                }
                self.call_stack.push(fr);
                proof {
                    let f = |x: CallFrame| frame_model(x);
                    lemma_map_values_drop_last(cs_mid, f);
                    lemma_map_values_push(cs_mid.drop_last(), f, self.call_stack@.last());
                    assert(mid.frames == cs_mid.map_values(f));
                    assert(mid.frames == pre.frames);
                    assert(pre.frames.last() == frame_model(cs_mid.last()));
                    assert(cs_mid.last() == fr0);
                    assert(old_locals == sp_cur(pre).locals);
                    let pushed = self.call_stack@.last();
                    assert(frame_model(pushed).locals == padded.update(k as int, v@));
                    assert(padded.update(k as int, v@) == store_local_model(
                        sp_cur(pre).locals,
                        k as int,
                        v@,
                    ));
                    assert(frame_model(pushed).code == sp_cur(pre).code);
                    assert(frame_model(pushed).pc == sp_cur(pre).pc);
                    assert(frame_model(pushed) == (FrameModel {
                        locals: store_local_model(sp_cur(pre).locals, k as int, v@),
                        ..mid.frames.last()
                    }));
                    assert(runtime_model(self).frames =~= mid.frames.update(
                        mid.frames.len() - 1,
                        FrameModel {
                            locals: store_local_model(sp_cur(pre).locals, k as int, v@),
                            ..mid.frames.last()
                        },
                    ));
                    assert(runtime_model(self) =~= sp_set_locals(
                        mid,
                        store_local_model(sp_cur(pre).locals, k as int, v@),
                    ));
                }
                self.bump_pc();
                StepOutcome::KeepGoing
            },
            None => {
                proof {
                    assert(false);
                }
                StepOutcome::Failed(LuaError::StackUnderflow)
            },
        }
    }

    /// One machine step: runs the instruction at the current program
    /// counter, pops a finished frame, or reports completion.
    #[verifier::rlimit(100)]
    #[verifier::spinoff_prover]
    fn step_exec(&mut self) -> (r: StepOutcome)
        requires
            rt_wf(old(self)),
        ensures
            rt_wf(final(self)),
            preserved(old(self), final(self)),
            outcome_matches(
                runtime_model(old(self)),
                r,
                runtime_model(final(self)),
                step_spec(runtime_model(old(self))),
            ),
    {
        let ghost pre = runtime_model(self);
        let fcount = self.call_stack.len();
        if fcount == 0 {
            let v = if self.stack.len() > 0 {
                self.stack_at(0)
            } else {
                Value::Nil
            };
            return StepOutcome::Finished(v);
        }
        let pc = self.call_stack[fcount - 1].pc;
        let code_len = self.call_stack[fcount - 1].chunk.instructions.len();
        if pc >= code_len {
            proof {
                lemma_map_values_drop_last(self.call_stack@, |x: CallFrame| frame_model(x));
            }
            let _ = self.call_stack.pop();
            proof {
                assert(runtime_model(self) =~= (MachineState {
                    frames: pre.frames.drop_last(),
                    ..pre
                }));
            }
            return StepOutcome::KeepGoing;
        }
        let instr = clone_instruction(&self.call_stack[fcount - 1].chunk.instructions[pc]);
        proof {
            assert(sp_cur(pre).code[pc as int] == instr@);
        }
        match instr {
            Instruction::LoadConst(v) => {
                self.push_value(v);
                self.bump_pc();
                StepOutcome::KeepGoing
            },
            Instruction::LoadGlobal(name) => {
                let v = table_get(&self.globals, &name);
                self.push_value(v);
                self.bump_pc();
                StepOutcome::KeepGoing
            },
            Instruction::StoreGlobal(name) => {
                if self.stack.len() == 0 {
                    return StepOutcome::Failed(LuaError::StackUnderflow);
                }
                let v = self.stack_at(0);
                self.shrink_stack(1);
                let ghost mid = runtime_model(self);
                table_set(&mut self.globals, name, v);
                proof {
                    assert(runtime_model(self) =~= (MachineState {
                        globals: table_set_model(mid.globals, instr@->StoreGlobal_0, v@),
                        ..mid
                    }));
                }
                self.bump_pc();
                StepOutcome::KeepGoing
            },
            Instruction::LoadLocal(k) => {
                let fi = self.call_stack.len() - 1;
                let v = if k < self.call_stack[fi].locals.len() {
                    clone_value(&self.call_stack[fi].locals[k])
                } else {
                    Value::Nil
                };
                self.push_value(v);
                self.bump_pc();
                StepOutcome::KeepGoing
            },
            Instruction::StoreLocal(k) => {
                if k == usize::MAX {
                    return StepOutcome::Failed(
                        LuaError::runtime_error("local slot index out of range"),
                    );
                }
                self.do_store_local(k)
            },
            Instruction::Add => self.do_binop(NumOp::Add),
            Instruction::Sub => self.do_binop(NumOp::Sub),
            Instruction::Mul => self.do_binop(NumOp::Mul),
            Instruction::Div => self.do_binop(NumOp::Div),
            Instruction::Mod => self.do_binop(NumOp::Mod),
            Instruction::Pow => self.do_binop(NumOp::Pow),
            Instruction::Neg => {
                if self.stack.len() == 0 {
                    return StepOutcome::Failed(LuaError::StackUnderflow);
                }
                let a = self.stack_at(0);
                self.shrink_stack(1);
                match neg_exec(&a) {
                    Ok(v) => {
                        self.push_value(v);
                        self.bump_pc();
                        StepOutcome::KeepGoing
                    },
                    Err(e) => StepOutcome::Failed(e),
                }
            },
            Instruction::Equal => self.do_eq(true),
            Instruction::NotEqual => self.do_eq(false),
            Instruction::Less => self.do_binop(NumOp::Lt),
            Instruction::LessEqual => self.do_binop(NumOp::Le),
            Instruction::Greater => self.do_binop(NumOp::Gt),
            Instruction::GreaterEqual => self.do_binop(NumOp::Ge),
            Instruction::And => self.do_logic(true),
            Instruction::Or => self.do_logic(false),
            Instruction::Not => {
                if self.stack.len() == 0 {
                    return StepOutcome::Failed(LuaError::StackUnderflow);
                }
                let a = self.stack_at(0);
                self.shrink_stack(1);
                let v = !a.is_truthy();
                self.push_value(Value::Boolean(v));
                self.bump_pc();
                StepOutcome::KeepGoing
            },
            Instruction::Concat => {
                if self.stack.len() < 2 {
                    return StepOutcome::Failed(LuaError::StackUnderflow);
                }
                let b = self.stack_at(0);
                let a = self.stack_at(1);
                self.shrink_stack(2);
                let mut text = a.to_display_string();
                let bs = b.to_display_string();
                push_str_all(&mut text, &bs);
                self.push_value(Value::Str(text));
                self.bump_pc();
                StepOutcome::KeepGoing
            },
            Instruction::Jump(t) => {
                self.with_frame_pc(t);
                StepOutcome::KeepGoing
            },
            Instruction::JumpIfFalse(t) => {
                if self.stack.len() == 0 {
                    return StepOutcome::Failed(LuaError::StackUnderflow);
                }
                let c = self.stack_at(0);
                self.shrink_stack(1);
                if !c.is_truthy() {
                    self.with_frame_pc(t);
                } else {
                    self.bump_pc();
                }
                StepOutcome::KeepGoing
            },
            Instruction::JumpIfTrue(t) => {
                if self.stack.len() == 0 {
                    return StepOutcome::Failed(LuaError::StackUnderflow);
                }
                let c = self.stack_at(0);
                self.shrink_stack(1);
                if c.is_truthy() {
                    self.with_frame_pc(t);
                } else {
                    self.bump_pc();
                }
                StepOutcome::KeepGoing
            },
            Instruction::Call(argc) => self.do_call(argc),
            Instruction::Return => {
                proof {
                    lemma_map_values_drop_last(self.call_stack@, |x: CallFrame| frame_model(x));
                }
                let _ = self.call_stack.pop();
                proof {
                    assert(runtime_model(self) =~= (MachineState {
                        frames: pre.frames.drop_last(),
                        ..pre
                    }));
                }
                StepOutcome::KeepGoing
            },
            Instruction::Pop => {
                if self.stack.len() > 0 {
                    self.shrink_stack(1);
                }
                self.bump_pc();
                StepOutcome::KeepGoing
            },
            Instruction::GetIndex => self.do_get_index(),
            _ => StepOutcome::Failed(LuaError::runtime_error("Unimplemented instruction")),
        }
    }
}

/// The most machine steps one run may take before it is cut off with a
/// runtime error; ordinary programs finish far below it.
pub const STEP_LIMIT: u64 = 100000000;

/// The machine state a fresh run of `code` starts from: one frame at
/// program counter zero with no locals, an empty operand stack, and the
/// runtime's present globals and output.
pub open spec fn init_state(
    code: Seq<InstrModel>,
    globals: Seq<(Seq<char>, ValueModel)>,
    out: Seq<char>,
) -> MachineState {
    MachineState {
        frames: seq![FrameModel { code, pc: 0, locals: Seq::empty() }],
        stack: Seq::empty(),
        globals,
        out,
    }
}

/// The globals a fresh runtime starts with: `print`, and the `math` and
/// `string` namespaces as tables of function references into the
/// registry (ids fixed by registration order).
pub open spec fn initial_globals() -> Seq<(Seq<char>, ValueModel)> {
    seq![
        ("print"@, ValueModel::Function(0)),
        (
            "math"@,
            ValueModel::Table(
                seq![
                    ("abs"@, ValueModel::Function(23)),
                    ("sqrt"@, ValueModel::Function(28)),
                    ("max"@, ValueModel::Function(26)),
                    ("min"@, ValueModel::Function(27)),
                ],
            ),
        ),
        (
            "string"@,
            ValueModel::Table(
                seq![
                    ("len"@, ValueModel::Function(15)),
                    ("sub"@, ValueModel::Function(16)),
                    ("upper"@, ValueModel::Function(17)),
                    ("lower"@, ValueModel::Function(18)),
                    ("char"@, ValueModel::Function(19)),
                    ("byte"@, ValueModel::Function(20)),
                ],
            ),
        ),
    ]
}

impl LuaJitRuntime {
    /// A fresh runtime: the standard registry, the initial globals, no
    /// pending frames, operands or output, and a cold JIT profiler.
    pub fn new() -> (r: Self)
        ensures
            rt_wf(&r),
            runtime_model(&r).frames.len() == 0,
            runtime_model(&r).stack.len() == 0,
            runtime_model(&r).out.len() == 0,
            runtime_model(&r).globals == initial_globals(),
            crate::jit::threshold_of(&jit_of(&r)) == 100u32,
    {
        let stdlib = StandardLibrary::new();
        let mut runtime = LuaJitRuntime {
            globals: Vec::new(),
            stack: Vec::new(),
            call_stack: Vec::new(),
            jit_compiler: JitCompiler::new(),
            stdlib,
            out: String::new(),
        };
        runtime.add_builtins();
        runtime
    }

    /// A fresh runtime; the configuration is carried for API stability
    /// and does not change the engine's behaviour.
    pub fn with_config(config: crate::LunaConfig) -> (r: Self)
        ensures
            rt_wf(&r),
            runtime_model(&r).frames.len() == 0,
            runtime_model(&r).stack.len() == 0,
            runtime_model(&r).out.len() == 0,
            runtime_model(&r).globals == initial_globals(),
    {
        let _ = config;
        Self::new()
    }

    /// Installs the initial globals.
    fn add_builtins(&mut self)
        requires
            old(self).globals@.len() == 0,
        ensures
            preserved(old(self), final(self)),
            final(self).stack == old(self).stack,
            final(self).call_stack == old(self).call_stack,
            final(self).out == old(self).out,
            runtime_model(final(self)).globals == initial_globals(),
    {
        let mut math_table: Vec<(String, Value)> = Vec::new();
        math_table.push((string_from("abs"), Value::Function(23)));
        math_table.push((string_from("sqrt"), Value::Function(28)));
        math_table.push((string_from("max"), Value::Function(26)));
        math_table.push((string_from("min"), Value::Function(27)));
        let mut string_table: Vec<(String, Value)> = Vec::new();
        string_table.push((string_from("len"), Value::Function(15)));
        string_table.push((string_from("sub"), Value::Function(16)));
        string_table.push((string_from("upper"), Value::Function(17)));
        string_table.push((string_from("lower"), Value::Function(18)));
        string_table.push((string_from("char"), Value::Function(19)));
        string_table.push((string_from("byte"), Value::Function(20)));
        self.globals.push((string_from("print"), Value::Function(0)));
        self.globals.push((string_from("math"), Value::Table(math_table)));
        self.globals.push((string_from("string"), Value::Table(string_table)));
        proof {
            crate::value::lemma_table_model(self.globals@);
            crate::value::lemma_table_model(math_table@);
            crate::value::lemma_table_model(string_table@);
            assert(crate::value::table_model(math_table@) =~= initial_globals()[1].1->Table_0);
            assert(crate::value::table_model(string_table@) =~= initial_globals()[2].1->Table_0);
            assert(runtime_model(self).globals =~= initial_globals());
        }
    }

    /// Runs a compiled chunk to completion on this runtime: the result is
    /// exactly the machine's outcome from the initial state for that
    /// chunk, within the step limit; past the limit, a runtime error
    /// reports the cut-off.  Interpretation is deterministic
    /// (`lemma_run_deterministic`): the machine's outcome from that
    /// initial state is unique.
    #[verifier::rlimit(100)]
    #[verifier::spinoff_prover]
    pub fn run_chunk(&mut self, chunk: &Chunk) -> (r: Result<Value, LuaError>)
        requires
            rt_wf(old(self)),
        ensures
            rt_wf(final(self)),
            ({
                let init = init_state(
                    chunk@.code,
                    runtime_model(old(self)).globals,
                    runtime_model(old(self)).out,
                );
                match r {
                    Ok(v) => exists|n: nat|
                        n <= STEP_LIMIT && #[trigger] run_n(init, n) == StepResult::Done(
                            runtime_model(final(self)),
                            v@,
                        ),
                    Err(e) => (exists|n: nat|
                        n <= STEP_LIMIT && #[trigger] run_n(init, n) == StepResult::Fail(
                            runtime_model(final(self)),
                            e@,
                        )) || (run_n(init, STEP_LIMIT as nat) == StepResult::Next(
                        runtime_model(final(self)),
                    ) && e@ == ErrModel::RuntimeError {
                        message: "execution step limit exceeded"@,
                        line: None,
                    }),
                }
            }),
    {
        self.call_stack.truncate(0);
        self.stack.truncate(0);
        let frame = CallFrame { chunk: clone_chunk(chunk), pc: 0, locals: Vec::new() };
        self.call_stack.push(frame);
        let ghost init = init_state(
            chunk@.code,
            runtime_model(old(self)).globals,
            runtime_model(old(self)).out,
        );
        proof {
            assert(self.call_stack@.len() == 1);
            assert(frame_model(self.call_stack@[0]) =~= (FrameModel {
                code: chunk@.code,
                pc: 0,
                locals: Seq::empty(),
            }));
            assert(runtime_model(self).frames =~= init.frames);
            assert(runtime_model(self).stack =~= init.stack);
            assert(runtime_model(self) =~= init);
        }
        let mut steps: u64 = 0;
        while steps < STEP_LIMIT
            invariant
                rt_wf(self),
                steps <= STEP_LIMIT,
                init == init_state(
                    chunk@.code,
                    runtime_model(old(self)).globals,
                    runtime_model(old(self)).out,
                ),
                run_n(init, steps as nat) == StepResult::Next(runtime_model(self)),
            decreases STEP_LIMIT - steps,
        {
            // Consult the JIT at the instruction boundary: record this
            // program counter and compile its region once it is hot.
            let fcount = self.call_stack.len();
            if fcount > 0 {
                let pc = self.call_stack[fcount - 1].pc;
                if pc < self.call_stack[fcount - 1].chunk.instructions.len() {
                    self.jit_compiler.record_execution(pc);
                    let already = self.jit_compiler.get_compiled_code(pc).is_some();
                    if self.jit_compiler.should_compile(pc) && !already {
                        let _ = self.jit_compiler.compile_hot_spot(
                            &self.call_stack[fcount - 1].chunk,
                            pc,
                        );
                    }
                }
            }
            let ghost before = runtime_model(self);
            match self.step_exec() {
                StepOutcome::KeepGoing => {
                    proof {
                        assert(run_n(init, steps as nat + 1) == StepResult::Next(
                            runtime_model(self),
                        ));
                    }
                    steps = steps + 1;
                },
                StepOutcome::Finished(v) => {
                    proof {
                        assert(run_n(init, steps as nat + 1) == StepResult::Done(
                            runtime_model(self),
                            v@,
                        ));
                        assert(steps as nat + 1 <= STEP_LIMIT);
                    }
                    return Ok(v);
                },
                StepOutcome::Failed(e) => {
                    proof {
                        assert(run_n(init, steps as nat + 1) == StepResult::Fail(
                            runtime_model(self),
                            e@,
                        ));
                        assert(steps as nat + 1 <= STEP_LIMIT);
                    }
                    return Err(e);
                },
            }
        }
        Err(LuaError::runtime_error("execution step limit exceeded"))
    }

    /// Lowers a parsed program and runs it on this runtime, flushing any
    /// output it printed.  The contract is exact in the program: on a
    /// supported program the result is the machine's unique outcome,
    /// within the step limit, for `lower_program(program)` run from this
    /// runtime's globals (`lemma_run_deterministic`), and on an
    /// unsupported construct the lowering compiler's error comes back
    /// with the globals untouched.
    pub fn run_program(&mut self, program: &Program) -> (r: Result<Value, LuaError>)
        requires
            rt_wf(old(self)),
        ensures
            rt_wf(final(self)),
            runtime_model(final(self)).out.len() == 0,
            ({
                let init = init_state(
                    crate::bytecode::lower_program(program),
                    runtime_model(old(self)).globals,
                    runtime_model(old(self)).out,
                );
                match r {
                    Ok(v) => crate::ast::program_supported(program) && exists|n: nat|
                        n <= STEP_LIMIT && ((#[trigger] run_n(init, n)) matches StepResult::Done(
                            st,
                            m,
                        ) && m == v@ && st.globals == runtime_model(final(self)).globals),
                    Err(e) => {
                        ||| {
                            &&& crate::ast::program_supported(program)
                            &&& exists|n: nat|
                                n <= STEP_LIMIT && ((#[trigger] run_n(init, n)) matches
                                    StepResult::Fail(st, em) && em == e@ && st.globals
                                    == runtime_model(final(self)).globals)
                        }
                        ||| {
                            &&& crate::ast::program_supported(program)
                            &&& run_n(init, STEP_LIMIT as nat) is Next
                            &&& e@ == (ErrModel::RuntimeError {
                                message: "execution step limit exceeded"@,
                                line: None,
                            })
                        }
                        ||| {
                            &&& !crate::ast::program_supported(program)
                            &&& runtime_model(final(self)).globals == runtime_model(
                                old(self),
                            ).globals
                            &&& (e@ matches ErrModel::RuntimeError { message, line } && line
                                is None && (message == "Statement not implemented"@ || message
                                == "Expression not implemented"@))
                        }
                    },
                }
            }),
    {
        let mut compiler = Compiler::new();
        let chunk = match compiler.compile(program) {
            Ok(c) => c,
            Err(msg) => {
                self.flush_output();
                return Err(LuaError::runtime_error(msg.as_str()));
            },
        };
        let ghost init = init_state(
            chunk@.code,
            runtime_model(old(self)).globals,
            runtime_model(old(self)).out,
        );
        proof {
            assert(chunk@.code == crate::bytecode::lower_program(program));
        }
        let result = self.run_chunk(&chunk);
        let ghost mid = runtime_model(self);
        self.flush_output();
        proof {
            assert(runtime_model(self).globals == mid.globals);
            match &result {
                Ok(v) => {
                    let n0 = choose|n: nat|
                        n <= STEP_LIMIT && #[trigger] run_n(init, n) == StepResult::Done(mid, v@);
                    assert(run_n(init, n0) matches StepResult::Done(st, m) && m == v@ && st.globals
                        == runtime_model(self).globals);
                },
                Err(e) => {
                    if !(e@ matches ErrModel::RuntimeError { message, line } && line is None
                        && message == "execution step limit exceeded"@) {
                        let n0 = choose|n: nat|
                            n <= STEP_LIMIT && #[trigger] run_n(init, n) == StepResult::Fail(
                                mid,
                                e@,
                            );
                        assert(run_n(init, n0) matches StepResult::Fail(st, em) && em == e@
                            && st.globals == runtime_model(self).globals);
                    }
                },
            }
        }
        result
    }

    /// Lexes, parses, lowers and runs source text in one call, flushing
    /// any output the program printed.  Each failing stage reports its
    /// own error: the exact lexical error of `lex_spec`, a parse error,
    /// an unimplemented-construct error from the lowering compiler, or
    /// the machine's structured runtime error.  On success the result is
    /// the machine's outcome, within the step limit, for the lowering of
    /// the parsed program run from this runtime's globals; since that
    /// outcome is unique (`lemma_run_deterministic`), the result depends
    /// only on the parsed program and the globals — [`Self::run_program`]
    /// states that exactly, with the program as its argument.  Lexing is
    /// pinned by `lex_spec`; the parser carries no functional contract,
    /// so past it this contract is existential in the parsed program.
    /// Globals persist across calls on the same runtime; a failed call
    /// leaves them as they were at the point of failure.
    pub fn execute(&mut self, code: &str) -> (r: Result<Value, LuaError>)
        requires
            rt_wf(old(self)),
        ensures
            rt_wf(final(self)),
            runtime_model(final(self)).out.len() == 0,
            match r {
                Ok(v) => lex_spec(code@) is Ok && exists|p: Program, n: nat|
                    {
                        &&& crate::ast::program_supported(&p)
                        &&& n <= STEP_LIMIT
                        &&& (#[trigger] run_n(
                            init_state(
                                crate::bytecode::lower_program(&p),
                                runtime_model(old(self)).globals,
                                runtime_model(old(self)).out,
                            ),
                            n,
                        )) matches StepResult::Done(st, m) && m == v@ && st.globals
                            == runtime_model(final(self)).globals
                    },
                Err(e) => {
                    ||| (lex_spec(code@) matches Err(el) && e@ == el)
                    ||| (lex_spec(code@) is Ok && e@ is ParseError)
                    ||| (lex_spec(code@) is Ok && (e@ matches ErrModel::RuntimeError {
                        message,
                        line,
                    } && line is None && (message == "Statement not implemented"@ || message
                        == "Expression not implemented"@ || message
                        == "execution step limit exceeded"@)))
                    ||| (lex_spec(code@) is Ok && exists|p: Program, n: nat|
                        {
                            &&& crate::ast::program_supported(&p)
                            &&& n <= STEP_LIMIT
                            &&& (#[trigger] run_n(
                                init_state(
                                    crate::bytecode::lower_program(&p),
                                    runtime_model(old(self)).globals,
                                    runtime_model(old(self)).out,
                                ),
                                n,
                            )) matches StepResult::Fail(st, em) && em == e@ && st.globals
                                == runtime_model(final(self)).globals
                        })
                },
            },
    {
        let mut lexer = Lexer::new(code);
        proof {
            assert(lex_spec(code@) == lex_spec_from(
                code@,
                LexCursor { pos: 0, line: 1, col: 1 },
            ));
        }
        let tokens = match lexer.tokenize() {
            Ok(t) => t,
            Err(e) => {
                self.flush_output();
                return Err(e);
            },
        };
        let mut parser = Parser::new(tokens);
        let program = match parser.parse() {
            Ok(p) => p,
            Err(e) => {
                self.flush_output();
                return Err(e);
            },
        };
        let result = self.run_program(&program);
        proof {
            let init = init_state(
                crate::bytecode::lower_program(&program),
                runtime_model(old(self)).globals,
                runtime_model(old(self)).out,
            );
            match &result {
                Ok(v) => {
                    let n0 = choose|n: nat|
                        n <= STEP_LIMIT && ((#[trigger] run_n(init, n)) matches StepResult::Done(
                            st,
                            m,
                        ) && m == v@ && st.globals == runtime_model(self).globals);
                    assert(run_n(init, n0) matches StepResult::Done(st, m) && m == v@ && st.globals
                        == runtime_model(self).globals);
                },
                Err(e) => {
                    if crate::ast::program_supported(&program) && exists|n: nat|
                        n <= STEP_LIMIT && ((#[trigger] run_n(init, n)) matches StepResult::Fail(
                            st,
                            em,
                        ) && em == e@ && st.globals == runtime_model(self).globals) {
                        let n0 = choose|n: nat|
                            n <= STEP_LIMIT && ((#[trigger] run_n(init, n)) matches
                                StepResult::Fail(st, em) && em == e@ && st.globals
                                == runtime_model(self).globals);
                        assert(run_n(init, n0) matches StepResult::Fail(st, em) && em == e@
                            && st.globals == runtime_model(self).globals);
                    }
                },
            }
        }
        result
    }

    /// Hands the accumulated output to standard output and clears it.
    fn flush_output(&mut self)
        ensures
            rt_wf(old(self)) ==> rt_wf(final(self)),
            runtime_model(final(self)) == (MachineState {
                out: Seq::empty(),
                ..runtime_model(old(self))
            }),
    {
        write_stdout(self.out.as_str());
        self.out = String::new();
        proof {
            assert(runtime_model(self) =~= (MachineState {
                out: Seq::empty(),
                ..runtime_model(old(self))
            }));
        }
    }

    /// Writes the JIT statistics dump to standard output.
    pub fn print_stats(&self) {
        self.jit_compiler.print_stats();
    }
}

/// The runtime's JIT profiler (read-only view for stating contracts).
pub closed spec fn jit_of(rt: &LuaJitRuntime) -> JitCompiler {
    rt.jit_compiler
}

/// Unary negation on a runtime value.
fn neg_exec(a: &Value) -> (r: Result<Value, LuaError>)
    ensures
        ({
            let spec_r = neg_spec(a@);
            match r {
                Ok(v) => spec_r is Ok && v@ == spec_r->Ok_0,
                Err(e) => spec_r is Err && e@ == spec_r->Err_0,
            }
        }),
{
    match a.to_number() {
        Some(n) => {
            if n == i64::MIN {
                Err(LuaError::arithmetic_error("overflow", "negation"))
            } else {
                Ok(Value::Number(-n))
            }
        },
        None => Err(LuaError::type_error("number or string", a.kind_name(), "negation")),
    }
}

/// The type error for non-numeric operands of a numeric operator.
fn invalid_operands(op: &NumOp, a: &Value, b: &Value) -> (e: LuaError)
    ensures
        e@ == (ErrModel::TypeError {
            expected: "number or string"@,
            found: kind_name_spec(a@) + " and "@ + kind_name_spec(b@),
            operation: num_op_name(*op),
        }),
{
    let mut found = string_from(a.kind_name());
    push_str_slice(&mut found, " and ");
    push_str_slice(&mut found, b.kind_name());
    let name = match op {
        NumOp::Add => "addition",
        NumOp::Sub => "subtraction",
        NumOp::Mul => "multiplication",
        NumOp::Div => "division",
        NumOp::Mod => "modulo",
        NumOp::Pow => "power",
        _ => "comparison",
    };
    LuaError::type_error("number or string", found.as_str(), name)
}

} // verus!


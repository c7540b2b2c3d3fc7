//! The bytecode representation and the lowering compiler: a flat
//! instruction sequence with a constant pool and a parallel source-line
//! table, built in one pass over the AST with placeholder jumps that are
//! patched once their targets are known.

use vstd::prelude::*;
use crate::ast::{
    BinaryOp, Expr, Program, Stmt, UnaryOp, expr_supported, exprs_supported, program_supported,
    stmt_supported, stmts_supported, lemma_exprs_supported_pointwise,
    lemma_stmts_supported_pointwise,
};
use crate::value::{Value, ValueModel, clone_value, clone_string, string_from};
use crate::runtime::{lemma_map_values_push, lemma_map_values_drop_last};

verus! {

broadcast use vstd::std_specs::vec::group_vec_axioms;

/// One bytecode instruction.  Jump targets are absolute instruction
/// indices.
pub enum Instruction {
    LoadConst(Value),
    LoadGlobal(String),
    StoreGlobal(String),
    LoadLocal(usize),
    StoreLocal(usize),
    Add,
    Sub,
    Mul,
    Div,
    Mod,
    Pow,
    Neg,
    Equal,
    NotEqual,
    Less,
    LessEqual,
    Greater,
    GreaterEqual,
    And,
    Or,
    Not,
    Jump(usize),
    JumpIfFalse(usize),
    JumpIfTrue(usize),
    Call(usize),
    Return,
    Pop,
    Dup,
    MakeFunction(usize),
    NewTable,
    GetIndex,
    SetIndex,
    Concat,
    ForPrep(usize),
    ForLoop(usize),
}

/// The mathematical model of an [`Instruction`]: embedded values and
/// names are replaced by their own models.
#[verifier::ext_equal]
pub enum InstrModel {
    LoadConst(ValueModel),
    LoadGlobal(Seq<char>),
    StoreGlobal(Seq<char>),
    LoadLocal(usize),
    StoreLocal(usize),
    Add,
    Sub,
    Mul,
    Div,
    Mod,
    Pow,
    Neg,
    Equal,
    NotEqual,
    Less,
    LessEqual,
    Greater,
    GreaterEqual,
    And,
    Or,
    Not,
    Jump(usize),
    JumpIfFalse(usize),
    JumpIfTrue(usize),
    Call(usize),
    Return,
    Pop,
    Dup,
    MakeFunction(usize),
    NewTable,
    GetIndex,
    SetIndex,
    Concat,
    ForPrep(usize),
    ForLoop(usize),
}

pub open spec fn instr_model(i: Instruction) -> InstrModel {
    match i {
        Instruction::LoadConst(v) => InstrModel::LoadConst(v@),
        Instruction::LoadGlobal(n) => InstrModel::LoadGlobal(n@),
        Instruction::StoreGlobal(n) => InstrModel::StoreGlobal(n@),
        Instruction::LoadLocal(k) => InstrModel::LoadLocal(k),
        Instruction::StoreLocal(k) => InstrModel::StoreLocal(k),
        Instruction::Add => InstrModel::Add,
        Instruction::Sub => InstrModel::Sub,
        Instruction::Mul => InstrModel::Mul,
        Instruction::Div => InstrModel::Div,
        Instruction::Mod => InstrModel::Mod,
        Instruction::Pow => InstrModel::Pow,
        Instruction::Neg => InstrModel::Neg,
        Instruction::Equal => InstrModel::Equal,
        Instruction::NotEqual => InstrModel::NotEqual,
        Instruction::Less => InstrModel::Less,
        Instruction::LessEqual => InstrModel::LessEqual,
        Instruction::Greater => InstrModel::Greater,
        Instruction::GreaterEqual => InstrModel::GreaterEqual,
        Instruction::And => InstrModel::And,
        Instruction::Or => InstrModel::Or,
        Instruction::Not => InstrModel::Not,
        Instruction::Jump(t) => InstrModel::Jump(t),
        Instruction::JumpIfFalse(t) => InstrModel::JumpIfFalse(t),
        Instruction::JumpIfTrue(t) => InstrModel::JumpIfTrue(t),
        Instruction::Call(n) => InstrModel::Call(n),
        Instruction::Return => InstrModel::Return,
        Instruction::Pop => InstrModel::Pop,
        Instruction::Dup => InstrModel::Dup,
        Instruction::MakeFunction(n) => InstrModel::MakeFunction(n),
        Instruction::NewTable => InstrModel::NewTable,
        Instruction::GetIndex => InstrModel::GetIndex,
        Instruction::SetIndex => InstrModel::SetIndex,
        Instruction::Concat => InstrModel::Concat,
        Instruction::ForPrep(t) => InstrModel::ForPrep(t),
        Instruction::ForLoop(t) => InstrModel::ForLoop(t),
    }
}

impl View for Instruction {
    type V = InstrModel;

    open spec fn view(&self) -> InstrModel {
        instr_model(*self)
    }
}

/// Deep copy of an instruction; the copy has the same model.
pub fn clone_instruction(i: &Instruction) -> (r: Instruction)
    ensures
        r@ == i@,
{
    match i {
        Instruction::LoadConst(v) => Instruction::LoadConst(clone_value(v)),
        Instruction::LoadGlobal(n) => Instruction::LoadGlobal(clone_string(n)),
        Instruction::StoreGlobal(n) => Instruction::StoreGlobal(clone_string(n)),
        Instruction::LoadLocal(k) => Instruction::LoadLocal(*k),
        Instruction::StoreLocal(k) => Instruction::StoreLocal(*k),
        Instruction::Add => Instruction::Add,
        Instruction::Sub => Instruction::Sub,
        Instruction::Mul => Instruction::Mul,
        Instruction::Div => Instruction::Div,
        Instruction::Mod => Instruction::Mod,
        Instruction::Pow => Instruction::Pow,
        Instruction::Neg => Instruction::Neg,
        Instruction::Equal => Instruction::Equal,
        Instruction::NotEqual => Instruction::NotEqual,
        Instruction::Less => Instruction::Less,
        Instruction::LessEqual => Instruction::LessEqual,
        Instruction::Greater => Instruction::Greater,
        Instruction::GreaterEqual => Instruction::GreaterEqual,
        Instruction::And => Instruction::And,
        Instruction::Or => Instruction::Or,
        Instruction::Not => Instruction::Not,
        Instruction::Jump(t) => Instruction::Jump(*t),
        Instruction::JumpIfFalse(t) => Instruction::JumpIfFalse(*t),
        Instruction::JumpIfTrue(t) => Instruction::JumpIfTrue(*t),
        Instruction::Call(n) => Instruction::Call(*n),
        Instruction::Return => Instruction::Return,
        Instruction::Pop => Instruction::Pop,
        Instruction::Dup => Instruction::Dup,
        Instruction::MakeFunction(n) => Instruction::MakeFunction(*n),
        Instruction::NewTable => Instruction::NewTable,
        Instruction::GetIndex => Instruction::GetIndex,
        Instruction::SetIndex => Instruction::SetIndex,
        Instruction::Concat => Instruction::Concat,
        Instruction::ForPrep(t) => Instruction::ForPrep(*t),
        Instruction::ForLoop(t) => Instruction::ForLoop(*t),
    }
}

impl Clone for Instruction {
    /// Deep copy; the clone has the same model.
    fn clone(&self) -> (r: Self)
        ensures
            r@ == self@,
    {
        clone_instruction(self)
    }
}

/// Whether this instruction is a jump (the program counter is set by the
/// instruction itself rather than advancing by one).
pub open spec fn is_jump(i: InstrModel) -> bool {
    i is Jump || i is JumpIfFalse || i is JumpIfTrue
}

/// The target of a jump instruction.
pub open spec fn jump_target(i: InstrModel) -> usize
    recommends
        is_jump(i),
{
    match i {
        InstrModel::Jump(t) => t,
        InstrModel::JumpIfFalse(t) => t,
        InstrModel::JumpIfTrue(t) => t,
        _ => 0,
    }
}

/// The same jump with its target replaced.
pub open spec fn retarget(i: InstrModel, t: usize) -> InstrModel
    recommends
        is_jump(i),
{
    match i {
        InstrModel::Jump(_) => InstrModel::Jump(t),
        InstrModel::JumpIfFalse(_) => InstrModel::JumpIfFalse(t),
        InstrModel::JumpIfTrue(_) => InstrModel::JumpIfTrue(t),
        _ => i,
    }
}

/// Every jump in `code` has its target bounded by `b`.
pub open spec fn jumps_bounded(code: Seq<InstrModel>, b: int) -> bool {
    forall|i: int|
        0 <= i < code.len() && is_jump(#[trigger] code[i]) ==> jump_target(code[i]) <= b
}

/// Every jump in `code` targets a valid instruction index.
pub open spec fn jumps_valid(code: Seq<InstrModel>) -> bool {
    forall|i: int|
        0 <= i < code.len() && is_jump(#[trigger] code[i]) ==> jump_target(code[i]) < code.len()
}

/// The model of a [`Chunk`].
#[verifier::ext_equal]
pub struct ChunkModel {
    pub code: Seq<InstrModel>,
    pub consts: Seq<ValueModel>,
    pub lines: Seq<usize>,
}

/// A compiled unit: an instruction sequence, a constant pool, and a
/// parallel table giving each instruction's source line.
pub struct Chunk {
    pub instructions: Vec<Instruction>,
    pub constants: Vec<Value>,
    pub line_numbers: Vec<usize>,
}

impl View for Chunk {
    type V = ChunkModel;

    open spec fn view(&self) -> ChunkModel {
        ChunkModel {
            code: self.instructions@.map_values(|i: Instruction| i@),
            consts: self.constants@.map_values(|v: Value| v@),
            lines: self.line_numbers@,
        }
    }
}

/// The chunk's structural invariant: the line table parallels the
/// instruction sequence.
pub open spec fn chunk_wf(c: ChunkModel) -> bool {
    c.lines.len() == c.code.len()
}

impl Chunk {
    /// A fresh, empty chunk.
    pub fn new() -> (r: Self)
        ensures
            r@.code.len() == 0,
            r@.consts.len() == 0,
            r@.lines.len() == 0,
    {
        Chunk { instructions: Vec::new(), constants: Vec::new(), line_numbers: Vec::new() }
    }

    /// Appends an instruction with its source line and returns its index.
    pub fn emit(&mut self, instruction: Instruction, line: usize) -> (idx: usize)
        ensures
            final(self)@.code == old(self)@.code.push(instruction@),
            final(self)@.lines == old(self)@.lines.push(line),
            final(self)@.consts == old(self)@.consts,
            idx == old(self)@.code.len(),
    {
        let idx = self.instructions.len();
        self.instructions.push(instruction);
        self.line_numbers.push(line);
        proof {
            assert(final(self)@.code =~= old(self)@.code.push(instruction@));
        }
        idx
    }

    /// Appends a constant to the pool (no deduplication) and returns its
    /// fresh slot index.
    pub fn add_constant(&mut self, value: Value) -> (idx: usize)
        ensures
            final(self)@.consts == old(self)@.consts.push(value@),
            final(self)@.code == old(self)@.code,
            final(self)@.lines == old(self)@.lines,
            idx == old(self)@.consts.len(),
    {
        self.constants.push(value);
        proof {
            assert(final(self)@.consts =~= old(self)@.consts.push(value@));
        }
        self.constants.len() - 1
    }

    /// Rewrites the target of the jump at `offset` to the chunk's current
    /// length: "jump to here".  The patched target always lies strictly
    /// beyond the patched instruction, so a patched (exit) jump never
    /// points backward.  Patching a non-jump instruction is a compiler
    /// bug, excluded by precondition rather than handled at runtime.
    pub fn patch_jump(&mut self, offset: usize)
        requires
            offset < old(self)@.code.len(),
            is_jump(old(self)@.code[offset as int]),
        ensures
            final(self)@.code == old(self)@.code.update(
                offset as int,
                retarget(old(self)@.code[offset as int], old(self)@.code.len() as usize),
            ),
            final(self)@.lines == old(self)@.lines,
            final(self)@.consts == old(self)@.consts,
            jump_target(final(self)@.code[offset as int]) == old(self)@.code.len(),
            jump_target(final(self)@.code[offset as int]) > offset,
    {
        let jump_target = self.instructions.len();
        let replacement = match &self.instructions[offset] {
            Instruction::Jump(_) => Instruction::Jump(jump_target),
            Instruction::JumpIfFalse(_) => Instruction::JumpIfFalse(jump_target),
            Instruction::JumpIfTrue(_) => Instruction::JumpIfTrue(jump_target),
            _ => {
                proof {
                    assert(false);
                }
                Instruction::Return
            },
        };
        self.instructions[offset] = replacement;
        proof {
            assert(final(self)@.code =~= old(self)@.code.update(
                offset as int,
                retarget(old(self)@.code[offset as int], old(self)@.code.len() as usize),
            ));
        }
    }
}

/// Deep copy of a chunk; the copy has the same model.
pub fn clone_chunk(c: &Chunk) -> (r: Chunk)
    ensures
        r@ == c@,
{
    let mut instructions: Vec<Instruction> = Vec::new();
    let mut i: usize = 0;
    let n = c.instructions.len();
    while i < n
        invariant
            i <= n,
            n == c.instructions@.len(),
            instructions@.len() == i,
            forall|j: int| 0 <= j < i ==> (#[trigger] instructions@[j])@ == c.instructions@[j]@,
        decreases n - i,
    {
        instructions.push(clone_instruction(&c.instructions[i]));
        i += 1;
    }
    let mut constants: Vec<Value> = Vec::new();
    let mut k: usize = 0;
    let m = c.constants.len();
    while k < m
        invariant
            k <= m,
            m == c.constants@.len(),
            constants@.len() == k,
            forall|j: int| 0 <= j < k ==> (#[trigger] constants@[j])@ == c.constants@[j]@,
        decreases m - k,
    {
        constants.push(clone_value(&c.constants[k]));
        k += 1;
    }
    let mut line_numbers: Vec<usize> = Vec::new();
    let mut t: usize = 0;
    let p = c.line_numbers.len();
    while t < p
        invariant
            t <= p,
            p == c.line_numbers@.len(),
            line_numbers@ == c.line_numbers@.subrange(0, t as int),
        decreases p - t,
    {
        line_numbers.push(c.line_numbers[t]);
        proof {
            assert(line_numbers@ =~= c.line_numbers@.subrange(0, t + 1));
        }
        t += 1;
    }
    let r = Chunk { instructions, constants, line_numbers };
    proof {
        assert(line_numbers@ =~= c.line_numbers@);
        assert(r@.code =~= c@.code);
        assert(r@.consts =~= c@.consts);
        assert(r@ =~= c@);
    }
    r
}

impl Clone for Chunk {
    /// Deep copy; the clone has the same model.
    fn clone(&self) -> (r: Self)
        ensures
            r@ == self@,
    {
        clone_chunk(self)
    }
}

// ---------------------------------------------------------------------------
// The lowering compiler
// ---------------------------------------------------------------------------

/// `b` carries `a` unchanged as a prefix.
pub open spec fn code_extended(a: Seq<InstrModel>, b: Seq<InstrModel>) -> bool {
    a.len() <= b.len() && b.subrange(0, a.len() as int) == a
}

pub proof fn lemma_code_extended_trans(a: Seq<InstrModel>, b: Seq<InstrModel>, c: Seq<InstrModel>)
    requires
        code_extended(a, b),
        code_extended(b, c),
    ensures
        code_extended(a, c),
{
    assert forall|i: int| 0 <= i < a.len() implies c.subrange(0, a.len() as int)[i] == a[i] by {
        assert(b[i] == b.subrange(0, a.len() as int)[i]);
        assert(c[i] == c.subrange(0, b.len() as int)[i]);
    }
    assert(c.subrange(0, a.len() as int) =~= a);
}

pub proof fn lemma_code_extended_index(a: Seq<InstrModel>, b: Seq<InstrModel>, i: int)
    requires
        code_extended(a, b),
        0 <= i < a.len(),
    ensures
        b[i] == a[i],
{
    assert(b.subrange(0, a.len() as int)[i] == b[i]);
}

/// The model of the compiler's local-variable list: the declared names in
/// declaration order.
pub open spec fn locals_model(locals: Seq<String>) -> Seq<Seq<char>> {
    locals.map_values(|s: String| s@)
}

/// Slot resolution: the most recently declared local with this name wins;
/// an unknown name resolves to no slot (and compiles to a global access).
pub open spec fn resolve_spec(locals: Seq<Seq<char>>, name: Seq<char>) -> Option<int>
    decreases locals.len(),
{
    if locals.len() == 0 {
        None
    } else if locals[locals.len() - 1] == name {
        Some(locals.len() - 1)
    } else {
        resolve_spec(locals.subrange(0, locals.len() - 1), name)
    }
}

// ---------------------------------------------------------------------------
// The lowering, as a function
// ---------------------------------------------------------------------------

/// The opcode of each binary operator (a 1:1 map).
pub open spec fn binop_instr(op: BinaryOp) -> InstrModel {
    match op {
        BinaryOp::Add => InstrModel::Add,
        BinaryOp::Sub => InstrModel::Sub,
        BinaryOp::Mul => InstrModel::Mul,
        BinaryOp::Div => InstrModel::Div,
        BinaryOp::Mod => InstrModel::Mod,
        BinaryOp::Pow => InstrModel::Pow,
        BinaryOp::Equal => InstrModel::Equal,
        BinaryOp::NotEqual => InstrModel::NotEqual,
        BinaryOp::Less => InstrModel::Less,
        BinaryOp::LessEqual => InstrModel::LessEqual,
        BinaryOp::Greater => InstrModel::Greater,
        BinaryOp::GreaterEqual => InstrModel::GreaterEqual,
        BinaryOp::And => InstrModel::And,
        BinaryOp::Or => InstrModel::Or,
        BinaryOp::Concat => InstrModel::Concat,
    }
}

/// The opcode of each unary operator.
pub open spec fn unop_instr(op: UnaryOp) -> InstrModel {
    match op {
        UnaryOp::Minus => InstrModel::Neg,
        UnaryOp::Not => InstrModel::Not,
    }
}

/// The code an expression lowers to, in postfix order: operands before
/// their operator, call arguments left to right and then the callee and
/// a `Call` carrying the argument count, names resolved against the
/// declared locals (innermost declaration first) or read as globals.
/// Expressions declare no locals and emit no jumps.
pub open spec fn lower_expr(e: Expr, locals: Seq<Seq<char>>) -> Seq<InstrModel>
    decreases e,
{
    match e {
        Expr::Literal(v) => seq![InstrModel::LoadConst(v@)],
        Expr::Identifier(name) => match resolve_spec(locals, name@) {
            Some(i) => seq![InstrModel::LoadLocal(i as usize)],
            None => seq![InstrModel::LoadGlobal(name@)],
        },
        Expr::Binary { left, operator, right } => lower_expr(*left, locals) + lower_expr(
            *right,
            locals,
        ) + seq![binop_instr(operator)],
        Expr::Unary { operator, operand } => lower_expr(*operand, locals) + seq![
            unop_instr(operator),
        ],
        Expr::Call { callee, args } => lower_exprs(args@, locals) + lower_expr(*callee, locals)
            + seq![InstrModel::Call(args@.len() as usize)],
        Expr::Index { .. } => Seq::empty(),
        Expr::FieldAccess { object, field } => lower_expr(*object, locals) + seq![
            InstrModel::LoadConst(ValueModel::Str(field@)),
            InstrModel::GetIndex,
        ],
    }
}

pub open spec fn lower_exprs(s: Seq<Expr>, locals: Seq<Seq<char>>) -> Seq<InstrModel>
    decreases s,
{
    if s.len() == 0 {
        Seq::empty()
    } else {
        lower_expr(s[0], locals) + lower_exprs(s.subrange(1, s.len() as int), locals)
    }
}

pub proof fn lemma_lower_exprs_snoc(s: Seq<Expr>, locals: Seq<Seq<char>>, k: int)
    requires
        0 <= k < s.len(),
    ensures
        lower_exprs(s.subrange(0, k + 1), locals) == lower_exprs(s.subrange(0, k), locals)
            + lower_expr(s[k], locals),
    decreases k,
{
    let p = s.subrange(0, k + 1);
    if k == 0 {
        assert(p[0] == s[0]);
        assert(p.subrange(1, p.len() as int) =~= Seq::<Expr>::empty());
        assert(s.subrange(0, 0) =~= Seq::<Expr>::empty());
        assert(lower_exprs(Seq::<Expr>::empty(), locals) == Seq::<InstrModel>::empty());
        assert(lower_exprs(p, locals) == lower_expr(p[0], locals) + lower_exprs(
            p.subrange(1, p.len() as int),
            locals,
        ));
        assert(lower_exprs(p, locals) =~= lower_expr(s[0], locals));
    } else {
        let t = s.subrange(1, s.len() as int);
        lemma_lower_exprs_snoc(t, locals, k - 1);
        assert(p[0] == s[0]);
        assert(p.subrange(1, p.len() as int) =~= t.subrange(0, k));
        assert(s.subrange(0, k).subrange(1, k) =~= t.subrange(0, k - 1));
        assert(t[k - 1] == s[k]);
        assert(lower_exprs(s.subrange(0, k + 1), locals) =~= lower_exprs(s.subrange(0, k), locals)
            + lower_expr(s[k], locals));
    }
}

/// The store instructions that declare a run of local names (last name
/// first, as declaration pops the last stacked value first): each
/// declaration takes the next fresh slot.  Yields the code and the
/// extended locals.
pub open spec fn lower_local_stores(names: Seq<Seq<char>>, locals: Seq<Seq<char>>) -> (
    Seq<InstrModel>,
    Seq<Seq<char>>,
)
    decreases names.len(),
{
    if names.len() == 0 {
        (Seq::empty(), locals)
    } else {
        let rest = lower_local_stores(names.drop_last(), locals.push(names.last()));
        (seq![InstrModel::StoreLocal(locals.len() as usize)] + rest.0, rest.1)
    }
}

/// The code one statement lowers to, starting at absolute instruction
/// index `base`, and the locals left declared afterwards.  Control flow
/// uses the emit-placeholder, backpatch-later protocol, so every target
/// here is the patched (final) one: `if` has an else-skip and an
/// end-skip; `while` re-tests its condition via an unconditional jump
/// back to `base`; a numeric `for` desugars into three hidden locals
/// (variable, end bound, step defaulting to one), an inclusive
/// less-or-equal guard, and a post-body increment followed by a jump
/// back to the guard.
pub open spec fn lower_stmt(s: Stmt, locals: Seq<Seq<char>>, base: int) -> (
    Seq<InstrModel>,
    Seq<Seq<char>>,
)
    decreases s,
{
    match s {
        Stmt::Expression(e) => (lower_expr(e, locals) + seq![InstrModel::Pop], locals),
        Stmt::Assignment { target, value } => {
            let store = match resolve_spec(locals, target@) {
                Some(i) => InstrModel::StoreLocal(i as usize),
                None => InstrModel::StoreGlobal(target@),
            };
            (lower_expr(value, locals) + seq![store], locals)
        },
        Stmt::LocalAssignment { names, values } => {
            let vcode = lower_exprs(values@, locals);
            let pad: Seq<InstrModel> = if values@.len() < names@.len() {
                Seq::new(
                    (names@.len() - values@.len()) as nat,
                    |q: int| InstrModel::LoadConst(ValueModel::Nil),
                )
            } else {
                Seq::empty()
            };
            let stores = lower_local_stores(names@.map_values(|n: String| n@), locals);
            (vcode + pad + stores.0, stores.1)
        },
        Stmt::If { condition, then_branch, else_branch } => {
            let c = lower_expr(condition, locals);
            let t = lower_stmts(then_branch@, locals, base + c.len() + 1);
            match else_branch {
                Some(es) => {
                    let e = lower_stmts(es@, t.1, base + c.len() + 1 + t.0.len() + 1);
                    (
                        c + seq![
                            InstrModel::JumpIfFalse((base + c.len() + 1 + t.0.len() + 1) as usize),
                        ] + t.0 + seq![
                            InstrModel::Jump(
                                (base + c.len() + 1 + t.0.len() + 1 + e.0.len()) as usize,
                            ),
                        ] + e.0,
                        e.1,
                    )
                },
                None => (
                    c + seq![
                        InstrModel::JumpIfFalse((base + c.len() + 1 + t.0.len() + 1) as usize),
                    ] + t.0 + seq![
                        InstrModel::Jump((base + c.len() + 1 + t.0.len() + 1) as usize),
                    ],
                    t.1,
                ),
            }
        },
        Stmt::While { condition, body } => {
            let c = lower_expr(condition, locals);
            let b = lower_stmts(body@, locals, base + c.len() + 1);
            (
                c + seq![
                    InstrModel::JumpIfFalse((base + c.len() + 1 + b.0.len() + 1) as usize),
                ] + b.0 + seq![InstrModel::Jump(base as usize)],
                b.1,
            )
        },
        Stmt::For { var, start, end, step, body } => {
            let s1 = lower_expr(start, locals);
            let var_index = locals.len() as usize;
            let l1 = locals.push(var@);
            let s2 = lower_expr(end, l1);
            let end_index = l1.len() as usize;
            let l2 = l1.push(var@ + "_end"@);
            let s3: Seq<InstrModel> = match step {
                Some(se) => lower_expr(se, l2),
                None => seq![InstrModel::LoadConst(ValueModel::Number(1))],
            };
            let step_index = l2.len() as usize;
            let l3 = l2.push(var@ + "_step"@);
            let head = base + s1.len() + 1 + s2.len() + 1 + s3.len() + 1;
            let b = lower_stmts(body@, l3, head + 4);
            let exit = head + 4 + b.0.len() + 5;
            (
                s1 + seq![InstrModel::StoreLocal(var_index)] + s2 + seq![
                    InstrModel::StoreLocal(end_index),
                ] + s3 + seq![
                    InstrModel::StoreLocal(step_index),
                    InstrModel::LoadLocal(var_index),
                    InstrModel::LoadLocal(end_index),
                    InstrModel::LessEqual,
                    InstrModel::JumpIfFalse(exit as usize),
                ] + b.0 + seq![
                    InstrModel::LoadLocal(var_index),
                    InstrModel::LoadLocal(step_index),
                    InstrModel::Add,
                    InstrModel::StoreLocal(var_index),
                    InstrModel::Jump(head as usize),
                ],
                b.1,
            )
        },
        Stmt::Return(value) => {
            let vcode: Seq<InstrModel> = match value {
                Some(e) => lower_expr(e, locals),
                None => seq![InstrModel::LoadConst(ValueModel::Nil)],
            };
            (vcode + seq![InstrModel::Return], locals)
        },
        _ => (Seq::empty(), locals),
    }
}

/// A statement sequence lowers to the concatenation of its statements'
/// code, each starting where the previous one ended, threading the
/// declared locals through.
pub open spec fn lower_stmts(ss: Seq<Stmt>, locals: Seq<Seq<char>>, base: int) -> (
    Seq<InstrModel>,
    Seq<Seq<char>>,
)
    decreases ss,
{
    if ss.len() == 0 {
        (Seq::empty(), locals)
    } else {
        let first = lower_stmt(ss[0], locals, base);
        let rest = lower_stmts(ss.subrange(1, ss.len() as int), first.1, base + first.0.len());
        (first.0 + rest.0, rest.1)
    }
}

/// The whole chunk a program lowers to: its statements from index zero
/// with no locals, then the implicit `return nil` terminator pair.
pub open spec fn lower_program(p: &Program) -> Seq<InstrModel> {
    lower_stmts(p.statements@, Seq::empty(), 0).0 + seq![
        InstrModel::LoadConst(ValueModel::Nil),
        InstrModel::Return,
    ]
}

/// No instruction in `code` is a jump.
pub open spec fn no_jumps(code: Seq<InstrModel>) -> bool {
    forall|i: int| 0 <= i < code.len() ==> !is_jump(#[trigger] code[i])
}

pub proof fn lemma_no_jumps_concat(a: Seq<InstrModel>, b: Seq<InstrModel>)
    requires
        no_jumps(a),
        no_jumps(b),
    ensures
        no_jumps(a + b),
{
    assert forall|i: int| 0 <= i < (a + b).len() implies !is_jump(#[trigger] (a + b)[i]) by {
        if i < a.len() {
            assert((a + b)[i] == a[i]);
        } else {
            assert((a + b)[i] == b[i - a.len()]);
        }
    }
}

/// Expressions lower to straight-line code: no jumps at all.
pub proof fn lemma_lower_expr_no_jumps(e: Expr, locals: Seq<Seq<char>>)
    ensures
        no_jumps(lower_expr(e, locals)),
    decreases e,
{
    match e {
        Expr::Binary { left, operator, right } => {
            lemma_lower_expr_no_jumps(*left, locals);
            lemma_lower_expr_no_jumps(*right, locals);
            lemma_no_jumps_concat(lower_expr(*left, locals), lower_expr(*right, locals));
            lemma_no_jumps_concat(
                lower_expr(*left, locals) + lower_expr(*right, locals),
                seq![binop_instr(operator)],
            );
        },
        Expr::Unary { operator, operand } => {
            lemma_lower_expr_no_jumps(*operand, locals);
            lemma_no_jumps_concat(lower_expr(*operand, locals), seq![unop_instr(operator)]);
        },
        Expr::Call { callee, args } => {
            lemma_lower_exprs_no_jumps(args@, locals);
            lemma_lower_expr_no_jumps(*callee, locals);
            lemma_no_jumps_concat(lower_exprs(args@, locals), lower_expr(*callee, locals));
            lemma_no_jumps_concat(
                lower_exprs(args@, locals) + lower_expr(*callee, locals),
                seq![InstrModel::Call(args@.len() as usize)],
            );
        },
        Expr::FieldAccess { object, field } => {
            lemma_lower_expr_no_jumps(*object, locals);
            lemma_no_jumps_concat(
                lower_expr(*object, locals),
                seq![InstrModel::LoadConst(ValueModel::Str(field@)), InstrModel::GetIndex],
            );
        },
        _ => {},
    }
}

pub proof fn lemma_lower_exprs_no_jumps(s: Seq<Expr>, locals: Seq<Seq<char>>)
    ensures
        no_jumps(lower_exprs(s, locals)),
    decreases s,
{
    if s.len() > 0 {
        lemma_lower_expr_no_jumps(s[0], locals);
        lemma_lower_exprs_no_jumps(s.subrange(1, s.len() as int), locals);
        lemma_no_jumps_concat(
            lower_expr(s[0], locals),
            lower_exprs(s.subrange(1, s.len() as int), locals),
        );
    }
}

proof fn lemma_lower_local_stores_no_jumps(names: Seq<Seq<char>>, locals: Seq<Seq<char>>)
    ensures
        no_jumps(lower_local_stores(names, locals).0),
    decreases names.len(),
{
    if names.len() > 0 {
        lemma_lower_local_stores_no_jumps(names.drop_last(), locals.push(names.last()));
        lemma_no_jumps_concat(
            seq![InstrModel::StoreLocal(locals.len() as usize)],
            lower_local_stores(names.drop_last(), locals.push(names.last())).0,
        );
    }
}

/// The direction invariant for exit jumps: in lowered code, every
/// conditional jump — each created by patching an if/while/for exit —
/// points strictly forward, past its own index.
pub proof fn lemma_lower_stmt_cond_jumps_forward(s: Stmt, locals: Seq<Seq<char>>, base: int)
    requires
        0 <= base,
        base + lower_stmt(s, locals, base).0.len() <= usize::MAX,
    ensures
        forall|i: int|
            0 <= i < lower_stmt(s, locals, base).0.len() && (#[trigger] lower_stmt(
                s,
                locals,
                base,
            ).0[i] is JumpIfFalse || lower_stmt(s, locals, base).0[i] is JumpIfTrue)
                ==> jump_target(lower_stmt(s, locals, base).0[i]) as int > base + i,
    decreases s,
{
    let code = lower_stmt(s, locals, base).0;
    match s {
        Stmt::Expression(e) => {
            lemma_lower_expr_no_jumps(e, locals);
        },
        Stmt::Assignment { target, value } => {
            lemma_lower_expr_no_jumps(value, locals);
        },
        Stmt::LocalAssignment { names, values } => {
            lemma_lower_exprs_no_jumps(values@, locals);
            lemma_lower_local_stores_no_jumps(names@.map_values(|n: String| n@), locals);
        },
        Stmt::If { condition, then_branch, else_branch } => {
            let c = lower_expr(condition, locals);
            let t = lower_stmts(then_branch@, locals, base + c.len() + 1);
            lemma_lower_expr_no_jumps(condition, locals);
            lemma_lower_stmts_cond_jumps_forward(then_branch@, locals, base + c.len() + 1);
            match else_branch {
                Some(es) => {
                    lemma_lower_stmts_cond_jumps_forward(
                        es@,
                        t.1,
                        base + c.len() + 1 + t.0.len() + 1,
                    );
                },
                None => {},
            }
        },
        Stmt::While { condition, body } => {
            let c = lower_expr(condition, locals);
            lemma_lower_expr_no_jumps(condition, locals);
            lemma_lower_stmts_cond_jumps_forward(body@, locals, base + c.len() + 1);
        },
        Stmt::For { var, start, end, step, body } => {
            let s1 = lower_expr(start, locals);
            let l1 = locals.push(var@);
            let s2 = lower_expr(end, l1);
            let l2 = l1.push(var@ + "_end"@);
            let l3 = l2.push(var@ + "_step"@);
            lemma_lower_expr_no_jumps(start, locals);
            lemma_lower_expr_no_jumps(end, l1);
            match step {
                Some(se) => {
                    lemma_lower_expr_no_jumps(se, l2);
                },
                None => {},
            }
            let s3: Seq<InstrModel> = match step {
                Some(se) => lower_expr(se, l2),
                None => seq![InstrModel::LoadConst(ValueModel::Number(1))],
            };
            let head = base + s1.len() + 1 + s2.len() + 1 + s3.len() + 1;
            lemma_lower_stmts_cond_jumps_forward(body@, l3, head + 4);
        },
        Stmt::Return(value) => {
            match value {
                Some(e) => {
                    lemma_lower_expr_no_jumps(e, locals);
                },
                None => {},
            }
        },
        _ => {},
    }
}

pub proof fn lemma_lower_stmts_cond_jumps_forward(ss: Seq<Stmt>, locals: Seq<Seq<char>>, base: int)
    requires
        0 <= base,
        base + lower_stmts(ss, locals, base).0.len() <= usize::MAX,
    ensures
        forall|i: int|
            0 <= i < lower_stmts(ss, locals, base).0.len() && (#[trigger] lower_stmts(
                ss,
                locals,
                base,
            ).0[i] is JumpIfFalse || lower_stmts(ss, locals, base).0[i] is JumpIfTrue)
                ==> jump_target(lower_stmts(ss, locals, base).0[i]) as int > base + i,
    decreases ss,
{
    if ss.len() > 0 {
        let first = lower_stmt(ss[0], locals, base);
        lemma_lower_stmt_cond_jumps_forward(ss[0], locals, base);
        lemma_lower_stmts_cond_jumps_forward(
            ss.subrange(1, ss.len() as int),
            first.1,
            base + first.0.len(),
        );
    }
}

/// The direction invariant for loop-back jumps: the code a `while` or a
/// numeric `for` lowers to ends with its unconditional loop-back jump,
/// whose target never lies beyond the jump's own index — a loop-back
/// jump never points forward.
pub proof fn lemma_lower_loop_back(s: Stmt, locals: Seq<Seq<char>>, base: int)
    requires
        s is While || s is For,
        0 <= base,
        base + lower_stmt(s, locals, base).0.len() <= usize::MAX,
    ensures
        lower_stmt(s, locals, base).0.len() > 0,
        lower_stmt(s, locals, base).0.last() is Jump,
        jump_target(lower_stmt(s, locals, base).0.last()) as int <= base + lower_stmt(
            s,
            locals,
            base,
        ).0.len() - 1,
{
}

/// The whole-program form of the exit-jump direction invariant.
pub proof fn lemma_lower_program_cond_jumps_forward(p: &Program)
    requires
        lower_program(p).len() <= usize::MAX,
    ensures
        forall|i: int|
            0 <= i < lower_program(p).len() && (#[trigger] lower_program(p)[i] is JumpIfFalse
                || lower_program(p)[i] is JumpIfTrue) ==> jump_target(lower_program(p)[i]) as int
                > i,
{
    lemma_lower_stmts_cond_jumps_forward(p.statements@, Seq::empty(), 0);
}

/// The compiler's invariant: the chunk's line table parallels its code,
/// and every jump already emitted targets an index no further than the
/// chunk's current end.
pub closed spec fn compiler_wf(c: &Compiler) -> bool {
    chunk_wf(c.chunk@) && jumps_bounded(c.chunk@.code, c.chunk@.code.len() as int)
}

/// A compiler that has not lowered anything yet: no code, no locals.
pub closed spec fn compiler_fresh(c: &Compiler) -> bool {
    c.chunk@.code.len() == 0 && c.locals@.len() == 0
}

/// The one-pass lowering compiler: AST in, chunk out.
pub struct Compiler {
    chunk: Chunk,
    scope_depth: usize,
    locals: Vec<String>,
}

impl Compiler {
    pub fn new() -> (r: Self)
        ensures
            compiler_wf(&r),
            compiler_fresh(&r),
    {
        Compiler { chunk: Chunk::new(), scope_depth: 0, locals: Vec::new() }
    }

    /// Emits a placeholder jump (target `0`) and returns its index for a
    /// later patch.
    fn emit_jump(&mut self, instruction: Instruction) -> (idx: usize)
        requires
            compiler_wf(old(self)),
            is_jump(instruction@),
            jump_target(instruction@) == 0,
        ensures
            compiler_wf(final(self)),
            final(self).chunk@.code == old(self).chunk@.code.push(instruction@),
            final(self).chunk@.consts == old(self).chunk@.consts,
            final(self).locals == old(self).locals,
            idx == old(self).chunk@.code.len(),
            code_extended(old(self).chunk@.code, final(self).chunk@.code),
            final(self).chunk@.code[idx as int] == instruction@,
    {
        let ghost c0 = self.chunk@.code;
        let idx = self.chunk.emit(instruction, 0);
        proof {
            assert(c0.push(instruction@).subrange(0, c0.len() as int) =~= c0);
        }
        idx
    }

    /// Patches the placeholder at `offset` to jump to the current end of
    /// the chunk.
    fn patch_jump(&mut self, offset: usize)
        requires
            compiler_wf(old(self)),
            offset < old(self).chunk@.code.len(),
            is_jump(old(self).chunk@.code[offset as int]),
        ensures
            compiler_wf(final(self)),
            final(self).chunk@.code == old(self).chunk@.code.update(
                offset as int,
                retarget(
                    old(self).chunk@.code[offset as int],
                    old(self).chunk@.code.len() as usize,
                ),
            ),
            final(self).chunk@.consts == old(self).chunk@.consts,
            final(self).locals == old(self).locals,
            final(self).chunk@.code.len() == old(self).chunk@.code.len(),
    {
        self.chunk.patch_jump(offset);
    }

    /// Declares a new local slot holding `name`.
    fn add_local(&mut self, name: String)
        ensures
            final(self).locals@ == old(self).locals@.push(name),
            final(self).chunk == old(self).chunk,
    {
        self.locals.push(name);
    }

    /// Resolves a name against the declared locals, most recent
    /// declaration first; yields the slot index or nothing.
    fn resolve_local(&self, name: &str) -> (r: Option<usize>)
        ensures
            match r {
                Some(i) => resolve_spec(locals_model(self.locals@), name@) == Some(i as int),
                None => resolve_spec(locals_model(self.locals@), name@) is None,
            },
    {
        let needle = string_from(name);
        let ghost m = locals_model(self.locals@);
        proof {
            assert(m.subrange(0, m.len() as int) =~= m);
        }
        let mut i: usize = self.locals.len();
        while i > 0
            invariant
                i <= self.locals@.len(),
                m == locals_model(self.locals@),
                needle@ == name@,
                resolve_spec(m, name@) == resolve_spec(m.subrange(0, i as int), name@),
            decreases i,
        {
            if self.locals[i - 1].eq(&needle) {
                proof {
                    let p = m.subrange(0, i as int);
                    assert(p[p.len() - 1] == m[i - 1]);
                    assert(m[i - 1] == self.locals@[i - 1]@);
                }
                return Some(i - 1);
            }
            proof {
                let p = m.subrange(0, i as int);
                assert(p[p.len() - 1] == m[i - 1]);
                assert(m[i - 1] == self.locals@[i - 1]@);
                assert(p.subrange(0, p.len() - 1) =~= m.subrange(0, i - 1));
            }
            i -= 1;
        }
        proof {
            assert(m.subrange(0, 0) =~= Seq::<Seq<char>>::empty());
        }
        None
    }

    /// Lowers one expression, leaving its value on the operand stack.
    /// Succeeds exactly on the nodes the compiler recognizes.
    fn compile_expression(&mut self, expr: &Expr) -> (r: Result<(), String>)
        requires
            compiler_wf(old(self)),
        ensures
            compiler_wf(final(self)),
            code_extended(old(self).chunk@.code, final(self).chunk@.code),
            final(self).locals == old(self).locals,
            r is Ok <==> expr_supported(*expr),
            r matches Err(m) ==> m@ == "Expression not implemented"@,
            r is Ok ==> final(self).chunk@.code == old(self).chunk@.code + lower_expr(
                *expr,
                locals_model(old(self).locals@),
            ),
        decreases *expr,
    {
        let ghost c0 = self.chunk@.code;
        let ghost lm = locals_model(self.locals@);
        proof {
            lemma_code_extended_refl(c0);
        }
        match expr {
            Expr::Literal(value) => {
                let instr = Instruction::LoadConst(clone_value(value));
                let ghost iv = instr@;
                self.chunk.emit(instr, 0);
                proof {
                    lemma_push_extends(c0, iv);
                    assert(self.chunk@.code =~= c0 + lower_expr(*expr, lm));
                }
                Ok(())
            },
            Expr::Identifier(name) => {
                match self.resolve_local(name.as_str()) {
                    Some(local_index) => {
                        let instr = Instruction::LoadLocal(local_index);
                        let ghost iv = instr@;
                        self.chunk.emit(instr, 0);
                        proof {
                            lemma_push_extends(c0, iv);
                            assert(self.chunk@.code =~= c0 + lower_expr(*expr, lm));
                        }
                    },
                    None => {
                        let instr = Instruction::LoadGlobal(clone_string(name));
                        let ghost iv = instr@;
                        self.chunk.emit(instr, 0);
                        proof {
                            lemma_push_extends(c0, iv);
                            assert(self.chunk@.code =~= c0 + lower_expr(*expr, lm));
                        }
                    },
                }
                Ok(())
            },
            Expr::Binary { left, operator, right } => {
                match self.compile_expression(left) {
                    Ok(()) => {},
                    Err(e) => {
                        return Err(e);
                    },
                }
                let ghost c1 = self.chunk@.code;
                match self.compile_expression(right) {
                    Ok(()) => {},
                    Err(e) => {
                        proof {
                            lemma_code_extended_trans(c0, c1, self.chunk@.code);
                        }
                        return Err(e);
                    },
                }
                let instruction = match operator {
                    BinaryOp::Add => Instruction::Add,
                    BinaryOp::Sub => Instruction::Sub,
                    BinaryOp::Mul => Instruction::Mul,
                    BinaryOp::Div => Instruction::Div,
                    BinaryOp::Mod => Instruction::Mod,
                    BinaryOp::Pow => Instruction::Pow,
                    BinaryOp::Equal => Instruction::Equal,
                    BinaryOp::NotEqual => Instruction::NotEqual,
                    BinaryOp::Less => Instruction::Less,
                    BinaryOp::LessEqual => Instruction::LessEqual,
                    BinaryOp::Greater => Instruction::Greater,
                    BinaryOp::GreaterEqual => Instruction::GreaterEqual,
                    BinaryOp::And => Instruction::And,
                    BinaryOp::Or => Instruction::Or,
                    BinaryOp::Concat => Instruction::Concat,
                };
                let ghost c2 = self.chunk@.code;
                let ghost iv = instruction@;
                self.chunk.emit(instruction, 0);
                proof {
                    lemma_push_extends(c2, iv);
                    lemma_code_extended_trans(c0, c1, c2);
                    lemma_code_extended_trans(c0, c2, self.chunk@.code);
                    assert(iv == binop_instr(*operator));
                    assert(self.chunk@.code =~= c0 + lower_expr(*expr, lm));
                }
                Ok(())
            },
            Expr::Unary { operator, operand } => {
                match self.compile_expression(operand) {
                    Ok(()) => {},
                    Err(e) => {
                        return Err(e);
                    },
                }
                let instruction = match operator {
                    UnaryOp::Minus => Instruction::Neg,
                    UnaryOp::Not => Instruction::Not,
                };
                let ghost c1 = self.chunk@.code;
                let ghost iv = instruction@;
                self.chunk.emit(instruction, 0);
                proof {
                    lemma_push_extends(c1, iv);
                    lemma_code_extended_trans(c0, c1, self.chunk@.code);
                    assert(iv == unop_instr(*operator));
                    assert(self.chunk@.code =~= c0 + lower_expr(*expr, lm));
                }
                Ok(())
            },
            Expr::Call { callee, args } => {
                let n = args.len();
                let mut j: usize = 0;
                proof {
                    assert(args@.subrange(0, 0) =~= Seq::<Expr>::empty());
                    assert(c0 + lower_exprs(args@.subrange(0, 0), lm) =~= c0);
                }
                while j < n
                    invariant
                        compiler_wf(self),
                        *expr == (Expr::Call { callee: *callee, args: *args }),
                        n == args@.len(),
                        j <= n,
                        c0 == old(self).chunk@.code,
                        lm == locals_model(old(self).locals@),
                        self.locals == old(self).locals,
                        code_extended(c0, self.chunk@.code),
                        self.chunk@.code == c0 + lower_exprs(args@.subrange(0, j as int), lm),
                        forall|k: int| 0 <= k < j ==> expr_supported(#[trigger] args@[k]),
                    decreases n - j,
                {
                    proof {
                        assert(decreases_to!(*expr => expr->Call_args@[j as int]));
                        assert(expr->Call_args@[j as int] == args@[j as int]);
                    }
                    let ghost cj = self.chunk@.code;
                    match self.compile_expression(&args[j]) {
                        Ok(()) => {},
                        Err(e) => {
                            proof {
                                lemma_code_extended_trans(c0, cj, self.chunk@.code);
                                lemma_exprs_supported_pointwise(args@);
                            }
                            return Err(e);
                        },
                    }
                    proof {
                        lemma_code_extended_trans(c0, cj, self.chunk@.code);
                        lemma_lower_exprs_snoc(args@, lm, j as int);
                        assert(self.chunk@.code =~= c0 + lower_exprs(
                            args@.subrange(0, j + 1),
                            lm,
                        ));
                    }
                    j += 1;
                }
                proof {
                    assert(args@.subrange(0, n as int) =~= args@);
                }
                let ghost c1 = self.chunk@.code;
                match self.compile_expression(callee) {
                    Ok(()) => {},
                    Err(e) => {
                        proof {
                            lemma_code_extended_trans(c0, c1, self.chunk@.code);
                        }
                        return Err(e);
                    },
                }
                let ghost c2 = self.chunk@.code;
                self.chunk.emit(Instruction::Call(n), 0);
                proof {
                    lemma_push_extends(c2, InstrModel::Call(n));
                    lemma_code_extended_trans(c0, c1, c2);
                    lemma_code_extended_trans(c0, c2, self.chunk@.code);
                    lemma_exprs_supported_pointwise(args@);
                    assert(self.chunk@.code =~= c0 + lower_expr(*expr, lm));
                }
                Ok(())
            },
            Expr::FieldAccess { object, field } => {
                match self.compile_expression(object) {
                    Ok(()) => {},
                    Err(e) => {
                        return Err(e);
                    },
                }
                let ghost c1 = self.chunk@.code;
                let instr = Instruction::LoadConst(Value::Str(clone_string(field)));
                let ghost iv = instr@;
                self.chunk.emit(instr, 0);
                let ghost c2 = self.chunk@.code;
                self.chunk.emit(Instruction::GetIndex, 0);
                proof {
                    lemma_push_extends(c1, iv);
                    lemma_push_extends(c2, InstrModel::GetIndex);
                    lemma_code_extended_trans(c0, c1, c2);
                    lemma_code_extended_trans(c0, c2, self.chunk@.code);
                    assert(self.chunk@.code =~= c0 + lower_expr(*expr, lm));
                }
                Ok(())
            },
            _ => Err(string_from("Expression not implemented")),
        }
    }

    /// Lowers one statement.  Succeeds exactly on the statement forms the
    /// compiler recognizes; on success the chunk grows by exactly the
    /// statement's lowering at its position, and the declared locals are
    /// exactly the lowering's.
    #[verifier::rlimit(100)]
    #[verifier::spinoff_prover]
    fn compile_statement(&mut self, stmt: &Stmt) -> (r: Result<(), String>)
        requires
            compiler_wf(old(self)),
        ensures
            compiler_wf(final(self)),
            code_extended(old(self).chunk@.code, final(self).chunk@.code),
            r is Ok <==> stmt_supported(*stmt),
            r matches Err(m) ==> m@ == "Statement not implemented"@ || m@
                == "Expression not implemented"@,
            r is Ok ==> ({
                let lowered = lower_stmt(
                    *stmt,
                    locals_model(old(self).locals@),
                    old(self).chunk@.code.len() as int,
                );
                final(self).chunk@.code == old(self).chunk@.code + lowered.0 && locals_model(
                    final(self).locals@,
                ) == lowered.1
            }),
        decreases *stmt, 1int,
    {
        let ghost c0 = self.chunk@.code;
        let ghost lm0 = locals_model(self.locals@);
        let ghost b0 = c0.len() as int;
        proof {
            lemma_code_extended_refl(c0);
        }
        match stmt {
            Stmt::Expression(expr) => {
                match self.compile_expression(expr) {
                    Ok(()) => {},
                    Err(e) => {
                        return Err(e);
                    },
                }
                let ghost c1 = self.chunk@.code;
                self.chunk.emit(Instruction::Pop, 0);
                proof {
                    lemma_push_extends(c1, InstrModel::Pop);
                    lemma_code_extended_trans(c0, c1, self.chunk@.code);
                    assert(self.chunk@.code =~= c0 + lower_stmt(*stmt, lm0, b0).0);
                }
                Ok(())
            },
            Stmt::Assignment { target, value } => {
                match self.compile_expression(value) {
                    Ok(()) => {},
                    Err(e) => {
                        return Err(e);
                    },
                }
                let ghost c1 = self.chunk@.code;
                match self.resolve_local(target.as_str()) {
                    Some(local_index) => {
                        let instr = Instruction::StoreLocal(local_index);
                        let ghost iv = instr@;
                        self.chunk.emit(instr, 0);
                        proof {
                            lemma_push_extends(c1, iv);
                            lemma_code_extended_trans(c0, c1, self.chunk@.code);
                            assert(self.chunk@.code =~= c0 + lower_stmt(*stmt, lm0, b0).0);
                        }
                    },
                    None => {
                        let instr = Instruction::StoreGlobal(clone_string(target));
                        let ghost iv = instr@;
                        self.chunk.emit(instr, 0);
                        proof {
                            lemma_push_extends(c1, iv);
                            lemma_code_extended_trans(c0, c1, self.chunk@.code);
                            assert(self.chunk@.code =~= c0 + lower_stmt(*stmt, lm0, b0).0);
                        }
                    },
                }
                Ok(())
            },
            Stmt::LocalAssignment { names, values } => self.compile_local_assignment(
                stmt,
                names,
                values,
            ),
            Stmt::If { condition, then_branch, else_branch } => self.compile_if(
                stmt,
                condition,
                then_branch,
                else_branch,
            ),
            Stmt::While { condition, body } => self.compile_while(stmt, condition, body),
            Stmt::Return(value) => {
                match value {
                    Some(expr) => {
                        match self.compile_expression(expr) {
                            Ok(()) => {},
                            Err(e) => {
                                return Err(e);
                            },
                        }
                    },
                    None => {
                        let ghost cn = self.chunk@.code;
                        self.chunk.emit(Instruction::LoadConst(Value::Nil), 0);
                        proof {
                            lemma_push_extends(cn, InstrModel::LoadConst(ValueModel::Nil));
                        }
                    },
                }
                let ghost c1 = self.chunk@.code;
                self.chunk.emit(Instruction::Return, 0);
                proof {
                    lemma_push_extends(c1, InstrModel::Return);
                    lemma_code_extended_trans(c0, c1, self.chunk@.code);
                    assert(self.chunk@.code =~= c0 + lower_stmt(*stmt, lm0, b0).0);
                }
                Ok(())
            },
            Stmt::For { var, start, end, step, body } => self.compile_for(
                stmt,
                var,
                start,
                end,
                step,
                body,
            ),
            _ => Err(string_from("Statement not implemented")),
        }
    }

    /// Lowers a `local` declaration list.
    #[verifier::rlimit(100)]
    #[verifier::spinoff_prover]
    fn compile_local_assignment(&mut self, stmt: &Stmt, names: &Vec<String>, values: &Vec<Expr>) -> (r: Result<(), String>)
        requires
            compiler_wf(old(self)),
            *stmt == (Stmt::LocalAssignment { names: *names, values: *values }),
        ensures
            compiler_wf(final(self)),
            code_extended(old(self).chunk@.code, final(self).chunk@.code),
            r is Ok <==> stmt_supported(*stmt),
            r matches Err(m) ==> m@ == "Statement not implemented"@ || m@
                == "Expression not implemented"@,
            r is Ok ==> ({
                let lowered = lower_stmt(
                    *stmt,
                    locals_model(old(self).locals@),
                    old(self).chunk@.code.len() as int,
                );
                final(self).chunk@.code == old(self).chunk@.code + lowered.0 && locals_model(
                    final(self).locals@,
                ) == lowered.1
            }),
        decreases *stmt, 0int,
    {
        let ghost c0 = self.chunk@.code;
        let ghost lm0 = locals_model(self.locals@);
        let ghost b0 = c0.len() as int;
        proof {
            lemma_code_extended_refl(c0);
        }
            let vn = values.len();
            let mut j: usize = 0;
            proof {
                assert(values@.subrange(0, 0) =~= Seq::<Expr>::empty());
                assert(c0 + lower_exprs(values@.subrange(0, 0), lm0) =~= c0);
            }
            while j < vn
                invariant
                    compiler_wf(self),
                    *stmt == (Stmt::LocalAssignment { names: *names, values: *values }),
                    vn == values@.len(),
                    j <= vn,
                    c0 == old(self).chunk@.code,
                    lm0 == locals_model(old(self).locals@),
                    self.locals == old(self).locals,
                    code_extended(c0, self.chunk@.code),
                    self.chunk@.code == c0 + lower_exprs(values@.subrange(0, j as int), lm0),
                    forall|k: int| 0 <= k < j ==> expr_supported(#[trigger] values@[k]),
                decreases vn - j,
            {
                let ghost cj = self.chunk@.code;
                match self.compile_expression(&values[j]) {
                    Ok(()) => {},
                    Err(e) => {
                        proof {
                            lemma_code_extended_trans(c0, cj, self.chunk@.code);
                            lemma_exprs_supported_pointwise(values@);
                        }
                        return Err(e);
                    },
                }
                proof {
                    lemma_code_extended_trans(c0, cj, self.chunk@.code);
                    lemma_lower_exprs_snoc(values@, lm0, j as int);
                    assert(self.chunk@.code =~= c0 + lower_exprs(
                        values@.subrange(0, j + 1),
                        lm0,
                    ));
                }
                j += 1;
            }
            let ghost vcode = lower_exprs(values@, lm0);
            proof {
                assert(values@.subrange(0, vn as int) =~= values@);
            }
            // Fewer values than names: pad with nils.
            let nn = names.len();
            let mut k: usize = vn;
            proof {
                assert(Seq::new(0nat, |q: int| InstrModel::LoadConst(ValueModel::Nil)) =~= Seq::<
                    InstrModel,
                >::empty());
                assert(self.chunk@.code =~= c0 + vcode + Seq::new(
                    0nat,
                    |q: int| InstrModel::LoadConst(ValueModel::Nil),
                ));
            }
            while k < nn
                invariant
                    compiler_wf(self),
                    vn <= k,
                    k <= nn || k == vn,
                    vn == values@.len(),
                    nn == names@.len(),
                    c0 == old(self).chunk@.code,
                    lm0 == locals_model(old(self).locals@),
                    vcode == lower_exprs(values@, lm0),
                    self.locals == old(self).locals,
                    code_extended(c0, self.chunk@.code),
                    self.chunk@.code == c0 + vcode + Seq::new(
                        (k - vn) as nat,
                        |q: int| InstrModel::LoadConst(ValueModel::Nil),
                    ),
                decreases nn - k,
            {
                let ghost ck = self.chunk@.code;
                self.chunk.emit(Instruction::LoadConst(Value::Nil), 0);
                proof {
                    lemma_push_extends(ck, InstrModel::LoadConst(ValueModel::Nil));
                    lemma_code_extended_trans(c0, ck, self.chunk@.code);
                    assert(self.chunk@.code =~= c0 + vcode + Seq::new(
                        (k + 1 - vn) as nat,
                        |q: int| InstrModel::LoadConst(ValueModel::Nil),
                    ));
                }
                k += 1;
            }
            let ghost padspec = lower_stmt(*stmt, lm0, b0).0.subrange(
                vcode.len() as int,
                (lower_stmt(*stmt, lm0, b0).0.len() - lower_local_stores(
                    names@.map_values(|n: String| n@),
                    lm0,
                ).0.len()) as int,
            );
            let ghost pre_stores = self.chunk@.code;
            let ghost plen = pre_stores.len() as int;
            let ghost nm = names@.map_values(|n: String| n@);
            let ghost full = lower_local_stores(nm, lm0);
            proof {
                if vn < nn {
                    assert(pre_stores =~= c0 + vcode + Seq::new(
                        (nn - vn) as nat,
                        |q: int| InstrModel::LoadConst(ValueModel::Nil),
                    ));
                } else {
                    assert(Seq::new(0nat, |q: int| InstrModel::LoadConst(ValueModel::Nil))
                        =~= Seq::<InstrModel>::empty());
                    assert(pre_stores =~= c0 + vcode);
                }
                assert(nm.subrange(0, nn as int) =~= nm);
                assert(pre_stores.subrange(plen, plen) =~= Seq::<InstrModel>::empty());
            }
            // Declare the locals, last name first, popping stored values.
            let mut t: usize = nn;
            while t > 0
                invariant
                    compiler_wf(self),
                    *stmt == (Stmt::LocalAssignment { names: *names, values: *values }),
                    t <= nn,
                    nn == names@.len(),
                    nm == names@.map_values(|n: String| n@),
                    c0 == old(self).chunk@.code,
                    full == lower_local_stores(nm, lm0),
                    pre_stores.len() == plen,
                    code_extended(c0, pre_stores),
                    self.chunk@.code.len() >= plen,
                    self.chunk@.code.subrange(0, plen) == pre_stores,
                    code_extended(c0, self.chunk@.code),
                    full.0 == self.chunk@.code.subrange(plen, self.chunk@.code.len() as int)
                        + lower_local_stores(
                        nm.subrange(0, t as int),
                        locals_model(self.locals@),
                    ).0,
                    full.1 == lower_local_stores(
                        nm.subrange(0, t as int),
                        locals_model(self.locals@),
                    ).1,
                decreases t,
            {
                let ghost cur_lm = locals_model(self.locals@);
                let ghost part = lower_local_stores(nm.subrange(0, t as int), cur_lm);
                proof {
                    assert(nm.subrange(0, t as int).last() == nm[t - 1]);
                    assert(nm[t - 1] == names@[t - 1]@);
                    assert(nm.subrange(0, t as int).drop_last() =~= nm.subrange(0, t - 1));
                    lemma_map_values_push(
                        self.locals@,
                        |n: String| n@,
                        names@[t - 1],
                    );
                }
                self.add_local(clone_string(&names[t - 1]));
                proof {
                    assert(locals_model(self.locals@) =~= cur_lm.push(nm[t - 1]));
                }
                let local_index = self.locals.len() - 1;
                let ghost ct = self.chunk@.code;
                self.chunk.emit(Instruction::StoreLocal(local_index), 0);
                proof {
                    lemma_push_extends(ct, InstrModel::StoreLocal(local_index));
                    lemma_code_extended_trans(c0, ct, self.chunk@.code);
                    assert(local_index == cur_lm.len());
                    assert(part == (seq![InstrModel::StoreLocal(local_index)]
                        + lower_local_stores(
                        nm.subrange(0, t - 1),
                        cur_lm.push(nm[t - 1]),
                    ).0, lower_local_stores(
                        nm.subrange(0, t - 1),
                        cur_lm.push(nm[t - 1]),
                    ).1));
                    assert(self.chunk@.code.subrange(0, plen) =~= pre_stores);
                    assert(full.0 =~= self.chunk@.code.subrange(
                        plen,
                        self.chunk@.code.len() as int,
                    ) + lower_local_stores(
                        nm.subrange(0, t - 1),
                        locals_model(self.locals@),
                    ).0);
                }
                t -= 1;
            }
            proof {
                lemma_exprs_supported_pointwise(values@);
                assert(nm.subrange(0, 0) =~= Seq::<Seq<char>>::empty());
                assert(full.0 =~= self.chunk@.code.subrange(
                    plen,
                    self.chunk@.code.len() as int,
                ));
                assert(full.1 == locals_model(self.locals@));
                assert(self.chunk@.code =~= self.chunk@.code.subrange(0, plen)
                    + self.chunk@.code.subrange(plen, self.chunk@.code.len() as int));
                assert(self.chunk@.code =~= pre_stores + full.0);
                let lowered = lower_stmt(*stmt, lm0, b0);
                assert(lowered.0 == lower_exprs(values@, lm0) + (if values@.len() < names@.len() {
                    Seq::new(
                        (names@.len() - values@.len()) as nat,
                        |q: int| InstrModel::LoadConst(ValueModel::Nil),
                    )
                } else {
                    Seq::<InstrModel>::empty()
                }) + full.0);
                assert(self.chunk@.code =~= c0 + lowered.0);
            }
            Ok(())
    }

    /// Lowers an `if` statement with its two patch sites.
    #[verifier::rlimit(100)]
    #[verifier::spinoff_prover]
    fn compile_if(&mut self, stmt: &Stmt, condition: &Expr, then_branch: &Vec<Stmt>, else_branch: &Option<Vec<Stmt>>) -> (r: Result<(), String>)
        requires
            compiler_wf(old(self)),
            *stmt == (Stmt::If { condition: *condition, then_branch: *then_branch, else_branch: *else_branch }),
        ensures
            compiler_wf(final(self)),
            code_extended(old(self).chunk@.code, final(self).chunk@.code),
            r is Ok <==> stmt_supported(*stmt),
            r matches Err(m) ==> m@ == "Statement not implemented"@ || m@
                == "Expression not implemented"@,
            r is Ok ==> ({
                let lowered = lower_stmt(
                    *stmt,
                    locals_model(old(self).locals@),
                    old(self).chunk@.code.len() as int,
                );
                final(self).chunk@.code == old(self).chunk@.code + lowered.0 && locals_model(
                    final(self).locals@,
                ) == lowered.1
            }),
        decreases *stmt, 0int,
    {
        let ghost c0 = self.chunk@.code;
        let ghost lm0 = locals_model(self.locals@);
        let ghost b0 = c0.len() as int;
        proof {
            lemma_code_extended_refl(c0);
        }
            match self.compile_expression(condition) {
                Ok(()) => {},
                Err(e) => {
                    return Err(e);
                },
            }
            let ghost ccode = lower_expr(*condition, lm0);
            let ghost cl = ccode.len() as int;
            let else_jump = self.emit_jump(Instruction::JumpIfFalse(0));
            let ghost code2 = self.chunk@.code;
            proof {
                lemma_code_extended_trans(c0, c0 + ccode, code2);
                assert(code2 =~= c0 + ccode + seq![InstrModel::JumpIfFalse(0)]);
                assert(code2.len() == b0 + cl + 1);
            }
            let ghost tfull = lower_stmts(then_branch@, lm0, b0 + cl + 1);
            let tn = then_branch.len();
            let mut j: usize = 0;
            proof {
                assert(then_branch@.subrange(0, tn as int) =~= then_branch@);
                assert(code2.subrange(0, code2.len() as int) =~= code2);
                assert(code2.subrange(b0 + cl + 1, code2.len() as int) =~= Seq::<
                    InstrModel,
                >::empty());
            }
            while j < tn
                invariant
                    compiler_wf(self),
                    *stmt == (Stmt::If {
                        condition: *condition,
                        then_branch: *then_branch,
                        else_branch: *else_branch,
                    }),
                    tn == then_branch@.len(),
                    j <= tn,
                    c0 == old(self).chunk@.code,
                    lm0 == locals_model(old(self).locals@),
                    b0 == c0.len(),
                    code2.len() == b0 + cl + 1,
                    tfull == lower_stmts(then_branch@, lm0, b0 + cl + 1),
                    code_extended(c0, self.chunk@.code),
                    self.chunk@.code.len() >= code2.len(),
                    self.chunk@.code.subrange(0, code2.len() as int) == code2,
                    tfull.0 == self.chunk@.code.subrange(
                        code2.len() as int,
                        self.chunk@.code.len() as int,
                    ) + lower_stmts(
                        then_branch@.subrange(j as int, tn as int),
                        locals_model(self.locals@),
                        self.chunk@.code.len() as int,
                    ).0,
                    tfull.1 == lower_stmts(
                        then_branch@.subrange(j as int, tn as int),
                        locals_model(self.locals@),
                        self.chunk@.code.len() as int,
                    ).1,
                    forall|k: int| 0 <= k < j ==> stmt_supported(#[trigger] then_branch@[k]),
                decreases tn - j,
            {
                proof {
                    assert(decreases_to!(*stmt => stmt->If_then_branch@[j as int]));
                    assert(stmt->If_then_branch@[j as int] == then_branch@[j as int]);
                }
                let ghost cj = self.chunk@.code;
                let ghost lmj = locals_model(self.locals@);
                let ghost rem = then_branch@.subrange(j as int, tn as int);
                match self.compile_statement(&then_branch[j]) {
                    Ok(()) => {},
                    Err(e) => {
                        proof {
                            lemma_code_extended_trans(c0, cj, self.chunk@.code);
                            lemma_stmts_supported_pointwise(then_branch@);
                        }
                        return Err(e);
                    },
                }
                proof {
                    lemma_code_extended_trans(c0, cj, self.chunk@.code);
                    assert(rem[0] == then_branch@[j as int]);
                    assert(rem.subrange(1, rem.len() as int) =~= then_branch@.subrange(
                        j + 1,
                        tn as int,
                    ));
                    assert(self.chunk@.code.subrange(0, code2.len() as int) =~= code2);
                    assert(tfull.0 =~= self.chunk@.code.subrange(
                        code2.len() as int,
                        self.chunk@.code.len() as int,
                    ) + lower_stmts(
                        then_branch@.subrange(j + 1, tn as int),
                        locals_model(self.locals@),
                        self.chunk@.code.len() as int,
                    ).0);
                }
                j += 1;
            }
            let ghost tl = tfull.0.len() as int;
            proof {
                assert(then_branch@.subrange(tn as int, tn as int) =~= Seq::<Stmt>::empty());
                assert(tfull.0 =~= self.chunk@.code.subrange(
                    code2.len() as int,
                    self.chunk@.code.len() as int,
                ));
                assert(tfull.1 == locals_model(self.locals@));
                assert(self.chunk@.code =~= code2 + tfull.0);
            }
            let end_jump = self.emit_jump(Instruction::Jump(0));
            let ghost code3 = self.chunk@.code;
            proof {
                lemma_code_extended_trans(c0, code2 + tfull.0, code3);
                assert(code3 =~= code2 + tfull.0 + seq![InstrModel::Jump(0)]);
                assert(code3[else_jump as int] == InstrModel::JumpIfFalse(0));
            }
            self.patch_jump(else_jump);
            let ghost code4 = self.chunk@.code;
            proof {
                assert(code4.subrange(0, c0.len() as int) =~= code3.subrange(
                    0,
                    c0.len() as int,
                ));
                assert(code_extended(c0, code4));
                assert(code4 =~= c0 + ccode + seq![
                    InstrModel::JumpIfFalse((b0 + cl + 1 + tl + 1) as usize),
                ] + tfull.0 + seq![InstrModel::Jump(0)]);
            }
            match else_branch {
                Some(else_stmts) => {
                    let ghost efull = lower_stmts(else_stmts@, tfull.1, b0 + cl + 1 + tl + 1);
                    let en = else_stmts.len();
                    let mut j2: usize = 0;
                    proof {
                        assert(else_stmts@.subrange(0, en as int) =~= else_stmts@);
                        assert(code4.subrange(code4.len() as int, code4.len() as int) =~= Seq::<
                            InstrModel,
                        >::empty());
                    }
                    while j2 < en
                        invariant
                            compiler_wf(self),
                            *stmt == (Stmt::If {
                                condition: *condition,
                                then_branch: *then_branch,
                                else_branch: *else_branch,
                            }),
                            *else_branch == Some(*else_stmts),
                            en == else_stmts@.len(),
                            j2 <= en,
                            c0 == old(self).chunk@.code,
                            code4.len() == b0 + cl + 1 + tl + 1,
                            efull == lower_stmts(else_stmts@, tfull.1, b0 + cl + 1 + tl + 1),
                            tfull.1 == lower_stmts(
                                then_branch@,
                                lm0,
                                b0 + cl + 1,
                            ).1,
                            code_extended(c0, code4),
                            code_extended(c0, self.chunk@.code),
                            self.chunk@.code.len() >= code4.len(),
                            self.chunk@.code.subrange(0, code4.len() as int) == code4,
                            efull.0 == self.chunk@.code.subrange(
                                code4.len() as int,
                                self.chunk@.code.len() as int,
                            ) + lower_stmts(
                                else_stmts@.subrange(j2 as int, en as int),
                                locals_model(self.locals@),
                                self.chunk@.code.len() as int,
                            ).0,
                            efull.1 == lower_stmts(
                                else_stmts@.subrange(j2 as int, en as int),
                                locals_model(self.locals@),
                                self.chunk@.code.len() as int,
                            ).1,
                            forall|k: int|
                                0 <= k < j2 ==> stmt_supported(#[trigger] else_stmts@[k]),
                        decreases en - j2,
                    {
                        proof {
                            let ghost j2i = j2 as int;
                            assert(decreases_to!(*stmt => stmt->If_else_branch->0@[j2i]));
                            assert(stmt->If_else_branch->0@[j2i] == else_stmts@[j2i]);
                        }
                        let ghost cj = self.chunk@.code;
                        let ghost rem = else_stmts@.subrange(j2 as int, en as int);
                        match self.compile_statement(&else_stmts[j2]) {
                            Ok(()) => {},
                            Err(e) => {
                                proof {
                                    lemma_code_extended_trans(c0, cj, self.chunk@.code);
                                    lemma_stmts_supported_pointwise(else_stmts@);
                                }
                                return Err(e);
                            },
                        }
                        proof {
                            lemma_code_extended_trans(c0, cj, self.chunk@.code);
                            assert(rem[0] == else_stmts@[j2 as int]);
                            assert(rem.subrange(1, rem.len() as int) =~= else_stmts@.subrange(
                                j2 + 1,
                                en as int,
                            ));
                            assert(self.chunk@.code.subrange(0, code4.len() as int) =~= code4);
                            assert(efull.0 =~= self.chunk@.code.subrange(
                                code4.len() as int,
                                self.chunk@.code.len() as int,
                            ) + lower_stmts(
                                else_stmts@.subrange(j2 + 1, en as int),
                                locals_model(self.locals@),
                                self.chunk@.code.len() as int,
                            ).0);
                        }
                        j2 += 1;
                    }
                    let ghost el = efull.0.len() as int;
                    proof {
                        assert(else_stmts@.subrange(en as int, en as int) =~= Seq::<
                            Stmt,
                        >::empty());
                        assert(efull.0 =~= self.chunk@.code.subrange(
                            code4.len() as int,
                            self.chunk@.code.len() as int,
                        ));
                        assert(efull.1 == locals_model(self.locals@));
                        assert(self.chunk@.code =~= code4 + efull.0);
                        assert(self.chunk@.code[end_jump as int] == InstrModel::Jump(0));
                    }
                    let ghost code5 = self.chunk@.code;
                    self.patch_jump(end_jump);
                    proof {
                        assert(self.chunk@.code.subrange(0, c0.len() as int) =~= code5.subrange(
                            0,
                            c0.len() as int,
                        ));
                        assert(code_extended(c0, self.chunk@.code));
                        lemma_stmts_supported_pointwise(then_branch@);
                        lemma_stmts_supported_pointwise(else_stmts@);
                        assert(self.chunk@.code =~= c0 + lower_stmt(*stmt, lm0, b0).0);
                        assert(locals_model(self.locals@) == lower_stmt(*stmt, lm0, b0).1);
                    }
                    Ok(())
                },
                None => {
                    let ghost code5 = self.chunk@.code;
                    proof {
                        assert(code5[end_jump as int] == InstrModel::Jump(0));
                    }
                    self.patch_jump(end_jump);
                    proof {
                        assert(self.chunk@.code.subrange(0, c0.len() as int) =~= code5.subrange(
                            0,
                            c0.len() as int,
                        ));
                        assert(code_extended(c0, self.chunk@.code));
                        lemma_stmts_supported_pointwise(then_branch@);
                        assert(self.chunk@.code =~= c0 + lower_stmt(*stmt, lm0, b0).0);
                        assert(locals_model(self.locals@) == lower_stmt(*stmt, lm0, b0).1);
                    }
                    Ok(())
                },
            }
    }

    /// Lowers a `while` loop with its exit patch and back-jump.
    #[verifier::rlimit(100)]
    #[verifier::spinoff_prover]
    fn compile_while(&mut self, stmt: &Stmt, condition: &Expr, body: &Vec<Stmt>) -> (r: Result<(), String>)
        requires
            compiler_wf(old(self)),
            *stmt == (Stmt::While { condition: *condition, body: *body }),
        ensures
            compiler_wf(final(self)),
            code_extended(old(self).chunk@.code, final(self).chunk@.code),
            r is Ok <==> stmt_supported(*stmt),
            r matches Err(m) ==> m@ == "Statement not implemented"@ || m@
                == "Expression not implemented"@,
            r is Ok ==> ({
                let lowered = lower_stmt(
                    *stmt,
                    locals_model(old(self).locals@),
                    old(self).chunk@.code.len() as int,
                );
                final(self).chunk@.code == old(self).chunk@.code + lowered.0 && locals_model(
                    final(self).locals@,
                ) == lowered.1
            }),
        decreases *stmt, 0int,
    {
        let ghost c0 = self.chunk@.code;
        let ghost lm0 = locals_model(self.locals@);
        let ghost b0 = c0.len() as int;
        proof {
            lemma_code_extended_refl(c0);
        }
            let loop_start = self.chunk.instructions.len();
            match self.compile_expression(condition) {
                Ok(()) => {},
                Err(e) => {
                    return Err(e);
                },
            }
            let ghost ccode = lower_expr(*condition, lm0);
            let ghost cl = ccode.len() as int;
            let exit_jump = self.emit_jump(Instruction::JumpIfFalse(0));
            let ghost code2 = self.chunk@.code;
            proof {
                lemma_code_extended_trans(c0, c0 + ccode, code2);
                assert(code2 =~= c0 + ccode + seq![InstrModel::JumpIfFalse(0)]);
                assert(code2.len() == b0 + cl + 1);
            }
            let ghost bfull = lower_stmts(body@, lm0, b0 + cl + 1);
            let bn = body.len();
            let mut j: usize = 0;
            proof {
                assert(body@.subrange(0, bn as int) =~= body@);
                assert(code2.subrange(b0 + cl + 1, code2.len() as int) =~= Seq::<
                    InstrModel,
                >::empty());
            }
            while j < bn
                invariant
                    compiler_wf(self),
                    *stmt == (Stmt::While { condition: *condition, body: *body }),
                    bn == body@.len(),
                    j <= bn,
                    c0 == old(self).chunk@.code,
                    lm0 == locals_model(old(self).locals@),
                    b0 == c0.len(),
                    loop_start == b0,
                    code2.len() == b0 + cl + 1,
                    bfull == lower_stmts(body@, lm0, b0 + cl + 1),
                    code_extended(c0, self.chunk@.code),
                    self.chunk@.code.len() >= code2.len(),
                    self.chunk@.code.subrange(0, code2.len() as int) == code2,
                    bfull.0 == self.chunk@.code.subrange(
                        code2.len() as int,
                        self.chunk@.code.len() as int,
                    ) + lower_stmts(
                        body@.subrange(j as int, bn as int),
                        locals_model(self.locals@),
                        self.chunk@.code.len() as int,
                    ).0,
                    bfull.1 == lower_stmts(
                        body@.subrange(j as int, bn as int),
                        locals_model(self.locals@),
                        self.chunk@.code.len() as int,
                    ).1,
                    forall|k: int| 0 <= k < j ==> stmt_supported(#[trigger] body@[k]),
                decreases bn - j,
            {
                proof {
                    assert(decreases_to!(*stmt => stmt->While_body@[j as int]));
                    assert(stmt->While_body@[j as int] == body@[j as int]);
                }
                let ghost cj = self.chunk@.code;
                let ghost rem = body@.subrange(j as int, bn as int);
                match self.compile_statement(&body[j]) {
                    Ok(()) => {},
                    Err(e) => {
                        proof {
                            lemma_code_extended_trans(c0, cj, self.chunk@.code);
                            lemma_stmts_supported_pointwise(body@);
                        }
                        return Err(e);
                    },
                }
                proof {
                    lemma_code_extended_trans(c0, cj, self.chunk@.code);
                    assert(rem[0] == body@[j as int]);
                    assert(rem.subrange(1, rem.len() as int) =~= body@.subrange(
                        j + 1,
                        bn as int,
                    ));
                    assert(self.chunk@.code.subrange(0, code2.len() as int) =~= code2);
                    assert(bfull.0 =~= self.chunk@.code.subrange(
                        code2.len() as int,
                        self.chunk@.code.len() as int,
                    ) + lower_stmts(
                        body@.subrange(j + 1, bn as int),
                        locals_model(self.locals@),
                        self.chunk@.code.len() as int,
                    ).0);
                }
                j += 1;
            }
            let ghost bl = bfull.0.len() as int;
            proof {
                assert(body@.subrange(bn as int, bn as int) =~= Seq::<Stmt>::empty());
                assert(bfull.0 =~= self.chunk@.code.subrange(
                    code2.len() as int,
                    self.chunk@.code.len() as int,
                ));
                assert(bfull.1 == locals_model(self.locals@));
                assert(self.chunk@.code =~= code2 + bfull.0);
            }
            // The loop-back jump: its target never lies beyond its own
            // index, so a loop-back jump never points forward.
            let ghost code3 = self.chunk@.code;
            let back_idx = self.chunk.emit(Instruction::Jump(loop_start), 0);
            proof {
                assert(loop_start <= back_idx);
                lemma_push_extends(code3, InstrModel::Jump(loop_start));
                lemma_code_extended_trans(c0, code3, self.chunk@.code);
                assert(self.chunk@.code[exit_jump as int] == InstrModel::JumpIfFalse(0));
            }
            let ghost code4 = self.chunk@.code;
            self.patch_jump(exit_jump);
            proof {
                assert(self.chunk@.code.subrange(0, c0.len() as int) =~= code4.subrange(
                    0,
                    c0.len() as int,
                ));
                assert(code_extended(c0, self.chunk@.code));
                lemma_stmts_supported_pointwise(body@);
                assert(self.chunk@.code =~= c0 + lower_stmt(*stmt, lm0, b0).0);
                assert(locals_model(self.locals@) == lower_stmt(*stmt, lm0, b0).1);
            }
            Ok(())
    }

    /// Lowers a numeric `for` loop: the three hidden locals, the
    /// inclusive guard, the body, the increment, and the back-jump.
    #[verifier::rlimit(100)]
    #[verifier::spinoff_prover]
    fn compile_for(&mut self, stmt: &Stmt, var: &String, start: &Expr, end: &Expr, step: &Option<Expr>, body: &Vec<Stmt>) -> (r: Result<(), String>)
        requires
            compiler_wf(old(self)),
            *stmt == (Stmt::For { var: *var, start: *start, end: *end, step: *step, body: *body }),
        ensures
            compiler_wf(final(self)),
            code_extended(old(self).chunk@.code, final(self).chunk@.code),
            r is Ok <==> stmt_supported(*stmt),
            r matches Err(m) ==> m@ == "Statement not implemented"@ || m@
                == "Expression not implemented"@,
            r is Ok ==> ({
                let lowered = lower_stmt(
                    *stmt,
                    locals_model(old(self).locals@),
                    old(self).chunk@.code.len() as int,
                );
                final(self).chunk@.code == old(self).chunk@.code + lowered.0 && locals_model(
                    final(self).locals@,
                ) == lowered.1
            }),
        decreases *stmt, 0int,
    {
        let ghost c0 = self.chunk@.code;
        let ghost lm0 = locals_model(self.locals@);
        let ghost b0 = c0.len() as int;
        proof {
            lemma_code_extended_refl(c0);
        }
            // Loop variable.
            match self.compile_expression(start) {
                Ok(()) => {},
                Err(e) => {
                    return Err(e);
                },
            }
            let ghost s1 = lower_expr(*start, lm0);
            proof {
                lemma_map_values_push(self.locals@, |n: String| n@, *var);
            }
            self.add_local(clone_string(var));
            let var_index = self.locals.len() - 1;
            let ghost c1 = self.chunk@.code;
            self.chunk.emit(Instruction::StoreLocal(var_index), 0);
            proof {
                lemma_push_extends(c1, InstrModel::StoreLocal(var_index));
                lemma_code_extended_trans(c0, c1, self.chunk@.code);
                assert(locals_model(self.locals@) =~= lm0.push(var@));
                assert(var_index == lm0.len());
            }
            let ghost l1 = lm0.push(var@);
            // End bound, in a hidden local.
            let ghost cpre_end = self.chunk@.code;
            match self.compile_expression(end) {
                Ok(()) => {},
                Err(e) => {
                    proof {
                        lemma_code_extended_trans(c0, cpre_end, self.chunk@.code);
                    }
                    return Err(e);
                },
            }
            proof {
                lemma_code_extended_trans(c0, cpre_end, self.chunk@.code);
            }
            let ghost s2 = lower_expr(*end, l1);
            let mut end_name = clone_string(var);
            crate::error::push_str_slice(&mut end_name, "_end");
            proof {
                lemma_map_values_push(self.locals@, |n: String| n@, end_name);
            }
            self.add_local(end_name);
            let end_index = self.locals.len() - 1;
            let ghost c2 = self.chunk@.code;
            self.chunk.emit(Instruction::StoreLocal(end_index), 0);
            proof {
                lemma_push_extends(c2, InstrModel::StoreLocal(end_index));
                lemma_code_extended_trans(c0, c2, self.chunk@.code);
                assert(locals_model(self.locals@) =~= l1.push(var@ + "_end"@));
                assert(end_index == l1.len());
            }
            let ghost l2 = l1.push(var@ + "_end"@);
            // Step, in a hidden local; defaults to one.
            let ghost cpre_step = self.chunk@.code;
            match step {
                Some(step_expr) => {
                    match self.compile_expression(step_expr) {
                        Ok(()) => {},
                        Err(e) => {
                            proof {
                                lemma_code_extended_trans(c0, cpre_step, self.chunk@.code);
                            }
                            return Err(e);
                        },
                    }
                    proof {
                        lemma_code_extended_trans(c0, cpre_step, self.chunk@.code);
                    }
                },
                None => {
                    self.chunk.emit(Instruction::LoadConst(Value::Number(1)), 0);
                    proof {
                        lemma_push_extends(
                            cpre_step,
                            InstrModel::LoadConst(ValueModel::Number(1)),
                        );
                        lemma_code_extended_trans(c0, cpre_step, self.chunk@.code);
                    }
                },
            }
            let ghost s3: Seq<InstrModel> = match step {
                Some(se) => lower_expr(*se, l2),
                None => seq![InstrModel::LoadConst(ValueModel::Number(1))],
            };
            let mut step_name = clone_string(var);
            crate::error::push_str_slice(&mut step_name, "_step");
            proof {
                lemma_map_values_push(self.locals@, |n: String| n@, step_name);
            }
            self.add_local(step_name);
            let step_index = self.locals.len() - 1;
            let ghost c3 = self.chunk@.code;
            self.chunk.emit(Instruction::StoreLocal(step_index), 0);
            proof {
                lemma_push_extends(c3, InstrModel::StoreLocal(step_index));
                lemma_code_extended_trans(c0, c3, self.chunk@.code);
                assert(locals_model(self.locals@) =~= l2.push(var@ + "_step"@));
                assert(step_index == l2.len());
            }
            let ghost l3 = l2.push(var@ + "_step"@);
            // Loop head: compare the loop variable against the bound.
            let loop_start = self.chunk.instructions.len();
            let ghost head = loop_start as int;
            proof {
                assert(self.chunk@.code =~= c0 + s1 + seq![InstrModel::StoreLocal(var_index)]
                    + s2 + seq![InstrModel::StoreLocal(end_index)] + s3 + seq![
                    InstrModel::StoreLocal(step_index),
                ]);
                assert(head == b0 + s1.len() + 1 + s2.len() + 1 + s3.len() + 1);
            }
            let ghost c4 = self.chunk@.code;
            self.chunk.emit(Instruction::LoadLocal(var_index), 0);
            let ghost c5 = self.chunk@.code;
            self.chunk.emit(Instruction::LoadLocal(end_index), 0);
            let ghost c6 = self.chunk@.code;
            self.chunk.emit(Instruction::LessEqual, 0);
            proof {
                lemma_push_extends(c4, InstrModel::LoadLocal(var_index));
                lemma_push_extends(c5, InstrModel::LoadLocal(end_index));
                lemma_push_extends(c6, InstrModel::LessEqual);
                lemma_code_extended_trans(c0, c4, c5);
                lemma_code_extended_trans(c0, c5, c6);
                lemma_code_extended_trans(c0, c6, self.chunk@.code);
            }
            let exit_jump = self.emit_jump(Instruction::JumpIfFalse(0));
            let ghost code2 = self.chunk@.code;
            proof {
                lemma_code_extended_trans(c0, c6.push(InstrModel::LessEqual), code2);
                assert(code2 =~= c4 + seq![
                    InstrModel::LoadLocal(var_index),
                    InstrModel::LoadLocal(end_index),
                    InstrModel::LessEqual,
                    InstrModel::JumpIfFalse(0),
                ]);
                assert(code2.len() == head + 4);
            }
            let ghost bfull = lower_stmts(body@, l3, head + 4);
            let bn = body.len();
            let mut j: usize = 0;
            proof {
                assert(body@.subrange(0, bn as int) =~= body@);
                assert(code2.subrange(code2.len() as int, code2.len() as int) =~= Seq::<
                    InstrModel,
                >::empty());
            }
            while j < bn
                invariant
                    compiler_wf(self),
                    *stmt == (Stmt::For {
                        var: *var,
                        start: *start,
                        end: *end,
                        step: *step,
                        body: *body,
                    }),
                    bn == body@.len(),
                    j <= bn,
                    c0 == old(self).chunk@.code,
                    code2.len() == head + 4,
                    l3 == locals_model(old(self).locals@).push(var@).push(var@ + "_end"@).push(
                        var@ + "_step"@,
                    ),
                    bfull == lower_stmts(body@, l3, head + 4),
                    code_extended(c0, self.chunk@.code),
                    self.chunk@.code.len() >= code2.len(),
                    self.chunk@.code.subrange(0, code2.len() as int) == code2,
                    bfull.0 == self.chunk@.code.subrange(
                        code2.len() as int,
                        self.chunk@.code.len() as int,
                    ) + lower_stmts(
                        body@.subrange(j as int, bn as int),
                        locals_model(self.locals@),
                        self.chunk@.code.len() as int,
                    ).0,
                    bfull.1 == lower_stmts(
                        body@.subrange(j as int, bn as int),
                        locals_model(self.locals@),
                        self.chunk@.code.len() as int,
                    ).1,
                    forall|k: int| 0 <= k < j ==> stmt_supported(#[trigger] body@[k]),
                decreases bn - j,
            {
                proof {
                    assert(decreases_to!(*stmt => stmt->For_body@[j as int]));
                    assert(stmt->For_body@[j as int] == body@[j as int]);
                }
                let ghost cj = self.chunk@.code;
                let ghost rem = body@.subrange(j as int, bn as int);
                match self.compile_statement(&body[j]) {
                    Ok(()) => {},
                    Err(e) => {
                        proof {
                            lemma_code_extended_trans(c0, cj, self.chunk@.code);
                            lemma_stmts_supported_pointwise(body@);
                        }
                        return Err(e);
                    },
                }
                proof {
                    lemma_code_extended_trans(c0, cj, self.chunk@.code);
                    assert(rem[0] == body@[j as int]);
                    assert(rem.subrange(1, rem.len() as int) =~= body@.subrange(
                        j + 1,
                        bn as int,
                    ));
                    assert(self.chunk@.code.subrange(0, code2.len() as int) =~= code2);
                    assert(bfull.0 =~= self.chunk@.code.subrange(
                        code2.len() as int,
                        self.chunk@.code.len() as int,
                    ) + lower_stmts(
                        body@.subrange(j + 1, bn as int),
                        locals_model(self.locals@),
                        self.chunk@.code.len() as int,
                    ).0);
                }
                j += 1;
            }
            let ghost bl = bfull.0.len() as int;
            proof {
                assert(body@.subrange(bn as int, bn as int) =~= Seq::<Stmt>::empty());
                assert(bfull.0 =~= self.chunk@.code.subrange(
                    code2.len() as int,
                    self.chunk@.code.len() as int,
                ));
                assert(bfull.1 == locals_model(self.locals@));
                assert(self.chunk@.code =~= code2 + bfull.0);
            }
            // Advance the loop variable by the step.
            let ghost c7 = self.chunk@.code;
            self.chunk.emit(Instruction::LoadLocal(var_index), 0);
            let ghost c8 = self.chunk@.code;
            self.chunk.emit(Instruction::LoadLocal(step_index), 0);
            let ghost c9 = self.chunk@.code;
            self.chunk.emit(Instruction::Add, 0);
            let ghost c10 = self.chunk@.code;
            self.chunk.emit(Instruction::StoreLocal(var_index), 0);
            proof {
                lemma_push_extends(c7, InstrModel::LoadLocal(var_index));
                lemma_push_extends(c8, InstrModel::LoadLocal(step_index));
                lemma_push_extends(c9, InstrModel::Add);
                lemma_push_extends(c10, InstrModel::StoreLocal(var_index));
                lemma_code_extended_trans(c0, c7, c8);
                lemma_code_extended_trans(c0, c8, c9);
                lemma_code_extended_trans(c0, c9, c10);
                lemma_code_extended_trans(c0, c10, self.chunk@.code);
                lemma_code_extended_trans(c7, c8, c9);
                lemma_code_extended_trans(c7, c9, c10);
                lemma_code_extended_trans(c7, c10, self.chunk@.code);
                lemma_code_extended_index(c7, self.chunk@.code, exit_jump as int);
            }
            // The loop-back jump: its target never lies beyond its own
            // index.
            let ghost c11 = self.chunk@.code;
            let back_idx = self.chunk.emit(Instruction::Jump(loop_start), 0);
            proof {
                assert(loop_start <= back_idx);
                lemma_push_extends(c11, InstrModel::Jump(loop_start));
                lemma_code_extended_trans(c0, c11, self.chunk@.code);
                lemma_code_extended_index(c11, self.chunk@.code, exit_jump as int);
                assert(self.chunk@.code[exit_jump as int] == InstrModel::JumpIfFalse(0));
            }
            let ghost code3 = self.chunk@.code;
            self.patch_jump(exit_jump);
            proof {
                assert(self.chunk@.code.subrange(0, c0.len() as int) =~= code3.subrange(
                    0,
                    c0.len() as int,
                ));
                assert(code_extended(c0, self.chunk@.code));
                lemma_stmts_supported_pointwise(body@);
                assert(self.chunk@.code =~= c0 + lower_stmt(*stmt, lm0, b0).0);
                assert(locals_model(self.locals@) == lower_stmt(*stmt, lm0, b0).1);
            }
            Ok(())
    }

    /// Lowers a whole program into one chunk, terminated by an implicit
    /// `return nil` pair so execution never falls off the end.  On a
    /// fresh compiler, success yields exactly the program's lowering:
    /// the statements' code from index zero, then the terminator pair.
    /// Every jump in the chunk targets a valid instruction index, and
    /// the line table parallels the code.  Compilation fails exactly
    /// when the program holds a statement form the compiler does not
    /// recognize.
    pub fn compile(&mut self, program: &Program) -> (r: Result<Chunk, String>)
        requires
            compiler_wf(old(self)),
        ensures
            compiler_wf(final(self)),
            match r {
                Ok(chunk) => program_supported(program) && chunk_wf(chunk@) && jumps_valid(
                    chunk@.code,
                ) && chunk@.code.len() >= 2 && chunk@.code[chunk@.code.len() - 2]
                    == InstrModel::LoadConst(ValueModel::Nil) && chunk@.code[chunk@.code.len() - 1]
                    == InstrModel::Return && (compiler_fresh(old(self)) ==> chunk@.code
                    == lower_program(program)),
                Err(m) => !program_supported(program) && (m@ == "Statement not implemented"@
                    || m@ == "Expression not implemented"@),
            },
    {
        let ghost c0 = self.chunk@.code;
        let ghost lm0 = locals_model(self.locals@);
        let ghost pfull = lower_stmts(program.statements@, lm0, c0.len() as int);
        let n = program.statements.len();
        let mut j: usize = 0;
        proof {
            assert(program.statements@.subrange(0, n as int) =~= program.statements@);
            assert(c0.subrange(0, c0.len() as int) =~= c0);
            assert(c0.subrange(c0.len() as int, c0.len() as int) =~= Seq::<InstrModel>::empty());
        }
        while j < n
            invariant
                compiler_wf(self),
                n == program.statements@.len(),
                j <= n,
                c0 == old(self).chunk@.code,
                lm0 == locals_model(old(self).locals@),
                pfull == lower_stmts(program.statements@, lm0, c0.len() as int),
                self.chunk@.code.len() >= c0.len(),
                self.chunk@.code.subrange(0, c0.len() as int) == c0,
                pfull.0 == self.chunk@.code.subrange(c0.len() as int, self.chunk@.code.len() as int)
                    + lower_stmts(
                    program.statements@.subrange(j as int, n as int),
                    locals_model(self.locals@),
                    self.chunk@.code.len() as int,
                ).0,
                pfull.1 == lower_stmts(
                    program.statements@.subrange(j as int, n as int),
                    locals_model(self.locals@),
                    self.chunk@.code.len() as int,
                ).1,
                forall|k: int| 0 <= k < j ==> stmt_supported(#[trigger] program.statements@[k]),
            decreases n - j,
        {
            let ghost rem = program.statements@.subrange(j as int, n as int);
            match self.compile_statement(&program.statements[j]) {
                Ok(()) => {},
                Err(e) => {
                    proof {
                        lemma_stmts_supported_pointwise(program.statements@);
                    }
                    return Err(e);
                },
            }
            proof {
                assert(rem[0] == program.statements@[j as int]);
                assert(rem.subrange(1, rem.len() as int) =~= program.statements@.subrange(
                    j + 1,
                    n as int,
                ));
                assert(self.chunk@.code.subrange(0, c0.len() as int) =~= c0);
                assert(pfull.0 =~= self.chunk@.code.subrange(
                    c0.len() as int,
                    self.chunk@.code.len() as int,
                ) + lower_stmts(
                    program.statements@.subrange(j + 1, n as int),
                    locals_model(self.locals@),
                    self.chunk@.code.len() as int,
                ).0);
            }
            j += 1;
        }
        proof {
            assert(program.statements@.subrange(n as int, n as int) =~= Seq::<Stmt>::empty());
            assert(pfull.0 =~= self.chunk@.code.subrange(
                c0.len() as int,
                self.chunk@.code.len() as int,
            ));
            assert(self.chunk@.code =~= self.chunk@.code.subrange(0, c0.len() as int)
                + self.chunk@.code.subrange(c0.len() as int, self.chunk@.code.len() as int));
            assert(self.chunk@.code =~= c0 + pfull.0);
        }
        let ghost cs0 = self.chunk@.code;
        self.chunk.emit(Instruction::LoadConst(Value::Nil), 0);
        let ghost cs1 = self.chunk@.code;
        self.chunk.emit(Instruction::Return, 0);
        proof {
            lemma_push_extends(cs0, InstrModel::LoadConst(ValueModel::Nil));
            lemma_push_extends(cs1, InstrModel::Return);
            lemma_stmts_supported_pointwise(program.statements@);
            assert forall|i: int|
                0 <= i < self.chunk@.code.len() && is_jump(
                    #[trigger] self.chunk@.code[i],
                ) implies jump_target(self.chunk@.code[i]) < self.chunk@.code.len() by {
                if i < cs0.len() {
                    assert(self.chunk@.code[i] == cs0[i]);
                    assert(jump_target(cs0[i]) <= cs0.len());
                }
            }
            if compiler_fresh(old(self)) {
                assert(c0 =~= Seq::<InstrModel>::empty());
                assert(lm0 =~= Seq::<Seq<char>>::empty());
                assert(self.chunk@.code =~= lower_program(program));
            }
        }
        let chunk = self.chunk.clone();
        Ok(chunk)
    }
}

/// The code extends itself.
pub proof fn lemma_code_extended_refl(a: Seq<InstrModel>)
    ensures
        code_extended(a, a),
{
    assert(a.subrange(0, a.len() as int) =~= a);
}

/// A push extends the code.
pub proof fn lemma_push_extends(a: Seq<InstrModel>, x: InstrModel)
    ensures
        code_extended(a, a.push(x)),
{
    assert(a.push(x).subrange(0, a.len() as int) =~= a);
}

} // verus!

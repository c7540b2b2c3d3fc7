//! The just-in-time subsystem: per-program-counter execution counts, hot
//! region detection, and direct x86-64 machine-code emission for hot
//! regions.  Compiled code is observable through the statistics surface;
//! the interpreter's results never depend on it.

use vstd::prelude::*;
use vstd::arithmetic::power2::*;
use vstd::multiset::Multiset;
use crate::bytecode::{Chunk, Instruction, InstrModel, is_jump};
use crate::value::{Value, ValueModel, nat_to_seq, push_usize_digits, string_from};
use crate::error::push_str_slice;

verus! {

/// A detected hot region: its bounds, the execution count at detection
/// time, and the code compiled for it (write-once).
pub struct HotSpot {
    pub start_pc: usize,
    pub end_pc: usize,
    pub execution_count: u32,
    pub compiled_code: Option<CompiledCode>,
}

/// Machine code compiled for one hot region.  The buffer is plain data;
/// the executable mapping and its entry pointer are a capability the
/// embedding program owns, outside the verified core.
pub struct CompiledCode {
    pub machine_code: Vec<u8>,
}

/// The engine's profiling and native-compilation state.
pub struct JitCompiler {
    hot_spots: Vec<HotSpot>,
    threshold: u32,
    execution_counts: Vec<u32>,
}

/// How far a program counter has progressed toward native code.
#[derive(PartialEq, Eq, Structural, Clone, Copy, Debug)]
pub enum CompileStage {
    Cold,
    ReadyToCompile,
    Compiled,
}

pub open spec fn stage_index(s: CompileStage) -> int {
    match s {
        CompileStage::Cold => 0,
        CompileStage::ReadyToCompile => 1,
        CompileStage::Compiled => 2,
    }
}

/// The ordering of the compilation stages: cold, then ready, then
/// compiled.
pub open spec fn stage_le(a: CompileStage, b: CompileStage) -> bool {
    stage_index(a) <= stage_index(b)
}

/// The recorded execution count of a program counter (zero if never
/// recorded).
pub closed spec fn count_of(j: &JitCompiler, pc: usize) -> u32 {
    if pc < j.execution_counts@.len() {
        j.execution_counts@[pc as int]
    } else {
        0
    }
}

pub closed spec fn threshold_of(j: &JitCompiler) -> u32 {
    j.threshold
}

/// The position of the hot spot recorded for `pc`, if any.
pub closed spec fn spot_at(j: &JitCompiler, pc: usize) -> Option<int> {
    find_spot(j.hot_spots@, pc)
}

pub open spec fn find_spot(s: Seq<HotSpot>, pc: usize) -> Option<int>
    decreases s.len(),
{
    if s.len() == 0 {
        None
    } else if s[0].start_pc == pc {
        Some(0)
    } else {
        match find_spot(s.subrange(1, s.len() as int), pc) {
            Some(i) => Some(i + 1),
            None => None,
        }
    }
}

/// Whether a hot spot has been compiled for `pc`.
pub closed spec fn has_compiled(j: &JitCompiler, pc: usize) -> bool {
    spot_at(j, pc) is Some
}

/// The machine code recorded for `pc`, if any.
pub closed spec fn compiled_code_of(j: &JitCompiler, pc: usize) -> Option<Seq<u8>> {
    match spot_at(j, pc) {
        Some(i) => match j.hot_spots@[i].compiled_code {
            Some(cc) => Some(cc.machine_code@),
            None => None,
        },
        None => None,
    }
}

/// The tri-state classification of a program counter: compiled once a
/// hot spot exists for it, ready once its count has reached the
/// threshold, cold otherwise.
pub closed spec fn stage_of(j: &JitCompiler, pc: usize) -> CompileStage {
    if has_compiled(j, pc) {
        CompileStage::Compiled
    } else if count_of(j, pc) >= threshold_of(j) {
        CompileStage::ReadyToCompile
    } else {
        CompileStage::Cold
    }
}

/// The classification is exactly: compiled if a hot spot exists, else
/// ready once the count has reached the threshold, else cold.
pub proof fn lemma_stage_characterization(j: &JitCompiler, pc: usize)
    ensures
        stage_of(j, pc) == (if has_compiled(j, pc) {
            CompileStage::Compiled
        } else if count_of(j, pc) >= threshold_of(j) {
            CompileStage::ReadyToCompile
        } else {
            CompileStage::Cold
        }),
{
}

// ---------------------------------------------------------------------------
// Hot region detection
// ---------------------------------------------------------------------------

/// The end of the hot region starting at `start`: the index one past the
/// first jump or return at or after `start`, or the end of the code.  A
/// hot region never crosses a control-flow boundary.
pub open spec fn region_end_spec(code: Seq<InstrModel>, start: int) -> int
    decreases code.len() - start,
{
    if start < 0 || start >= code.len() {
        code.len() as int
    } else if is_jump(code[start]) || code[start] is Return {
        start + 1
    } else {
        region_end_spec(code, start + 1)
    }
}

pub proof fn lemma_region_end_bounds(code: Seq<InstrModel>, start: int)
    ensures
        region_end_spec(code, start) <= code.len(),
        start < code.len() ==> region_end_spec(code, start) >= start + 1 || region_end_spec(
            code,
            start,
        ) == code.len(),
    decreases code.len() - start,
{
    if 0 <= start < code.len() && !(is_jump(code[start]) || code[start] is Return) {
        lemma_region_end_bounds(code, start + 1);
    }
}

// ---------------------------------------------------------------------------
// IEEE-754 double encoding of an integer
// ---------------------------------------------------------------------------

/// The position of the highest set bit of `m` (zero for `m <= 1`).
pub open spec fn ilog2(m: nat) -> nat
    decreases m,
{
    if m <= 1 {
        0
    } else {
        1 + ilog2(m / 2)
    }
}

pub proof fn lemma_ilog2_bounds(m: nat)
    requires
        m >= 1,
    ensures
        pow2(ilog2(m)) <= m < pow2(ilog2(m) + 1),
    decreases m,
{
    if m <= 1 {
        lemma2_to64();
    } else {
        lemma_ilog2_bounds(m / 2);
        let e = ilog2(m / 2);
        lemma_pow2_unfold(e + 1);
        assert(pow2(e + 1) == 2 * pow2(e));
        lemma_pow2_unfold(e + 2);
        assert(pow2(e + 2) == 2 * pow2(e + 1));
        assert(ilog2(m) == e + 1);
        assert(m >= 2 * (m / 2));
        assert(m < 2 * (m / 2) + 2);
    }
}

proof fn lemma_pow2_le(a: nat, b: nat)
    requires
        a <= b,
    ensures
        pow2(a) <= pow2(b),
{
    if a < b {
        lemma_pow2_strictly_increases(a, b);
    }
}

/// The IEEE-754 double-precision bit pattern of the non-zero magnitude
/// `m`: biased exponent from the highest set bit, 52 bits of mantissa,
/// rounding to nearest (ties to even) when `m` needs more than 53 bits.
pub open spec fn ieee_mag(m: nat) -> int
    recommends
        1 <= m < pow2(64),
{
    let e = ilog2(m);
    if e <= 52 {
        (1023 + e) * pow2(52) + (m * pow2((52 - e) as nat) - pow2(52))
    } else {
        let d = pow2((e - 52) as nat);
        let q = m / d;
        let r = m % d;
        let half = d / 2;
        let q2: nat = if r > half || (r == half && q % 2 == 1) {
            q + 1
        } else {
            q
        };
        if q2 == pow2(53) {
            (1024 + e) * pow2(52) as int
        } else {
            (1023 + e) * pow2(52) + (q2 - pow2(52))
        }
    }
}

/// The IEEE-754 double bit pattern of the integer `n` (sign bit plus the
/// magnitude's encoding; zero encodes as all-zero bits).
pub open spec fn ieee_bits(n: int) -> int
    recommends
        -pow2(63) <= n < pow2(63),
{
    if n == 0 {
        0
    } else if n > 0 {
        ieee_mag(n as nat)
    } else {
        pow2(63) + ieee_mag((-n) as nat)
    }
}

/// The little-endian bytes of a 64-bit pattern.
pub open spec fn le_bytes(b: int) -> Seq<u8> {
    Seq::new(8, |k: int| ((b / pow2((8 * k) as nat) as int) % 256) as u8)
}

fn ilog2_exec(m: u64) -> (e: u64)
    requires
        m >= 1,
    ensures
        e as nat == ilog2(m as nat),
        e <= 63,
{
    let mut t: u64 = m;
    let mut e: u64 = 0;
    proof {
        lemma2_to64();
        assert(pow2(0) == 1);
    }
    while t >= 2
        invariant
            t >= 1,
            e <= 63,
            e + ilog2(t as nat) == ilog2(m as nat),
            pow2(e as nat) * t <= m,
        decreases t,
    {
        proof {
            lemma_pow2_unfold(e as nat + 1);
            assert(pow2(e as nat + 1) == 2 * pow2(e as nat));
            assert(pow2(e as nat + 1) * (t / 2) <= pow2(e as nat) * t) by (nonlinear_arith)
                requires
                    t >= 2,
                    pow2(e as nat + 1) == 2 * pow2(e as nat),
                    pow2(e as nat) >= 0,
            ;
            assert(pow2(e as nat + 1) <= pow2(e as nat) * t) by (nonlinear_arith)
                requires
                    t >= 2,
                    pow2(e as nat + 1) == 2 * pow2(e as nat),
                    pow2(e as nat) >= 0,
            ;
            if e as nat + 1 > 63 {
                lemma_pow2_le(64, e as nat + 1);
                lemma2_to64_rest();
                assert(pow2(64) == 0x10000000000000000);
            }
        }
        t = t / 2;
        e = e + 1;
    }
    e
}

/// Computes the IEEE-754 double bit pattern of `n`.
fn ieee_bits_exec(n: i64) -> (r: u64)
    ensures
        r as int == ieee_bits(n as int),
{
    proof {
        lemma2_to64();
        lemma2_to64_rest();
    }
    if n == 0 {
        return 0;
    }
    let neg = n < 0;
    let m: u64 = if n < 0 {
        ((-(n + 1)) as u64) + 1
    } else {
        n as u64
    };
    proof {
        assert(m as int == if n < 0 {
            -(n as int)
        } else {
            n as int
        });
        assert(m >= 1);
        assert((m as nat) < pow2(64));
    }
    let mag = ieee_mag_exec(m);
    if neg {
        proof {
            assert(pow2(63) == 0x8000000000000000);
        }
        0x8000000000000000u64 + mag
    } else {
        mag
    }
}

/// Computes the encoding of a non-zero magnitude.
fn ieee_mag_exec(m: u64) -> (r: u64)
    requires
        m >= 1,
    ensures
        r as int == ieee_mag(m as nat),
        r < 0x8000000000000000u64,
{
    proof {
        lemma2_to64();
        lemma2_to64_rest();
        lemma_ilog2_bounds(m as nat);
    }
    let e = ilog2_exec(m);
    let ghost en = e as nat;
    if e <= 52 {
        // Widen the mantissa: m * 2^(52 - e), by repeated doubling.
        let mut shifted: u64 = m;
        let mut k: u64 = 0;
        proof {
            assert(pow2(0) == 1);
            lemma_pow2_adds(en + 1, (52 - en) as nat);
            lemma_pow2_pos((52 - en) as nat);
            assert(m as nat * pow2((52 - en) as nat) < pow2(53)) by (nonlinear_arith)
                requires
                    (m as nat) < pow2(en + 1),
                    pow2(en + 1) * pow2((52 - en) as nat) == pow2(53),
                    pow2((52 - en) as nat) >= 1,
            ;
        }
        while k < 52 - e
            invariant
                e <= 52,
                en == e as nat,
                k <= 52 - e,
                shifted as nat == m as nat * pow2(k as nat),
                m as nat * pow2((52 - en) as nat) < pow2(53),
                pow2(en) <= m as nat,
            decreases 52 - e - k,
        {
            proof {
                let kk = k as nat;
                lemma_pow2_adds(kk, 1);
                lemma2_to64();
                assert(pow2(1) == 2);
                assert(m as nat * pow2(kk) * 2 == m as nat * pow2(kk + 1)) by (nonlinear_arith)
                    requires
                        pow2(kk + 1) == pow2(kk) * 2,
                ;
                lemma_pow2_le(kk + 1, (52 - en) as nat);
                assert(m as nat * pow2(kk + 1) <= m as nat * pow2((52 - en) as nat))
                    by (nonlinear_arith)
                    requires
                        pow2(kk + 1) <= pow2((52 - en) as nat),
                ;
                lemma2_to64_rest();
                assert(pow2(53) == 0x20000000000000);
            }
            shifted = shifted * 2;
            k = k + 1;
        }
        proof {
            assert(shifted as nat == m as nat * pow2((52 - en) as nat));
            lemma_pow2_adds(en, (52 - en) as nat);
            assert(pow2(en) * pow2((52 - en) as nat) <= m as nat * pow2((52 - en) as nat))
                by (nonlinear_arith)
                requires
                    pow2(en) <= m as nat,
                    pow2((52 - en) as nat) >= 0,
            ;
            lemma2_to64_rest();
            assert(pow2(52) == 0x10000000000000);
            assert(pow2(53) == 0x20000000000000);
            assert(pow2(52) <= shifted as nat);
            assert((shifted as nat) < pow2(53));
            assert((1023 + e as int) * pow2(52) <= 1086 * pow2(52)) by (nonlinear_arith)
                requires
                    e <= 63,
                    pow2(52) >= 0,
            ;
        }
        let mantissa = shifted - 0x10000000000000u64;
        let exp_word = (1023 + e) * 0x10000000000000u64;
        exp_word + mantissa
    } else {
        // Narrow the mantissa: divide by 2^(e - 52), rounding to nearest,
        // ties to even.
        let shift = e - 52;
        let mut d: u64 = 1;
        let mut k: u64 = 0;
        proof {
            assert(pow2(0) == 1);
        }
        while k < shift
            invariant
                shift == e - 52,
                e <= 63,
                k <= shift,
                d as nat == pow2(k as nat),
                d <= 0x800,
            decreases shift - k,
        {
            proof {
                lemma2_to64();
                lemma_pow2_adds(k as nat, 1);
                assert(pow2(1) == 2);
                lemma_pow2_le(k as nat + 1, 11);
                assert(pow2(11) == 0x800);
            }
            d = d * 2;
            k = k + 1;
        }
        proof {
            assert(d as nat == pow2((e - 52) as nat));
            assert(d >= 2) by {
                lemma_pow2_le(1, (e - 52) as nat);
                assert(pow2(1) == 2);
            }
        }
        let q = m / d;
        let r = m % d;
        let half = d / 2;
        proof {
            // q < 2^53 and q >= 2^52.
            assert(q as nat == m as nat / pow2((e - 52) as nat));
            lemma_ilog2_bounds(m as nat);
            lemma_pow2_adds(52, (e - 52) as nat);
            lemma_pow2_adds(53, (e - 52) as nat);
            assert((m as nat) < pow2(en + 1));
            lemma_pow2_le(en + 1, 53 + (e - 52) as nat);
            assert((m as nat) < pow2(53) * pow2((e - 52) as nat));
            assert((m as nat) / pow2((e - 52) as nat) < pow2(53)) by (nonlinear_arith)
                requires
                    (m as nat) < pow2(53) * pow2((e - 52) as nat),
                    pow2((e - 52) as nat) >= 1,
            ;
            assert(pow2(en) <= m as nat);
            lemma_pow2_adds(52, (en - 52) as nat);
            assert(pow2(52) * pow2((en - 52) as nat) <= m as nat);
            assert(pow2(52) <= m as nat / pow2((en - 52) as nat)) by (nonlinear_arith)
                requires
                    pow2(52) * pow2((en - 52) as nat) <= m as nat,
                    pow2((en - 52) as nat) >= 1,
            ;
            assert(half as nat == pow2((e - 52) as nat) / 2);
        }
        let rounds_up = r > half || (r == half && q % 2 == 1);
        let q2 = if rounds_up {
            q + 1
        } else {
            q
        };
        proof {
            assert((q2 as nat) <= pow2(53));
            assert((1024 + e as int) * pow2(52) <= 1087 * pow2(52)) by (nonlinear_arith)
                requires
                    e <= 63,
                    pow2(52) >= 0,
            ;
        }
        if q2 == 0x20000000000000u64 {
            (1024 + e) * 0x10000000000000u64
        } else {
            let mantissa = q2 - 0x10000000000000u64;
            (1023 + e) * 0x10000000000000u64 + mantissa
        }
    }
}

/// Appends the little-endian bytes of `bits`.
fn push_le_bytes(out: &mut Vec<u8>, bits: u64)
    ensures
        final(out)@ == old(out)@ + le_bytes(bits as int),
{
    let ghost base = out@;
    let mut t: u64 = bits;
    let mut k: usize = 0;
    proof {
        lemma2_to64();
        lemma2_to64_rest();
        assert(pow2(0) == 1);
        assert((8 * 0) as nat == 0);
        assert(bits as int / 1int == bits as int) by (nonlinear_arith);
    }
    while k < 8
        invariant
            k <= 8,
            out@.len() == base.len() + k,
            base.is_prefix_of(out@),
            t as int == bits as int / pow2((8 * k) as nat) as int,
            forall|i: int| 0 <= i < k ==> out@[base.len() + i] == le_bytes(bits as int)[i],
        decreases 8 - k,
    {
        let b = (t % 256) as u8;
        out.push(b);
        proof {
            lemma2_to64();
            lemma_pow2_adds((8 * k) as nat, 8);
            assert(pow2(8) == 256);
            lemma_pow2_pos((8 * k) as nat);
            vstd::arithmetic::div_mod::lemma_div_denominator(
                bits as int,
                pow2((8 * k) as nat) as int,
                256,
            );
            assert((8 * (k + 1)) as nat == (8 * k) as nat + 8);
        }
        t = t / 256;
        k = k + 1;
    }
    proof {
        assert(out@ =~= base + le_bytes(bits as int));
    }
}

// ---------------------------------------------------------------------------
// Machine-code templates
// ---------------------------------------------------------------------------

/// The x86-64 function prologue emitted before a compiled region.
pub open spec fn native_prologue() -> Seq<u8> {
    seq![0x55u8, 0x48u8, 0x89u8, 0xe5u8, 0x48u8, 0x83u8, 0xecu8, 0x20u8]
}

/// The x86-64 function epilogue emitted after a compiled region.
pub open spec fn native_epilogue() -> Seq<u8> {
    seq![0x48u8, 0x89u8, 0xecu8, 0x5du8, 0xc3u8]
}

/// The fixed template for one instruction: numeric constants load their
/// IEEE double bits into xmm0; the four arithmetic opcodes become SSE
/// double instructions; every other instruction degenerates to a no-op
/// placeholder so compilation never fails outright.
pub open spec fn instr_template(i: InstrModel) -> Seq<u8> {
    match i {
        InstrModel::LoadConst(ValueModel::Number(n)) => seq![0x48u8, 0xb8u8] + le_bytes(
            ieee_bits(n as int),
        ) + seq![0x66u8, 0x48u8, 0x0fu8, 0x6eu8, 0xc0u8],
        InstrModel::Add => seq![0xf2u8, 0x0fu8, 0x58u8, 0xc1u8],
        InstrModel::Sub => seq![0xf2u8, 0x0fu8, 0x5cu8, 0xc1u8],
        InstrModel::Mul => seq![0xf2u8, 0x0fu8, 0x59u8, 0xc1u8],
        InstrModel::Div => seq![0xf2u8, 0x0fu8, 0x5eu8, 0xc1u8],
        _ => seq![0x90u8],
    }
}

/// The concatenated templates of the instructions in `[start, end)`.
pub open spec fn region_code(code: Seq<InstrModel>, start: int, end: int) -> Seq<u8>
    decreases end - start,
{
    if start < 0 || start >= end || start >= code.len() {
        Seq::empty()
    } else {
        instr_template(code[start]) + region_code(code, start + 1, end)
    }
}

pub proof fn lemma_region_code_snoc(code: Seq<InstrModel>, start: int, end: int)
    requires
        0 <= start <= end < code.len(),
    ensures
        region_code(code, start, end + 1) == region_code(code, start, end) + instr_template(
            code[end],
        ),
    decreases end - start,
{
    if start == end {
        assert(region_code(code, end + 1, end + 1) =~= Seq::<u8>::empty());
        assert(region_code(code, start, end) =~= Seq::<u8>::empty());
        assert(region_code(code, start, end + 1) =~= instr_template(code[end]));
    } else {
        lemma_region_code_snoc(code, start + 1, end);
        assert(region_code(code, start, end + 1) =~= region_code(code, start, end)
            + instr_template(code[end]));
    }
}

/// The full machine code for a region: prologue, per-instruction
/// templates, epilogue.
pub open spec fn native_code_spec(code: Seq<InstrModel>, start: int, end: int) -> Seq<u8> {
    native_prologue() + region_code(code, start, end) + native_epilogue()
}

// ---------------------------------------------------------------------------
// The JIT compiler
// ---------------------------------------------------------------------------

/// The first recorded hot spot for `pc`, characterized: its entry
/// matches, and no earlier entry does.
pub proof fn lemma_find_spot_char(s: Seq<HotSpot>, pc: usize)
    ensures
        match find_spot(s, pc) {
            Some(i) => 0 <= i < s.len() && s[i].start_pc == pc && (forall|k: int|
                0 <= k < i ==> (#[trigger] s[k]).start_pc != pc),
            None => forall|k: int| 0 <= k < s.len() ==> (#[trigger] s[k]).start_pc != pc,
        },
    decreases s.len(),
{
    if s.len() > 0 && s[0].start_pc != pc {
        let tail = s.subrange(1, s.len() as int);
        lemma_find_spot_char(tail, pc);
        assert forall|k: int| 1 <= k < s.len() implies s[k] == tail[k - 1] by {}
    }
}

/// Appending a hot spot leaves earlier lookups unchanged; a new key is
/// found at the end.
pub proof fn lemma_find_spot_push(s: Seq<HotSpot>, h: HotSpot, pc: usize)
    ensures
        find_spot(s.push(h), pc) == (match find_spot(s, pc) {
            Some(i) => Some(i),
            None => if h.start_pc == pc {
                Some(s.len() as int)
            } else {
                None
            },
        }),
    decreases s.len(),
{
    let sp = s.push(h);
    assert(sp.len() == s.len() + 1);
    if s.len() == 0 {
        assert(sp[0] == h);
        assert(find_spot(s, pc) == None::<int>);
        if h.start_pc == pc {
            assert(find_spot(sp, pc) == Some(0int));
        } else {
            let sub = sp.subrange(1, sp.len() as int);
            assert(sub.len() == 0);
            assert(find_spot(sub, pc) == None::<int>);
            assert(find_spot(sp, pc) == None::<int>);
        }
    } else {
        assert(sp[0] == s[0]);
        if s[0].start_pc == pc {
            assert(find_spot(sp, pc) == Some(0int));
            assert(find_spot(s, pc) == Some(0int));
        } else {
            let tail = s.subrange(1, s.len() as int);
            lemma_find_spot_push(tail, h, pc);
            assert(sp.subrange(1, sp.len() as int) =~= tail.push(h));
            assert(find_spot(sp, pc) == (match find_spot(tail.push(h), pc) {
                Some(i) => Some(i + 1),
                None => None,
            }));
            assert(find_spot(s, pc) == (match find_spot(tail, pc) {
                Some(i) => Some(i + 1),
                None => None,
            }));
            assert(tail.len() + 1 == s.len());
        }
    }
}

impl JitCompiler {
    /// A fresh profiler: no counts, no hot spots, and the fixed
    /// compilation threshold of one hundred executions.
    pub fn new() -> (r: Self)
        ensures
            threshold_of(&r) == 100u32,
            forall|pc: usize| count_of(&r, pc) == 0u32,
            forall|pc: usize| !has_compiled(&r, pc),
            forall|pc: usize| compiled_code_of(&r, pc) is None,
            forall|pc: usize| stage_of(&r, pc) == CompileStage::Cold,
    {
        let r = JitCompiler { hot_spots: Vec::new(), threshold: 100, execution_counts: Vec::new() };
        proof {
            assert(r.hot_spots@.len() == 0);
        }
        r
    }

    /// Records one more execution of `pc`.  The count rises by one
    /// (saturating), no other count moves, the hot spots stand, and no
    /// program counter's classification ever regresses.
    pub fn record_execution(&mut self, pc: usize)
        ensures
            count_of(final(self), pc) == (if count_of(old(self), pc) < u32::MAX {
                (count_of(old(self), pc) + 1) as u32
            } else {
                u32::MAX
            }),
            forall|q: usize| q != pc ==> count_of(final(self), q) == count_of(old(self), q),
            forall|q: usize| spot_at(final(self), q) == spot_at(old(self), q),
            forall|q: usize| compiled_code_of(final(self), q) == compiled_code_of(old(self), q),
            threshold_of(final(self)) == threshold_of(old(self)),
            forall|q: usize| stage_le(stage_of(old(self), q), stage_of(final(self), q)),
    {
        let ghost pre = *self;
        while self.execution_counts.len() <= pc
            invariant
                self.hot_spots == pre.hot_spots,
                self.threshold == pre.threshold,
                pre.execution_counts@.is_prefix_of(self.execution_counts@),
                forall|q: usize| count_of(self, q) == count_of(&pre, q),
            decreases pc + 1 - self.execution_counts.len(),
        {
            let ghost before = self.execution_counts@;
            self.execution_counts.push(0);
            proof {
                assert(before.is_prefix_of(self.execution_counts@));
                assert forall|q: usize| count_of(self, q) == count_of(&pre, q) by {
                    if (q as int) < before.len() {
                        assert(self.execution_counts@[q as int] == before[q as int]);
                    }
                }
            }
        }
        let c = self.execution_counts[pc];
        let bumped: u32 = if c < u32::MAX {
            c + 1
        } else {
            u32::MAX
        };
        self.execution_counts[pc] = bumped;
        proof {
            assert forall|q: usize| q != pc implies count_of(self, q) == count_of(&pre, q) by {
                if (q as int) < self.execution_counts@.len() {
                }
            }
            assert forall|q: usize| stage_le(stage_of(&pre, q), stage_of(self, q)) by {
                assert(count_of(self, q) >= count_of(&pre, q));
            }
        }
    }

    /// Whether `pc` has reached the compilation threshold.
    pub fn should_compile(&self, pc: usize) -> (r: bool)
        ensures
            r == (count_of(self, pc) >= threshold_of(self)),
    {
        let c = if pc < self.execution_counts.len() {
            self.execution_counts[pc]
        } else {
            0
        };
        c >= self.threshold
    }

    /// The position of the recorded hot spot for `pc`, if any.
    fn find_spot_exec(&self, pc: usize) -> (r: Option<usize>)
        ensures
            match r {
                Some(i) => spot_at(self, pc) == Some(i as int),
                None => spot_at(self, pc) is None,
            },
    {
        proof {
            lemma_find_spot_char(self.hot_spots@, pc);
        }
        let n = self.hot_spots.len();
        let mut i: usize = 0;
        while i < n
            invariant
                n == self.hot_spots@.len(),
                i <= n,
                forall|k: int| 0 <= k < i ==> (#[trigger] self.hot_spots@[k]).start_pc != pc,
                match find_spot(self.hot_spots@, pc) {
                    Some(j) => 0 <= j < n && self.hot_spots@[j].start_pc == pc && (forall|k: int|
                        0 <= k < j ==> (#[trigger] self.hot_spots@[k]).start_pc != pc),
                    None => forall|k: int|
                        0 <= k < n ==> (#[trigger] self.hot_spots@[k]).start_pc != pc,
                },
            decreases n - i,
        {
            if self.hot_spots[i].start_pc == pc {
                proof {
                    match find_spot(self.hot_spots@, pc) {
                        Some(j) => {
                            if j < i {
                                assert(self.hot_spots@[j].start_pc != pc);
                            }
                            if j > i {
                                assert(self.hot_spots@[i as int].start_pc != pc);
                            }
                        },
                        None => {
                            assert(self.hot_spots@[i as int].start_pc != pc);
                        },
                    }
                }
                return Some(i);
            }
            i += 1;
        }
        None
    }

    /// The end of the hot region starting at `start_pc`: the forward scan
    /// stops at the first jump or return, inclusive.
    fn find_hot_region_end(&self, chunk: &Chunk, start_pc: usize) -> (r: usize)
        ensures
            r as int == region_end_spec(chunk@.code, start_pc as int),
            r <= chunk@.code.len(),
    {
        proof {
            lemma_region_end_bounds(chunk@.code, start_pc as int);
        }
        let n = chunk.instructions.len();
        let mut i: usize = start_pc;
        while i < n
            invariant
                n == chunk@.code.len(),
                start_pc <= i,
                region_end_spec(chunk@.code, start_pc as int) == region_end_spec(
                    chunk@.code,
                    i as int,
                ),
            decreases n - i,
        {
            let stops = match &chunk.instructions[i] {
                Instruction::Jump(_) => true,
                Instruction::JumpIfFalse(_) => true,
                Instruction::JumpIfTrue(_) => true,
                Instruction::Return => true,
                _ => false,
            };
            proof {
                assert(chunk@.code[i as int] == chunk.instructions@[i as int]@);
            }
            if stops {
                return i + 1;
            }
            i += 1;
        }
        n
    }

    /// Translates the instructions of `[start_pc, end_pc)` to the fixed
    /// machine-code templates, between the standard prologue and
    /// epilogue.
    fn compile_to_native(&self, chunk: &Chunk, start_pc: usize, end_pc: usize) -> (r: Result<
        CompiledCode,
        String,
    >)
        requires
            end_pc <= chunk@.code.len(),
        ensures
            r matches Ok(cc) && cc.machine_code@ == native_code_spec(
                chunk@.code,
                start_pc as int,
                end_pc as int,
            ),
    {
        let ghost code = chunk@.code;
        let mut machine_code: Vec<u8> = Vec::new();
        machine_code.push(0x55);
        machine_code.push(0x48);
        machine_code.push(0x89);
        machine_code.push(0xe5);
        machine_code.push(0x48);
        machine_code.push(0x83);
        machine_code.push(0xec);
        machine_code.push(0x20);
        proof {
            assert(machine_code@ =~= native_prologue());
        }
        let mut i: usize = start_pc;
        while i < end_pc
            invariant
                end_pc <= chunk@.code.len(),
                code == chunk@.code,
                start_pc <= i <= end_pc || (i == start_pc && start_pc > end_pc),
                machine_code@ == native_prologue() + region_code(
                    code,
                    start_pc as int,
                    i as int,
                ),
            decreases end_pc - i,
        {
            let ghost pre = machine_code@;
            self.emit_template(&mut machine_code, &chunk.instructions[i]);
            proof {
                lemma_region_code_snoc(code, start_pc as int, i as int);
                assert(chunk.instructions@[i as int]@ == code[i as int]);
                assert(machine_code@ =~= native_prologue() + region_code(
                    code,
                    start_pc as int,
                    i + 1,
                ));
            }
            i += 1;
        }
        proof {
            if start_pc > end_pc {
                assert(region_code(code, start_pc as int, end_pc as int) =~= Seq::<u8>::empty());
                assert(region_code(code, start_pc as int, start_pc as int) =~= Seq::<
                    u8,
                >::empty());
            }
        }
        let ghost body = machine_code@;
        machine_code.push(0x48);
        machine_code.push(0x89);
        machine_code.push(0xec);
        machine_code.push(0x5d);
        machine_code.push(0xc3);
        proof {
            assert(machine_code@ =~= body + native_epilogue());
            assert(machine_code@ =~= native_code_spec(code, start_pc as int, end_pc as int));
        }
        Ok(CompiledCode { machine_code })
    }

    /// Appends the template for one instruction.
    fn emit_template(&self, out: &mut Vec<u8>, instr: &Instruction)
        ensures
            final(out)@ == old(out)@ + instr_template(instr@),
    {
        let ghost pre = out@;
        match instr {
            Instruction::LoadConst(Value::Number(n)) => {
                out.push(0x48);
                out.push(0xb8);
                let bits = ieee_bits_exec(*n);
                push_le_bytes(out, bits);
                out.push(0x66);
                out.push(0x48);
                out.push(0x0f);
                out.push(0x6e);
                out.push(0xc0);
                proof {
                    assert(out@ =~= pre + instr_template(instr@));
                }
            },
            Instruction::Add => {
                out.push(0xf2);
                out.push(0x0f);
                out.push(0x58);
                out.push(0xc1);
                proof {
                    assert(out@ =~= pre + instr_template(instr@));
                }
            },
            Instruction::Sub => {
                out.push(0xf2);
                out.push(0x0f);
                out.push(0x5c);
                out.push(0xc1);
                proof {
                    assert(out@ =~= pre + instr_template(instr@));
                }
            },
            Instruction::Mul => {
                out.push(0xf2);
                out.push(0x0f);
                out.push(0x59);
                out.push(0xc1);
                proof {
                    assert(out@ =~= pre + instr_template(instr@));
                }
            },
            Instruction::Div => {
                out.push(0xf2);
                out.push(0x0f);
                out.push(0x5e);
                out.push(0xc1);
                proof {
                    assert(out@ =~= pre + instr_template(instr@));
                }
            },
            _ => {
                out.push(0x90);
                proof {
                    assert(out@ =~= pre + instr_template(instr@));
                }
            },
        }
    }

    /// Detects the hot region at `start_pc`, compiles it, and records the
    /// hot spot.  Once a hot spot holds compiled code, compiling it again
    /// is skipped entirely, so earlier compilations are never disturbed
    /// and no memory is claimed twice for one region.
    pub fn compile_hot_spot(&mut self, chunk: &Chunk, start_pc: usize) -> (r: Result<(), String>)
        ensures
            r is Ok,
            threshold_of(final(self)) == threshold_of(old(self)),
            forall|q: usize| count_of(final(self), q) == count_of(old(self), q),
            has_compiled(final(self), start_pc),
            has_compiled(old(self), start_pc) ==> *final(self) == *old(self),
            !has_compiled(old(self), start_pc) ==> {
                &&& has_compiled(final(self), start_pc)
                &&& compiled_code_of(final(self), start_pc) == Some(
                    native_code_spec(
                        chunk@.code,
                        start_pc as int,
                        region_end_spec(chunk@.code, start_pc as int),
                    ),
                )
                &&& forall|q: usize|
                    q != start_pc ==> compiled_code_of(final(self), q) == compiled_code_of(
                        old(self),
                        q,
                    ) && has_compiled(final(self), q) == has_compiled(old(self), q)
            },
            forall|q: usize| stage_le(stage_of(old(self), q), stage_of(final(self), q)),
    {
        match self.find_spot_exec(start_pc) {
            Some(_) => {
                return Ok(());
            },
            None => {},
        }
        let end_pc = self.find_hot_region_end(chunk, start_pc);
        let compiled = match self.compile_to_native(chunk, start_pc, end_pc) {
            Ok(cc) => cc,
            Err(e) => {
                proof {
                    assert(false);
                }
                return Err(e);
            },
        };
        let count = if start_pc < self.execution_counts.len() {
            self.execution_counts[start_pc]
        } else {
            0
        };
        let ghost pre = *self;
        let spot = HotSpot {
            start_pc,
            end_pc,
            execution_count: count,
            compiled_code: Some(compiled),
        };
        self.hot_spots.push(spot);
        proof {
            assert forall|q: usize| spot_at(self, q) == (match spot_at(&pre, q) {
                Some(i) => Some(i),
                None => if q == start_pc {
                    Some(pre.hot_spots@.len() as int)
                } else {
                    None
                },
            }) by {
                lemma_find_spot_push(pre.hot_spots@, spot, q);
            }
            assert forall|q: usize|
                q != start_pc implies compiled_code_of(self, q) == compiled_code_of(&pre, q)
                && has_compiled(self, q) == has_compiled(&pre, q) by {
                lemma_find_spot_push(pre.hot_spots@, spot, q);
                lemma_find_spot_char(pre.hot_spots@, q);
                match spot_at(&pre, q) {
                    Some(i) => {
                        assert(self.hot_spots@[i] == pre.hot_spots@[i]);
                    },
                    None => {},
                }
            }
            lemma_find_spot_char(pre.hot_spots@, start_pc);
            assert(self.hot_spots@[pre.hot_spots@.len() as int] == spot);
            assert forall|q: usize| stage_le(stage_of(&pre, q), stage_of(self, q)) by {}
        }
        Ok(())
    }

    /// The machine code recorded for `pc`, if a hot spot has been
    /// compiled there.
    pub fn get_compiled_code(&self, pc: usize) -> (r: Option<&CompiledCode>)
        ensures
            match r {
                Some(cc) => compiled_code_of(self, pc) == Some(cc.machine_code@),
                None => compiled_code_of(self, pc) is None,
            },
    {
        match self.find_spot_exec(pc) {
            Some(i) => {
                proof {
                    lemma_find_spot_char(self.hot_spots@, pc);
                }
                match &self.hot_spots[i].compiled_code {
                    Some(cc) => Some(cc),
                    None => None,
                }
            },
            None => None,
        }
    }

    /// Writes the statistics dump: how many hot spots are compiled, and
    /// the ten most executed program counters with their counts and
    /// classification, most executed first.
    pub fn print_stats(&self) {
        let text = self.stats_string();
        crate::stdlib::write_stdout(text.as_str());
    }

    /// Builds the human-readable statistics dump: the recorded nonzero
    /// counts are listed largest first (a verified descending sort of
    /// exactly the recorded entries), ten at most.
    fn stats_string(&self) -> (r: String) {
        let mut out = string_from("=== JIT Compiler Statistics ===\n");
        push_str_slice(&mut out, "Hot spots compiled: ");
        push_usize_digits(&mut out, self.hot_spots.len());
        push_str_slice(&mut out, "\nExecution counts:\n");
        // Collect the recorded counts: entry i of the count table with a
        // nonzero count becomes the pair (i, count).
        let mut entries: Vec<(usize, u32)> = Vec::new();
        let mut i: usize = 0;
        let n = self.execution_counts.len();
        while i < n
            invariant
                n == self.execution_counts@.len(),
                i <= n,
                forall|q: int|
                    0 <= q < entries@.len() ==> {
                        let e = #[trigger] entries@[q];
                        e.0 < i && self.execution_counts@[e.0 as int] == e.1 && e.1 > 0
                    },
            decreases n - i,
        {
            let c = self.execution_counts[i];
            if c > 0 {
                entries.push((i, c));
            }
            i += 1;
        }
        let entries = sort_counts_desc(entries);
        let m = entries.len();
        let shown = if m < 10 {
            m
        } else {
            10
        };
        let mut k: usize = 0;
        while k < shown
            invariant
                shown <= entries@.len(),
                k <= shown,
            decreases shown - k,
        {
            let (pc, count) = entries[k];
            push_str_slice(&mut out, "  PC ");
            push_usize_digits(&mut out, pc);
            push_str_slice(&mut out, ": ");
            push_nat_u32(&mut out, count);
            push_str_slice(&mut out, " executions (");
            let compiled = match self.find_spot_exec(pc) {
                Some(_) => true,
                None => false,
            };
            if compiled {
                push_str_slice(&mut out, "COMPILED");
            } else if count >= self.threshold {
                push_str_slice(&mut out, "READY TO COMPILE");
            } else {
                push_str_slice(&mut out, "COLD");
            }
            push_str_slice(&mut out, ")\n");
            k += 1;
        }
        out
    }
}

/// Sorts count entries by descending count: the result is a
/// permutation (the same multiset) of the input, ordered largest count
/// first.
fn sort_counts_desc(entries: Vec<(usize, u32)>) -> (r: Vec<(usize, u32)>)
    ensures
        r@.len() == entries@.len(),
        r@.to_multiset() == entries@.to_multiset(),
        forall|i: int, j: int| 0 <= i < j < r@.len() ==> (#[trigger] r@[i]).1 >= (#[trigger] r@[j]).1,
{
    broadcast use vstd::seq_lib::group_to_multiset_ensures;

    let mut work = entries;
    let ghost all = work@.to_multiset();
    let mut out: Vec<(usize, u32)> = Vec::new();
    proof {
        assert(out@.to_multiset() =~= Multiset::<(usize, u32)>::empty());
        assert(out@.to_multiset().add(work@.to_multiset()) =~= all);
    }
    while work.len() > 0
        invariant
            out@.len() + work@.len() == entries@.len(),
            all == entries@.to_multiset(),
            out@.to_multiset().add(work@.to_multiset()) == all,
            forall|i: int, j: int|
                0 <= i < j < out@.len() ==> (#[trigger] out@[i]).1 >= (#[trigger] out@[j]).1,
            forall|i: int, j: int|
                0 <= i < out@.len() && 0 <= j < work@.len() ==> (#[trigger] out@[i]).1 >= (
                #[trigger] work@[j]).1,
        decreases work@.len(),
    {
        // Find the largest remaining count.
        let wn = work.len();
        let mut best: usize = 0;
        let mut b: usize = 1;
        while b < wn
            invariant
                wn == work@.len(),
                0 < wn,
                best < wn,
                b <= wn,
                forall|q: int| 0 <= q < b ==> (#[trigger] work@[q]).1 <= work@[best as int].1,
            decreases wn - b,
        {
            if work[b].1 > work[best].1 {
                best = b;
            }
            b += 1;
        }
        let ghost pre_work = work@;
        let item = work.remove(best);
        proof {
            pre_work.to_multiset_ensures();
            assert(pre_work.contains(item));
            vstd::seq_lib::to_multiset_contains(pre_work, item);
            assert(work@.to_multiset() =~= pre_work.to_multiset().remove(item));
            assert(pre_work.to_multiset().count(item) > 0);
            assert(out@.to_multiset().add(pre_work.to_multiset()) == all);
        }
        let ghost pre_out = out@;
        out.push(item);
        proof {
            pre_out.to_multiset_ensures();
            assert(out@.to_multiset() =~= pre_out.to_multiset().insert(item));
            assert(out@.to_multiset().add(work@.to_multiset()) =~= all);
            assert(forall|j: int|
                0 <= j < work@.len() ==> (#[trigger] work@[j]).1 <= item.1);
        }
    }
    proof {
        assert(work@.to_multiset() =~= Multiset::<(usize, u32)>::empty());
        assert(out@.to_multiset() =~= all);
        vstd::seq_lib::lemma_multiset_commutative(out@, work@);
        assert(out@.len() == entries@.len());
    }
    out
}

impl Clone for JitCompiler {
    /// A clone keeps the threshold and the execution counts; compiled
    /// code is never duplicated, so the clone starts with no hot spots.
    fn clone(&self) -> (r: Self)
        ensures
            threshold_of(&r) == threshold_of(self),
            forall|pc: usize| count_of(&r, pc) == count_of(self, pc),
            forall|pc: usize| !has_compiled(&r, pc),
    {
        let mut counts: Vec<u32> = Vec::new();
        let mut i: usize = 0;
        let n = self.execution_counts.len();
        while i < n
            invariant
                n == self.execution_counts@.len(),
                i <= n,
                counts@ == self.execution_counts@.subrange(0, i as int),
            decreases n - i,
        {
            counts.push(self.execution_counts[i]);
            proof {
                assert(counts@ =~= self.execution_counts@.subrange(0, i + 1));
            }
            i += 1;
        }
        proof {
            assert(counts@ =~= self.execution_counts@);
        }
        let r = JitCompiler { hot_spots: Vec::new(), threshold: self.threshold, execution_counts: counts };
        proof {
            assert(r.hot_spots@.len() == 0);
        }
        r
    }
}

/// Appends the decimal digits of a 32-bit count.
fn push_nat_u32(s: &mut String, m: u32)
    ensures
        final(s)@ == old(s)@ + nat_to_seq(m as int),
{
    crate::value::push_nat_digits(s, m as u64);
}

} // verus!

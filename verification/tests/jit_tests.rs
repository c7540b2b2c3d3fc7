use luna::bytecode::{Chunk, Compiler, Instruction};
use luna::jit::JitCompiler;
use luna::lexer::Lexer;
use luna::parser::Parser;
use luna::value::Value;

fn arithmetic_chunk() -> Chunk {
    let mut chunk = Chunk::new();
    chunk.emit(Instruction::LoadConst(Value::Number(2)), 1);
    chunk.emit(Instruction::LoadConst(Value::Number(3)), 1);
    chunk.emit(Instruction::Add, 1);
    chunk.emit(Instruction::Return, 1);
    chunk
}

#[test]
fn test_hot_spot_threshold() {
    let mut jit = JitCompiler::new();
    for _ in 0..99 {
        jit.record_execution(4);
    }
    assert!(!jit.should_compile(4));
    jit.record_execution(4);
    assert!(jit.should_compile(4));
    assert!(!jit.should_compile(5));
}

#[test]
fn test_hot_spot_compilation_becomes_visible() {
    let chunk = arithmetic_chunk();
    let mut jit = JitCompiler::new();
    for _ in 0..100 {
        jit.record_execution(0);
    }
    assert!(jit.get_compiled_code(0).is_none());
    jit.compile_hot_spot(&chunk, 0).unwrap();
    assert!(jit.get_compiled_code(0).is_some());
}

#[test]
fn test_recompilation_is_skipped() {
    let chunk = arithmetic_chunk();
    let mut jit = JitCompiler::new();
    jit.compile_hot_spot(&chunk, 0).unwrap();
    let first = jit.get_compiled_code(0).unwrap().machine_code.clone();
    jit.compile_hot_spot(&chunk, 0).unwrap();
    let second = jit.get_compiled_code(0).unwrap().machine_code.clone();
    assert_eq!(first, second);

    // Compiling another region leaves the first untouched.
    jit.compile_hot_spot(&chunk, 2).unwrap();
    let third = jit.get_compiled_code(0).unwrap().machine_code.clone();
    assert_eq!(first, third);
    assert!(jit.get_compiled_code(2).is_some());
}

#[test]
fn test_native_code_layout() {
    // The region from the start runs to the first control-flow boundary
    // (the return), inclusive: prologue, two constant loads, an add, a
    // no-op for the return, epilogue.
    let chunk = arithmetic_chunk();
    let mut jit = JitCompiler::new();
    jit.compile_hot_spot(&chunk, 0).unwrap();
    let code = &jit.get_compiled_code(0).unwrap().machine_code;

    let mut expected: Vec<u8> = Vec::new();
    expected.extend_from_slice(&[0x55, 0x48, 0x89, 0xe5, 0x48, 0x83, 0xec, 0x20]);
    expected.extend_from_slice(&[0x48, 0xb8]);
    expected.extend_from_slice(&2.0f64.to_bits().to_le_bytes());
    expected.extend_from_slice(&[0x66, 0x48, 0x0f, 0x6e, 0xc0]);
    expected.extend_from_slice(&[0x48, 0xb8]);
    expected.extend_from_slice(&3.0f64.to_bits().to_le_bytes());
    expected.extend_from_slice(&[0x66, 0x48, 0x0f, 0x6e, 0xc0]);
    expected.extend_from_slice(&[0xf2, 0x0f, 0x58, 0xc1]); // addsd xmm0, xmm1
    expected.push(0x90); // the return has no template
    expected.extend_from_slice(&[0x48, 0x89, 0xec, 0x5d, 0xc3]);
    assert_eq!(code, &expected);
}

#[test]
fn test_constant_encoding_matches_hardware() {
    // The emitted load-immediate carries the IEEE-754 double bits of the
    // constant; cross-check the verified encoder against the platform's
    // own conversion, including values needing rounding.
    for &n in &[
        0i64,
        1,
        2,
        -1,
        -5,
        12345,
        -987654321,
        i64::MAX,
        i64::MIN,
        9007199254740993, // 2^53 + 1: rounds to nearest even
        9007199254740995, // 2^53 + 3: rounds up
        (1i64 << 62) + 12345,
    ] {
        let mut chunk = Chunk::new();
        chunk.emit(Instruction::LoadConst(Value::Number(n)), 1);
        chunk.emit(Instruction::Return, 1);
        let mut jit = JitCompiler::new();
        jit.compile_hot_spot(&chunk, 0).unwrap();
        let code = &jit.get_compiled_code(0).unwrap().machine_code;
        let bits = u64::from_le_bytes(code[10..18].try_into().unwrap());
        assert_eq!(bits, (n as f64).to_bits(), "encoding of {}", n);
    }
}

#[test]
fn test_compiled_jumps_stay_valid() {
    // Every jump in a compiled chunk targets a valid instruction index;
    // conditional exit jumps point forward, loop-back jumps never do.
    let source = "local sum = 0\nfor i = 1, 3 do\n if i > 1 then\n  sum = sum + i\n end\nend\nwhile sum > 100 do\n sum = sum - 1\nend\nreturn sum";
    let mut lexer = Lexer::new(source);
    let tokens = lexer.tokenize().unwrap();
    let mut parser = Parser::new(tokens);
    let program = parser.parse().unwrap();
    let mut compiler = Compiler::new();
    let chunk = compiler.compile(&program).unwrap();

    let len = chunk.instructions.len();
    for (i, instr) in chunk.instructions.iter().enumerate() {
        match instr {
            Instruction::Jump(t) => {
                assert!(*t < len);
            }
            Instruction::JumpIfFalse(t) | Instruction::JumpIfTrue(t) => {
                assert!(*t < len);
                assert!(*t > i, "a patched exit jump never points backward");
            }
            _ => {}
        }
    }
    assert_eq!(chunk.instructions.len(), chunk.line_numbers.len());
}

#[test]
fn test_chunk_building_blocks() {
    let mut chunk = Chunk::new();
    let i0 = chunk.emit(Instruction::JumpIfFalse(0), 1);
    assert_eq!(i0, 0);
    let c0 = chunk.add_constant(Value::Number(7));
    assert_eq!(c0, 0);
    let c1 = chunk.add_constant(Value::Number(7)); // no deduplication
    assert_eq!(c1, 1);
    chunk.emit(Instruction::Pop, 2);
    chunk.patch_jump(0);
    match chunk.instructions[0] {
        Instruction::JumpIfFalse(t) => assert_eq!(t, 2),
        _ => panic!("patch must keep the jump's kind"),
    }
}

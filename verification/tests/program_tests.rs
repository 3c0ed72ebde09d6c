use bf_jit::{Program, UnbalancedBrackets, MAX_MEM_ARRAY_SIZE};

const HELLO_WORLD: &[u8] =
    b"++++++++[>++++[>++>+++>+++>+<<<<-]>+>+>->>+[<]<-]>>.>---.+++++++..+++.>>.<-.<.+++.------.--------.>>+.>++.";

#[test]
fn empty_program_is_prologue_and_epilogue() {
    let program = Program::new(b"").unwrap();
    let (code, memory) = program.into_parts();
    assert_eq!(code.len(), 28);
    assert_eq!(memory.len(), MAX_MEM_ARRAY_SIZE);
    assert!(memory.iter().all(|&cell| cell == 0));
}

#[test]
fn new_surfaces_bracket_errors() {
    match Program::new(b"]") {
        Err(UnbalancedBrackets(c, pos)) => {
            assert_eq!(c, ']');
            assert_eq!(pos, 0);
        },
        Ok(_) => panic!("expected an unbalanced-bracket error"),
    }
    match Program::new(b"[[]") {
        Err(UnbalancedBrackets(c, pos)) => {
            assert_eq!(c, '[');
            assert_eq!(pos, 0);
        },
        Ok(_) => panic!("expected an unbalanced-bracket error"),
    }
}

#[test]
fn hello_world_compiles() {
    let program = Program::new(HELLO_WORLD).unwrap();
    let (code, memory) = program.into_parts();
    assert!(code.len() > 28);
    assert_eq!(code.len() % 4, 0);
    assert_eq!(memory.len(), MAX_MEM_ARRAY_SIZE);
}

#[test]
fn compilation_is_deterministic() {
    let (code1, _) = Program::new(HELLO_WORLD).unwrap().into_parts();
    let (code2, _) = Program::new(HELLO_WORLD).unwrap().into_parts();
    assert_eq!(code1, code2);
}

#[test]
fn two_increments_then_output() {
    let program = Program::new(b"++.").unwrap();
    let (code, _) = program.into_parts();
    let expected: Vec<u8> = vec![
        // prologue
        0xff, 0x43, 0x00, 0xd1, 0xfd, 0x7b, 0x00, 0xa9, 0xe8, 0x03, 0x00, 0xaa, 0x09, 0x00,
        0x80, 0xd2,
        // tape[p] += 2
        0x0b, 0x01, 0x09, 0x8b, 0x6a, 0x01, 0x40, 0x39, 0x4a, 0x09, 0x00, 0x11, 0x6a, 0x01,
        0x00, 0x39,
        // write tape[p]
        0x20, 0x00, 0x80, 0x52, 0x01, 0x01, 0x09, 0x8b, 0x22, 0x00, 0x80, 0xd2, 0x90, 0x00,
        0x80, 0x52, 0x01, 0x10, 0x00, 0xd4,
        // epilogue
        0xfd, 0x7b, 0x40, 0xa9, 0xff, 0x43, 0x00, 0x91, 0xc0, 0x03, 0x5f, 0xd6,
    ];
    assert_eq!(code, expected);
}

#[test]
fn read_then_write() {
    let program = Program::new(b",.").unwrap();
    let (code, _) = program.into_parts();
    let expected: Vec<u8> = vec![
        // prologue
        0xff, 0x43, 0x00, 0xd1, 0xfd, 0x7b, 0x00, 0xa9, 0xe8, 0x03, 0x00, 0xaa, 0x09, 0x00,
        0x80, 0xd2,
        // read one byte into tape[p]
        0x00, 0x00, 0x80, 0x52, 0x01, 0x01, 0x09, 0x8b, 0x22, 0x00, 0x80, 0xd2, 0x70, 0x00,
        0x80, 0x52, 0x01, 0x10, 0x00, 0xd4,
        // write tape[p]
        0x20, 0x00, 0x80, 0x52, 0x01, 0x01, 0x09, 0x8b, 0x22, 0x00, 0x80, 0xd2, 0x90, 0x00,
        0x80, 0x52, 0x01, 0x10, 0x00, 0xd4,
        // epilogue
        0xfd, 0x7b, 0x40, 0xa9, 0xff, 0x43, 0x00, 0x91, 0xc0, 0x03, 0x5f, 0xd6,
    ];
    assert_eq!(code, expected);
}

#[test]
fn tight_loop_compiles_to_a_real_loop() {
    // `+[]` loops forever at run time; its code must hold a backward branch
    let program = Program::new(b"+[]").unwrap();
    let (code, _) = program.into_parts();
    assert_eq!(code.len(), 68);
    // the b.ne at offset 52 jumps backward
    assert_eq!(&code[52..56], &[0xc1, 0xff, 0xff, 0x54]);
}

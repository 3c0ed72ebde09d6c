use bf_jit::{Instruction, Program};

const PROLOGUE: [u8; 16] = [
    0xff, 0x43, 0x00, 0xd1, // sub  sp, sp, #16
    0xfd, 0x7b, 0x00, 0xa9, // stp  x29, x30, [sp]
    0xe8, 0x03, 0x00, 0xaa, // mov  x8, x0
    0x09, 0x00, 0x80, 0xd2, // mov  x9, #0
];

const EPILOGUE: [u8; 12] = [
    0xfd, 0x7b, 0x40, 0xa9, // ldp  x29, x30, [sp]
    0xff, 0x43, 0x00, 0x91, // add  sp, sp, #16
    0xc0, 0x03, 0x5f, 0xd6, // ret
];

#[test]
fn empty_ir_emits_only_prologue_and_epilogue() {
    let code = Program::compile(vec![]);
    assert_eq!(code.len(), 28);
    let mut expected = PROLOGUE.to_vec();
    expected.extend_from_slice(&EPILOGUE);
    assert_eq!(code, expected);
}

#[test]
fn increment_bytes() {
    let code = Program::compile(vec![Instruction::Increment(2)]);
    let mut expected = PROLOGUE.to_vec();
    expected.extend_from_slice(&[
        0x0b, 0x01, 0x09, 0x8b, // add  x11, x8, x9
        0x6a, 0x01, 0x40, 0x39, // ldrb w10, [x11]
        0x4a, 0x09, 0x00, 0x11, // add  w10, w10, #2
        0x6a, 0x01, 0x00, 0x39, // strb w10, [x11]
    ]);
    expected.extend_from_slice(&EPILOGUE);
    assert_eq!(code, expected);
}

#[test]
fn negative_increment_masks_to_twelve_bits() {
    let code = Program::compile(vec![Instruction::Increment(-1)]);
    // -1 masked to 12 bits is 0xfff
    let word = 0x1100014au32 + 0xfff * 0x400;
    assert_eq!(&code[24..28], &word.to_le_bytes());
}

#[test]
fn output_uses_fd_one_and_syscall_four() {
    let code = Program::compile(vec![Instruction::Output]);
    // mov w0, #1 before the write syscall
    assert_eq!(&code[16..20], &[0x20, 0x00, 0x80, 0x52]);
    assert_eq!(&code[28..32], &[0x90, 0x00, 0x80, 0x52]);
    assert_eq!(&code[32..36], &[0x01, 0x10, 0x00, 0xd4]);
}

#[test]
fn input_uses_fd_zero_and_syscall_three() {
    let code = Program::compile(vec![Instruction::Input]);
    // mov w0, #0 before the read syscall
    assert_eq!(&code[16..20], &[0x00, 0x00, 0x80, 0x52]);
    assert_eq!(&code[28..32], &[0x70, 0x00, 0x80, 0x52]);
    assert_eq!(&code[32..36], &[0x01, 0x10, 0x00, 0xd4]);
}

#[test]
fn move_right_bytes() {
    let code = Program::compile(vec![Instruction::Move(1)]);
    let mut expected = PROLOGUE.to_vec();
    expected.extend_from_slice(&[
        0x2a, 0x05, 0x00, 0x91, // add  x10, x9, #1
        0x0c, 0xa6, 0x8e, 0xd2, // mov  x12, #30000
        0x4b, 0x01, 0x0c, 0xeb, // subs x11, x10, x12
        0x69, 0x21, 0x8a, 0x9a, // csel x9, x11, x10, hs
    ]);
    expected.extend_from_slice(&EPILOGUE);
    assert_eq!(code, expected);
}

#[test]
fn move_left_bytes() {
    let code = Program::compile(vec![Instruction::Move(-1)]);
    let mut expected = PROLOGUE.to_vec();
    expected.extend_from_slice(&[
        0x2a, 0x05, 0x00, 0xf1, // subs x10, x9, #1
        0x0c, 0xa6, 0x8e, 0xd2, // mov  x12, #30000
        0x4b, 0x01, 0x0c, 0x8b, // add  x11, x10, x12
        0x69, 0xb1, 0x8a, 0x9a, // csel x9, x11, x10, lt
    ]);
    expected.extend_from_slice(&EPILOGUE);
    assert_eq!(code, expected);
}

#[test]
fn clear_bytes() {
    let code = Program::compile(vec![Instruction::Clear]);
    assert_eq!(code.len(), 32);
    assert_eq!(&code[16..20], &[0x1f, 0x69, 0x29, 0x38]); // strb wzr, [x8, x9]
}

#[test]
fn addto_bytes() {
    let code = Program::compile(vec![Instruction::AddTo(1)]);
    let mut expected = PROLOGUE.to_vec();
    expected.extend_from_slice(&[
        0x2a, 0x05, 0x00, 0x91, // add  x10, x9, #1
        0x0c, 0xa6, 0x8e, 0xd2, // mov  x12, #30000
        0x4b, 0x01, 0x0c, 0xeb, // subs x11, x10, x12
        0x6b, 0x21, 0x8a, 0x9a, // csel x11, x11, x10, hs
        0x0a, 0x69, 0x69, 0x38, // ldrb w10, [x8, x9]
        0x0c, 0x69, 0x6b, 0x38, // ldrb w12, [x8, x11]
        0x4a, 0x01, 0x0c, 0x0b, // add  w10, w10, w12
        0x0a, 0x69, 0x2b, 0x38, // strb w10, [x8, x11]
        0x1f, 0x69, 0x29, 0x38, // strb wzr, [x8, x9]
    ]);
    expected.extend_from_slice(&EPILOGUE);
    assert_eq!(code, expected);
}

#[test]
fn loop_branch_offsets() {
    let ir = Program::parse(b"+[]").unwrap();
    let code = Program::compile(ir);
    assert_eq!(code.len(), 68);
    // forward branch: b.eq over the LoopEnd, imm19 = 4 instruction words
    assert_eq!(&code[32..44], &[
        0x0a, 0x69, 0x69, 0x38, // ldrb w10, [x8, x9]
        0x5f, 0x01, 0x0a, 0x6a, // tst  w10, w10
        0x80, 0x00, 0x00, 0x54, // b.eq +16
    ]);
    // backward branch: b.ne with a negative offset masked to 19 bits
    assert_eq!(&code[44..56], &[
        0x0a, 0x69, 0x69, 0x38, // ldrb w10, [x8, x9]
        0x5f, 0x01, 0x0a, 0x6a, // tst  w10, w10
        0xc1, 0xff, 0xff, 0x54, // b.ne -8
    ]);
}

#[test]
fn emitted_length_is_fixed_overhead_plus_variant_sizes() {
    let sources: [&[u8]; 5] = [b"", b"++.", b"+[]", b"[->+<]", b"[-],[.,]"];
    for src in sources.iter() {
        let ir = Program::parse(src).unwrap();
        let mut sum: usize = 0;
        for ix in ir.iter() {
            sum += ix.code_len();
        }
        let code = Program::compile(ir);
        assert_eq!(code.len(), 28 + sum);
    }
}

#[test]
fn variant_sizes() {
    assert_eq!(Instruction::Increment(5).code_len(), 16);
    assert_eq!(Instruction::Move(-2).code_len(), 16);
    assert_eq!(Instruction::Input.code_len(), 20);
    assert_eq!(Instruction::Output.code_len(), 20);
    assert_eq!(Instruction::LoopStart(0).code_len(), 12);
    assert_eq!(Instruction::LoopEnd(0).code_len(), 12);
    assert_eq!(Instruction::Clear.code_len(), 4);
    assert_eq!(Instruction::AddTo(3).code_len(), 36);
}

#[test]
fn b_eq_word_forward() {
    assert_eq!(bf_jit::codegen::aarch64_b_eq_ix(16), 0x54000080);
}

#[test]
fn b_eq_word_backward() {
    // -8 bytes is -2 instruction words, masked into the 19-bit field
    assert_eq!(bf_jit::codegen::aarch64_b_eq_ix(-8), 0x54ffffc0);
}

#[test]
fn move_instr_codes_selects_destination_register() {
    // only the final conditional select names the destination register
    let for_move = Program::move_instr_codes(1, 9);
    let for_addto = Program::move_instr_codes(1, 11);
    assert_eq!(&for_move[..12], &for_addto[..12]);
    assert_eq!(for_move[12], 0x69);
    assert_eq!(for_addto[12], 0x6b);
    let left_move = Program::move_instr_codes(-1, 9);
    let left_addto = Program::move_instr_codes(-1, 11);
    assert_eq!(&left_move[..12], &left_addto[..12]);
    assert_eq!(left_move[12], 0x69);
    assert_eq!(left_addto[12], 0x6b);
}

#[test]
fn cancelled_run_keeps_loop_offsets_consistent() {
    // a run that folds away contributes no code bytes, so the loop's
    // offsets are those of the bare `[]`
    let ir = Program::parse(b"+-[]").unwrap();
    assert_eq!(ir, vec![Instruction::LoopStart(28), Instruction::LoopEnd(16)]);
    assert_eq!(Program::parse(b"[]").unwrap(), ir);
    let code = Program::compile(ir);
    assert_eq!(code.len(), 52);
    // b.eq skips the LoopEnd block and lands on the epilogue at byte 40
    assert_eq!(&code[24..28], &[0x80, 0x00, 0x00, 0x54]);
    // b.ne returns into the loop check
    assert_eq!(&code[36..40], &[0xc1, 0xff, 0xff, 0x54]);
}

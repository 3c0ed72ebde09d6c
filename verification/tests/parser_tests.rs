use bf_jit::{Instruction, Program, UnbalancedBrackets};

#[test]
fn empty_source_gives_empty_ir() {
    let ir = Program::parse(b"").unwrap();
    assert_eq!(ir, vec![]);
}

#[test]
fn comments_are_skipped() {
    let ir = Program::parse(b"hello world!\n").unwrap();
    assert_eq!(ir, vec![]);
}

#[test]
fn increments_fold() {
    let ir = Program::parse(b"+++").unwrap();
    assert_eq!(ir, vec![Instruction::Increment(3)]);
    let ir = Program::parse(b"++--+").unwrap();
    assert_eq!(ir, vec![Instruction::Increment(1)]);
    let ir = Program::parse(b"--").unwrap();
    assert_eq!(ir, vec![Instruction::Increment(-2)]);
}

#[test]
fn zero_sum_increment_run_gives_no_ir() {
    assert_eq!(Program::parse(b"+-").unwrap(), vec![]);
    assert_eq!(Program::parse(b"-+").unwrap(), vec![]);
    assert_eq!(Program::parse(b"++--").unwrap(), vec![]);
    assert_eq!(Program::parse(b"+--+").unwrap(), vec![]);
}

#[test]
fn moves_fold() {
    let ir = Program::parse(b">>>").unwrap();
    assert_eq!(ir, vec![Instruction::Move(3)]);
    let ir = Program::parse(b"><<").unwrap();
    assert_eq!(ir, vec![Instruction::Move(-1)]);
}

#[test]
fn zero_sum_move_run_gives_no_ir() {
    assert_eq!(Program::parse(b"<>").unwrap(), vec![]);
    assert_eq!(Program::parse(b"><").unwrap(), vec![]);
    assert_eq!(Program::parse(b">><<").unwrap(), vec![]);
    assert_eq!(Program::parse(b"><<>").unwrap(), vec![]);
}

#[test]
fn io_commands() {
    let ir = Program::parse(b",.").unwrap();
    assert_eq!(ir, vec![Instruction::Input, Instruction::Output]);
}

#[test]
fn simple_loop_offsets() {
    // prologue is 16 bytes; Increment is 16; LoopStart and LoopEnd are 12
    let ir = Program::parse(b"+[]").unwrap();
    assert_eq!(
        ir,
        vec![
            Instruction::Increment(1),
            Instruction::LoopStart(44),
            Instruction::LoopEnd(32),
        ]
    );
}

#[test]
fn nested_loops_resolve() {
    let ir = Program::parse(b"[[]]").unwrap();
    assert_eq!(
        ir,
        vec![
            Instruction::LoopStart(52),
            Instruction::LoopStart(40),
            Instruction::LoopEnd(28),
            Instruction::LoopEnd(16),
        ]
    );
}

#[test]
fn clear_pattern_minus() {
    assert_eq!(Program::parse(b"[-]").unwrap(), vec![Instruction::Clear]);
}

#[test]
fn clear_pattern_plus() {
    assert_eq!(Program::parse(b"[+]").unwrap(), vec![Instruction::Clear]);
}

#[test]
fn clear_pattern_triple() {
    // delta 3 is odd, so the loop still zeroes the cell
    assert_eq!(Program::parse(b"[---]").unwrap(), vec![Instruction::Clear]);
}

#[test]
fn even_delta_loop_is_not_clear() {
    let ir = Program::parse(b"[--]").unwrap();
    assert_eq!(
        ir,
        vec![
            Instruction::LoopStart(44),
            Instruction::Increment(-2),
            Instruction::LoopEnd(16),
        ]
    );
}

#[test]
fn addto_pattern() {
    assert_eq!(Program::parse(b"[->+<]").unwrap(), vec![Instruction::AddTo(1)]);
}

#[test]
fn addto_pattern_wide() {
    assert_eq!(Program::parse(b"[->>>+<<<]").unwrap(), vec![Instruction::AddTo(3)]);
}

#[test]
fn addto_pattern_backwards() {
    assert_eq!(Program::parse(b"[-<+>]").unwrap(), vec![Instruction::AddTo(-1)]);
}

#[test]
fn five_window_mismatch_is_not_addto() {
    let ir = Program::parse(b"[->+>+<<]").unwrap();
    assert_eq!(
        ir,
        vec![
            Instruction::LoopStart(124),
            Instruction::Increment(-1),
            Instruction::Move(1),
            Instruction::Increment(1),
            Instruction::Move(1),
            Instruction::Increment(1),
            Instruction::Move(-2),
            Instruction::LoopEnd(16),
        ]
    );
}

#[test]
fn unmatched_close_bracket() {
    match Program::parse(b"]") {
        Err(UnbalancedBrackets(c, pos)) => {
            assert_eq!(c, ']');
            assert_eq!(pos, 0);
        },
        Ok(_) => panic!("expected an unbalanced-bracket error"),
    }
}

#[test]
fn unmatched_open_bracket() {
    match Program::parse(b"[[]") {
        Err(UnbalancedBrackets(c, pos)) => {
            assert_eq!(c, '[');
            assert_eq!(pos, 0);
        },
        Ok(_) => panic!("expected an unbalanced-bracket error"),
    }
}

#[test]
fn close_before_open_reports_the_close() {
    match Program::parse(b"][") {
        Err(UnbalancedBrackets(c, pos)) => {
            assert_eq!(c, ']');
            assert_eq!(pos, 0);
        },
        Ok(_) => panic!("expected an unbalanced-bracket error"),
    }
}

#[test]
fn balanced_sources_parse() {
    assert!(Program::parse(b"[[][]]").is_ok());
    assert!(Program::parse(b"a[b]c[[x]]").is_ok());
    assert!(Program::parse(b"[->+<][.,]").is_ok());
}

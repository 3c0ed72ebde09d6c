//! The intermediate representation: a closed set of tagged instruction
//! variants, each with a fixed native-code emission size in bytes.

use vstd::prelude::*;

verus! {

/// One IR instruction of the optimized Brainfuck program.
///
/// `Increment(d)` adds `d` to the current tape cell (mod 256).
/// `Move(s)` moves the cell pointer by `s`, wrapping modulo 30000.
/// `Input` reads one byte into the current cell; `Output` writes it.
/// `LoopStart(end)` jumps to absolute code offset `end` if the cell is zero;
/// `LoopEnd(start)` jumps back to absolute code offset `start` if it is not.
/// `Clear` zeroes the current cell; `AddTo(n)` adds the current cell into the
/// cell `n` places away and zeroes the current cell.
#[derive(Clone, Copy, Debug, PartialEq, Eq)]
pub enum Instruction {
    Increment(i64),
    Move(isize),
    Input,
    Output,
    LoopStart(usize),
    LoopEnd(usize),
    Clear,
    AddTo(isize),
}

/// Number of native-code bytes that compiling one instruction emits.
pub open spec fn ix_len(ix: Instruction) -> int {
    match ix {
        Instruction::Increment(_) => 16,
        Instruction::Move(_) => 16,
        Instruction::Input => 20,
        Instruction::Output => 20,
        Instruction::LoopStart(_) => 12,
        Instruction::LoopEnd(_) => 12,
        Instruction::Clear => 4,
        Instruction::AddTo(_) => 36,
    }
}

/// Total number of native-code bytes that compiling a whole IR sequence
/// emits, not counting the fixed prologue and epilogue.
pub open spec fn code_sum(ir: Seq<Instruction>) -> int
    decreases ir.len(),
{
    if ir.len() == 0 {
        0
    } else {
        code_sum(ir.drop_last()) + ix_len(ir.last())
    }
}

pub proof fn lemma_code_sum_nonneg(ir: Seq<Instruction>)
    ensures
        code_sum(ir) >= 0,
    decreases ir.len(),
{
    if ir.len() > 0 {
        lemma_code_sum_nonneg(ir.drop_last());
    }
}

pub proof fn lemma_code_sum_push(ir: Seq<Instruction>, ix: Instruction)
    ensures
        code_sum(ir.push(ix)) == code_sum(ir) + ix_len(ix),
{
    assert(ir.push(ix).drop_last() =~= ir);
    assert(ir.push(ix).last() == ix);
}

pub proof fn lemma_code_sum_update(ir: Seq<Instruction>, i: int, ix: Instruction)
    requires
        0 <= i < ir.len(),
    ensures
        code_sum(ir.update(i, ix)) == code_sum(ir) - ix_len(ir[i]) + ix_len(ix),
    decreases ir.len(),
{
    let u = ir.update(i, ix);
    if i == ir.len() - 1 {
        assert(u.drop_last() =~= ir.drop_last());
        assert(u.last() == ix);
    } else {
        assert(u.drop_last() =~= ir.drop_last().update(i, ix));
        assert(u.last() == ir.last());
        lemma_code_sum_update(ir.drop_last(), i, ix);
    }
}

impl Instruction {
    /// The emission size of this instruction variant.
    pub fn code_len(&self) -> (n: usize)
        ensures
            n == ix_len(*self),
    {
        match self {
            Instruction::Increment(_) => 16,
            Instruction::Move(_) => 16,
            Instruction::Input => 20,
            Instruction::Output => 20,
            Instruction::LoopStart(_) => 12,
            Instruction::LoopEnd(_) => 12,
            Instruction::Clear => 4,
            Instruction::AddTo(_) => 36,
        }
    }
}

} // verus!

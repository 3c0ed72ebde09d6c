//! The code generator: walks the IR and emits little-endian 32-bit AArch64
//! instruction words into a growing byte buffer, between a fixed prologue
//! and epilogue. Branch offsets are resolved as the words are emitted, in
//! instruction units, relative to the start of the emitting instruction
//! group plus four bytes.

use vstd::prelude::*;

use crate::ir::{code_sum, lemma_code_sum_push, Instruction};
use crate::program::Program;

verus! {

/// The four bytes of one instruction word, least-significant byte first.
pub open spec fn le4(w: u32) -> Seq<u8> {
    seq![
        (w % 0x100) as u8,
        ((w / 0x100) % 0x100) as u8,
        ((w / 0x10000) % 0x100) as u8,
        ((w / 0x1000000) % 0x100) as u8,
    ]
}

/// The low 12 bits of `v` in two's complement: the unsigned immediate field
/// an add/sub instruction carries.
pub open spec fn low12(v: int) -> u32 {
    (v % 0x1000) as u32
}

/// The 19-bit branch immediate for a branch whose target lies `delta` bytes
/// ahead: bits 2 through 20 of `delta` in two's complement, in units of one
/// instruction word.
pub open spec fn imm19(delta: int) -> u32 {
    ((delta % 0x200000) / 4) as u32
}

/// A conditional-branch word: opcode `0x54` in the top byte, the immediate
/// shifted into bits 5..24, and the condition in the low nibble (0 for eq,
/// 1 for ne).
pub open spec fn branch_word(cond: u32, delta: int) -> u32 {
    (0x54000000 + imm19(delta) * 0x20 + cond) as u32
}

/// Reserve a 16-byte frame, save the frame and link registers, copy the tape
/// base from x0 into x8, and zero the cell pointer x9.
pub open spec fn spec_prologue() -> Seq<u8> {
    le4(0xd10043ff) + le4(0xa9007bfd) + le4(0xaa0003e8) + le4(0xd2800009)
}

/// Restore the frame and link registers, release the frame, and return.
pub open spec fn spec_epilogue() -> Seq<u8> {
    le4(0xa9407bfd) + le4(0x910043ff) + le4(0xd65f03c0)
}

/// The 16 bytes that add `n` to the cell pointer and reduce the result
/// modulo the 30000-cell tape length, leaving it in the register `rd`
/// selects: x9 for `Move`, the scratch x11 for `AddTo`. Forward, the sum is
/// wrapped when it reaches the tape length; backward, the difference is
/// wrapped when it goes below zero. The flags set by the first word drive
/// the final conditional select; the loaded constant and the plain add do
/// not touch them.
pub open spec fn move_words(n: int, rd: u32) -> Seq<u8> {
    if n > 0 {
        // add x10, x9, #n ; mov x12, #30000 ; subs x11, x10, x12
        // csel rd, x11, x10, hs
        le4((0x9100012a + low12(n) * 0x400) as u32) + le4(0xd28ea60c) + le4(0xeb0c014b) + le4(
            (0x9a8a2160 + rd) as u32,
        )
    } else {
        // subs x10, x9, #n ; mov x12, #30000 ; add x11, x10, x12
        // csel rd, x11, x10, lt
        le4((0xf100012a + low12(-n) * 0x400) as u32) + le4(0xd28ea60c) + le4(0x8b0c014b) + le4(
            (0x9a8ab160 + rd) as u32,
        )
    }
}

/// The bytes one IR instruction emits when it starts at code offset `pos`.
pub open spec fn spec_emit(ix: Instruction, pos: int) -> Seq<u8> {
    match ix {
        Instruction::Increment(v) => le4(0x8b09010b) + le4(0x3940016a) + le4(
            (0x1100014a + low12(v as int) * 0x400) as u32,
        ) + le4(0x3900016a),
        Instruction::Move(s) => move_words(s as int, 9),
        Instruction::Input => le4(0x52800000) + le4(0x8b090101) + le4(0xd2800022) + le4(0x52800070)
            + le4(0xd4001001),
        Instruction::Output => le4(0x52800020) + le4(0x8b090101) + le4(0xd2800022) + le4(
            0x52800090,
        ) + le4(0xd4001001),
        Instruction::LoopStart(end) => le4(0x3869690a) + le4(0x6a0a015f) + le4(
            branch_word(0, end - pos + 4),
        ),
        Instruction::LoopEnd(start) => le4(0x3869690a) + le4(0x6a0a015f) + le4(
            branch_word(1, start - pos + 4),
        ),
        Instruction::Clear => le4(0x3829691f),
        Instruction::AddTo(n) => move_words(n as int, 11) + le4(0x3869690a) + le4(0x386b690c)
            + le4(0x0b0c014a) + le4(0x382b690a) + le4(0x3829691f),
    }
}

/// The bytes a whole IR sequence emits when its first instruction starts at
/// code offset `pos`.
pub open spec fn spec_body(ir: Seq<Instruction>, pos: int) -> Seq<u8>
    decreases ir.len(),
{
    if ir.len() == 0 {
        Seq::empty()
    } else {
        spec_body(ir.drop_last(), pos) + spec_emit(
            ir.last(),
            pos + code_sum(ir.drop_last()),
        )
    }
}

/// Everything compiling an IR sequence emits: prologue, body, epilogue.
pub open spec fn spec_compile(ir: Seq<Instruction>) -> Seq<u8> {
    spec_prologue() + spec_body(ir, 16) + spec_epilogue()
}

/// Append one instruction word to the buffer, least-significant byte first.
fn push_word(code: &mut Vec<u8>, w: u32)
    ensures
        final(code)@ == old(code)@ + le4(w),
{
    code.push((w % 0x100) as u8);
    code.push(((w / 0x100) % 0x100) as u8);
    code.push(((w / 0x10000) % 0x100) as u8);
    code.push(((w / 0x1000000) % 0x100) as u8);
    proof {
        assert(code@ =~= old(code)@ + le4(w));
    }
}

/// The low 12 bits of `v` in two's complement.
fn low12_of(v: i64) -> (r: u32)
    ensures
        r == low12(v as int),
        r <= 0xfff,
{
    if v >= 0 {
        ((v as u64) % 0x1000) as u32
    } else {
        let x = u64::MAX - ((-(v + 1)) as u64);
        proof {
            assert(x as int == 0x10000000000000000 + v);
            vstd::arithmetic::div_mod::lemma_mod_multiples_vanish(
                0x10000000000000,
                v as int,
                0x1000,
            );
        }
        (x % 0x1000) as u32
    }
}

/// The low 12 bits of `-v` in two's complement, for `v <= 0`.
fn low12_neg_of(v: i64) -> (r: u32)
    requires
        v <= 0,
    ensures
        r == low12(-(v as int)),
        r <= 0xfff,
{
    if v == 0 {
        0
    } else {
        let mag = -(v + 1);
        ((((mag as u64) + 1) % 0x1000) as u32)
    }
}

/// The branch immediate for a jump from code offset `pos` to code offset
/// `target`, measured from four bytes past `pos`.
fn imm19_of(target: usize, pos: usize) -> (r: u32)
    ensures
        r == imm19(target - pos + 4),
        r <= 0x7ffff,
{
    let t = (target as u64) % 0x200000;
    let p = (pos as u64) % 0x200000;
    let d = (t + 0x200000 + 4 - p) % 0x200000;
    proof {
        vstd::arithmetic::div_mod::lemma_fundamental_div_mod(target as int, 0x200000);
        vstd::arithmetic::div_mod::lemma_fundamental_div_mod(pos as int, 0x200000);
        vstd::arithmetic::div_mod::lemma_mod_multiples_vanish(
            (target as int) / 0x200000 - (pos as int) / 0x200000,
            t - p + 4,
            0x200000,
        );
        vstd::arithmetic::div_mod::lemma_mod_multiples_vanish(1, t - p + 4, 0x200000);
    }
    (d / 4) as u32
}

/// The b.eq word for a branch `offset` bytes ahead of the emitting group:
/// `offset` is shifted into instruction units, masked to 19 bits, shifted
/// into the immediate field, and combined with opcode `0x54`.
pub fn aarch64_b_eq_ix(offset: isize) -> (r: u32)
    ensures
        r == branch_word(0, offset as int),
{
    let v = offset as i64;
    let m: u64;
    if v >= 0 {
        m = (v as u64) % 0x200000;
    } else {
        let x = u64::MAX - ((-(v + 1)) as u64);
        proof {
            assert(x as int == 0x10000000000000000 + v);
            vstd::arithmetic::div_mod::lemma_mod_multiples_vanish(
                0x80000000000,
                v as int,
                0x200000,
            );
        }
        m = x % 0x200000;
    }
    0x54000000u32 + ((m / 4) as u32) * 0x20
}

impl Program {
    /// The 16 bytes that move the cell pointer by `n` and reduce it modulo
    /// the tape length, leaving the result in the register `rd` selects (x9
    /// for `Move`, x11 for `AddTo`): an add or sub of the 12-bit immediate
    /// setting the flags, the tape length as a constant, the wrapped
    /// alternative, and a conditional select between the two.
    pub fn move_instr_codes(n: isize, rd: u8) -> (r: Vec<u8>)
        ensures
            r@ == move_words(n as int, rd as u32),
    {
        let mut code: Vec<u8> = Vec::new();
        if n > 0 {
            let lo = low12_of(n as i64);
            push_word(&mut code, 0x9100012au32 + lo * 0x400);
            push_word(&mut code, 0xd28ea60c);
            push_word(&mut code, 0xeb0c014b);
            push_word(&mut code, 0x9a8a2160u32 + rd as u32);
        } else {
            let lo = low12_neg_of(n as i64);
            push_word(&mut code, 0xf100012au32 + lo * 0x400);
            push_word(&mut code, 0xd28ea60c);
            push_word(&mut code, 0x8b0c014b);
            push_word(&mut code, 0x9a8ab160u32 + rd as u32);
        }
        proof {
            assert(code@ =~= move_words(n as int, rd as u32));
        }
        code
    }

    /// Walk the IR once and emit its native code: the fixed prologue, each
    /// instruction's words at its running code offset, and the fixed
    /// epilogue. The result's length is exactly the 28 fixed bytes plus the
    /// sum of the per-variant sizes.
    #[verifier::rlimit(100)]
    #[verifier::spinoff_prover]
    pub fn compile(instructions: Vec<Instruction>) -> (code: Vec<u8>)
        ensures
            code@ == spec_compile(instructions@),
            code@.len() == 28 + code_sum(instructions@),
    {
        let mut code: Vec<u8> = Vec::new();
        push_word(&mut code, 0xd10043ff);
        push_word(&mut code, 0xa9007bfd);
        push_word(&mut code, 0xaa0003e8);
        push_word(&mut code, 0xd2800009);
        proof {
            assert(code@ =~= spec_prologue());
            assert(instructions@.take(0) =~= Seq::<Instruction>::empty());
        }
        let n = instructions.len();
        let mut idx: usize = 0;
        while idx < n
            invariant
                n == instructions@.len(),
                idx <= n,
                code@ == spec_prologue() + spec_body(instructions@.take(idx as int), 16),
                code@.len() == 16 + code_sum(instructions@.take(idx as int)),
            decreases n - idx,
        {
            let ix = instructions[idx];
            let ghost taken = instructions@.take(idx as int);
            match ix {
                Instruction::Increment(v) => {
                    let lo = low12_of(v);
                    push_word(&mut code, 0x8b09010b);
                    push_word(&mut code, 0x3940016a);
                    push_word(&mut code, 0x1100014au32 + lo * 0x400);
                    push_word(&mut code, 0x3900016a);
                },
                Instruction::Move(s) => {
                    let mut w = Program::move_instr_codes(s, 9);
                    code.append(&mut w);
                },
                Instruction::Input => {
                    push_word(&mut code, 0x52800000);
                    push_word(&mut code, 0x8b090101);
                    push_word(&mut code, 0xd2800022);
                    push_word(&mut code, 0x52800070);
                    push_word(&mut code, 0xd4001001);
                },
                Instruction::Output => {
                    push_word(&mut code, 0x52800020);
                    push_word(&mut code, 0x8b090101);
                    push_word(&mut code, 0xd2800022);
                    push_word(&mut code, 0x52800090);
                    push_word(&mut code, 0xd4001001);
                },
                Instruction::LoopStart(end) => {
                    let imm = imm19_of(end, code.len());
                    push_word(&mut code, 0x3869690a);
                    push_word(&mut code, 0x6a0a015f);
                    push_word(&mut code, 0x54000000u32 + imm * 0x20);
                },
                Instruction::LoopEnd(start) => {
                    let imm = imm19_of(start, code.len());
                    push_word(&mut code, 0x3869690a);
                    push_word(&mut code, 0x6a0a015f);
                    push_word(&mut code, 0x54000001u32 + imm * 0x20);
                },
                Instruction::Clear => {
                    push_word(&mut code, 0x3829691f);
                },
                Instruction::AddTo(s) => {
                    let mut w = Program::move_instr_codes(s, 11);
                    code.append(&mut w);
                    push_word(&mut code, 0x3869690a);
                    push_word(&mut code, 0x386b690c);
                    push_word(&mut code, 0x0b0c014a);
                    push_word(&mut code, 0x382b690a);
                    push_word(&mut code, 0x3829691f);
                },
            }
            proof {
                let next = instructions@.take(idx as int + 1);
                assert(next =~= taken.push(ix));
                assert(next.drop_last() =~= taken);
                assert(next.last() == ix);
                lemma_code_sum_push(taken, ix);
                assert(code@ =~= spec_prologue() + spec_body(next, 16));
            }
            idx = idx + 1;
        }
        proof {
            assert(instructions@.take(n as int) =~= instructions@);
        }
        push_word(&mut code, 0xa9407bfd);
        push_word(&mut code, 0x910043ff);
        push_word(&mut code, 0xd65f03c0);
        proof {
            assert(code@ =~= spec_compile(instructions@));
        }
        code
    }
}

} // verus!

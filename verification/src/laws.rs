//! Laws of the pipeline, stated over the parser's and code generator's
//! mathematical models: bracket accounting, the folding of cancelled runs,
//! and determinism.

use vstd::prelude::*;

use crate::codegen::spec_compile;
use crate::ir::Instruction;
use crate::parse_spec::{init_state, run_parse, spec_parse, step, ParseState, B_CLOSE, B_MINUS,
    B_OPEN, B_PLUS, B_RIGHT, B_LEFT};

verus! {

/// How one byte changes the bracket nesting depth.
pub open spec fn bracket_delta(c: u8) -> int {
    if c == B_OPEN {
        1int
    } else if c == B_CLOSE {
        -1int
    } else {
        0int
    }
}

/// Count of `[` minus count of `]` over the whole sequence.
pub open spec fn depth(s: Seq<u8>) -> int
    decreases s.len(),
{
    if s.len() == 0 {
        0
    } else {
        bracket_delta(s[0]) + depth(s.drop_first())
    }
}

/// Every prefix keeps `base` plus its depth non-negative: no `]` ever closes
/// more than what is open.
pub open spec fn prefixes_ok(s: Seq<u8>, base: int) -> bool {
    forall|m: int| 0 <= m <= s.len() ==> base + depth(#[trigger] s.take(m)) >= 0
}

/// Balanced brackets: no prefix closes too much, and everything opened is
/// closed by the end.
pub open spec fn balanced(s: Seq<u8>) -> bool {
    depth(s) == 0 && prefixes_ok(s, 0)
}

/// How many times the byte `c` occurs in `s`.
pub open spec fn count_byte(s: Seq<u8>, c: u8) -> int
    decreases s.len(),
{
    if s.len() == 0 {
        0
    } else {
        (if s[0] == c {
            1int
        } else {
            0int
        }) + count_byte(s.drop_first(), c)
    }
}

proof fn lemma_depth_counts(s: Seq<u8>)
    ensures
        depth(s) == count_byte(s, B_OPEN) - count_byte(s, B_CLOSE),
    decreases s.len(),
{
    if s.len() > 0 {
        lemma_depth_counts(s.drop_first());
    }
}

proof fn lemma_depth_take_step(s: Seq<u8>, m: int)
    requires
        s.len() > 0,
        1 <= m <= s.len(),
    ensures
        depth(s.take(m)) == bracket_delta(s[0]) + depth(s.drop_first().take(m - 1)),
{
    assert(s.take(m)[0] == s[0]);
    assert(s.take(m).drop_first() =~= s.drop_first().take(m - 1));
}

/// The fold succeeds exactly while no prefix closes more brackets than are
/// open, and on success the stack's length tracks the nesting depth.
proof fn lemma_run_parse_stack(st: ParseState, s: Seq<u8>, i0: int)
    ensures
        (run_parse(st, s, i0) is Ok) <==> prefixes_ok(s, st.stack.len() as int),
        run_parse(st, s, i0) matches Ok(st2) ==> st2.stack.len()
            == st.stack.len() + depth(s),
    decreases s.len(),
{
    let base = st.stack.len() as int;
    if s.len() == 0 {
        assert(s.take(0) =~= s);
    } else {
        let c = s[0];
        let rest = s.drop_first();
        assert forall|m: int| 1 <= m <= s.len() implies depth(#[trigger] s.take(m))
            == bracket_delta(c) + depth(rest.take(m - 1)) by {
            lemma_depth_take_step(s, m);
        }
        assert(s.take(0) =~= Seq::<u8>::empty());
        if c == B_CLOSE && st.stack.len() == 0 {
            assert(run_parse(st, s, i0) is Err);
            assert(s.take(1).drop_first() =~= Seq::<u8>::empty());
            assert(depth(s.take(1)) == -1);
            assert(!prefixes_ok(s, base));
        } else {
            match step(st, c, i0) {
                Ok(st2) => {
                    assert(st2.stack.len() as int == base + bracket_delta(c));
                    lemma_run_parse_stack(st2, rest, i0 + 1);
                    if run_parse(st, s, i0) is Ok {
                        assert forall|m: int| 0 <= m <= s.len() implies base + depth(
                            #[trigger] s.take(m),
                        ) >= 0 by {
                            if m >= 1 {
                                assert(base + bracket_delta(c) + depth(rest.take(m - 1)) >= 0);
                            }
                        }
                    }
                    if prefixes_ok(s, base) {
                        assert forall|m: int| 0 <= m <= rest.len() implies (base
                            + bracket_delta(c)) + depth(#[trigger] rest.take(m)) >= 0 by {
                            assert(base + depth(s.take(m + 1)) >= 0);
                        }
                        assert(prefixes_ok(rest, base + bracket_delta(c)));
                    }
                },
                Err(_) => {
                    assert(false);
                },
            }
        }
    }
}

/// For any source whose brackets are balanced, parsing succeeds.
pub proof fn lemma_balanced_parse_ok(s: Seq<u8>)
    requires
        balanced(s),
    ensures
        spec_parse(s) is Ok,
{
    lemma_parse_ok_iff_balanced(s);
}

/// Bracket accounting: parsing succeeds exactly on balanced sources; when
/// the scan itself never fails, the bracket stack is empty at end of parse
/// iff the source is balanced; and a successfully parsed source holds as
/// many `[` as `]`.
pub proof fn lemma_parse_ok_iff_balanced(s: Seq<u8>)
    ensures
        (spec_parse(s) is Ok) <==> balanced(s),
        run_parse(init_state(), s, 0) matches Ok(st) ==> (st.stack.len() == 0 <==> depth(s)
            == 0),
        spec_parse(s) is Ok ==> count_byte(s, B_OPEN) == count_byte(s, B_CLOSE),
{
    lemma_run_parse_stack(init_state(), s, 0);
    lemma_depth_counts(s);
}

/// The `+`/`-` delta one byte contributes.
pub open spec fn inc_delta(c: u8) -> int {
    if c == B_PLUS {
        1int
    } else if c == B_MINUS {
        -1int
    } else {
        0int
    }
}

/// Net cell delta of a byte sequence.
pub open spec fn sum_inc(s: Seq<u8>) -> int
    decreases s.len(),
{
    if s.len() == 0 {
        0
    } else {
        inc_delta(s[0]) + sum_inc(s.drop_first())
    }
}

/// The `<`/`>` step one byte contributes.
pub open spec fn move_delta(c: u8) -> int {
    if c == B_RIGHT {
        1int
    } else if c == B_LEFT {
        -1int
    } else {
        0int
    }
}

/// Net pointer step of a byte sequence.
pub open spec fn sum_move(s: Seq<u8>) -> int
    decreases s.len(),
{
    if s.len() == 0 {
        0
    } else {
        move_delta(s[0]) + sum_move(s.drop_first())
    }
}

/// The IR that a partially folded `+`/`-` run stands as: nothing when the
/// running total is zero, a single `Increment` otherwise.
pub open spec fn merge_inc(base: Seq<Instruction>, v: int) -> Seq<Instruction> {
    if v == 0 {
        base
    } else {
        base.push(Instruction::Increment(v as i64))
    }
}

/// The IR that a partially folded `<`/`>` run stands as.
pub open spec fn merge_move(base: Seq<Instruction>, v: int) -> Seq<Instruction> {
    if v == 0 {
        base
    } else {
        base.push(Instruction::Move(v as isize))
    }
}

proof fn lemma_inc_run(st: ParseState, s: Seq<u8>, i0: int, base: Seq<Instruction>, v: int)
    requires
        forall|j: int| 0 <= j < s.len() ==> s[j] == B_PLUS || s[j] == B_MINUS,
        st.insts == merge_inc(base, v),
        base.len() > 0 ==> !(base.last() is Increment),
        -(i64::MAX - s.len()) <= v <= i64::MAX - s.len(),
    ensures
        run_parse(st, s, i0) matches Ok(st2) && st2.insts == merge_inc(base, v + sum_inc(s))
            && st2.stack == st.stack,
    decreases s.len(),
{
    if s.len() == 0 {
    } else {
        let c = s[0];
        let rest = s.drop_first();
        let inc: int = if c == B_PLUS {
            1int
        } else {
            -1int
        };
        match step(st, c, i0) {
            Ok(st2) => {
                if v == 0 {
                    assert(st.insts == base);
                    assert(st2.insts =~= base.push(Instruction::Increment(inc as i64)));
                    assert(st2.insts == merge_inc(base, v + inc));
                } else {
                    assert(st.insts.last() == Instruction::Increment(v as i64));
                    if v + inc == 0 {
                        assert(st2.insts =~= base);
                        assert(st2.insts == merge_inc(base, v + inc));
                    } else {
                        assert(st2.insts =~= base.push(Instruction::Increment((v + inc) as i64)));
                        assert(st2.insts == merge_inc(base, v + inc));
                    }
                }
                assert(st2.stack == st.stack);
                lemma_inc_run(st2, rest, i0 + 1, base, v + inc);
            },
            Err(_) => {
                assert(false);
            },
        }
    }
}

proof fn lemma_move_run(st: ParseState, s: Seq<u8>, i0: int, base: Seq<Instruction>, v: int)
    requires
        forall|j: int| 0 <= j < s.len() ==> s[j] == B_RIGHT || s[j] == B_LEFT,
        st.insts == merge_move(base, v),
        base.len() > 0 ==> !(base.last() is Move),
        -(isize::MAX - s.len()) <= v <= isize::MAX - s.len(),
    ensures
        run_parse(st, s, i0) matches Ok(st2) && st2.insts == merge_move(base, v + sum_move(s))
            && st2.stack == st.stack,
    decreases s.len(),
{
    if s.len() == 0 {
    } else {
        let c = s[0];
        let rest = s.drop_first();
        let inc: int = if c == B_RIGHT {
            1int
        } else {
            -1int
        };
        match step(st, c, i0) {
            Ok(st2) => {
                if v == 0 {
                    assert(st.insts == base);
                    assert(st2.insts =~= base.push(Instruction::Move(inc as isize)));
                    assert(st2.insts == merge_move(base, v + inc));
                } else {
                    assert(st.insts.last() == Instruction::Move(v as isize));
                    if v + inc == 0 {
                        assert(st2.insts =~= base);
                        assert(st2.insts == merge_move(base, v + inc));
                    } else {
                        assert(st2.insts =~= base.push(Instruction::Move((v + inc) as isize)));
                        assert(st2.insts == merge_move(base, v + inc));
                    }
                }
                assert(st2.stack == st.stack);
                lemma_move_run(st2, rest, i0 + 1, base, v + inc);
            },
            Err(_) => {
                assert(false);
            },
        }
    }
}

/// Increment folding: a run of `+`/`-` totalling zero produces no IR at all.
pub proof fn lemma_zero_increment_run_no_ir(s: Seq<u8>)
    requires
        forall|j: int| 0 <= j < s.len() ==> s[j] == B_PLUS || s[j] == B_MINUS,
        sum_inc(s) == 0,
        s.len() <= i64::MAX,
    ensures
        spec_parse(s) == Ok::<Seq<Instruction>, (char, int)>(Seq::empty()),
{
    lemma_inc_run(init_state(), s, 0, Seq::empty(), 0);
}

/// Move folding: a run of `<`/`>` totalling zero produces no IR at all.
pub proof fn lemma_zero_move_run_no_ir(s: Seq<u8>)
    requires
        forall|j: int| 0 <= j < s.len() ==> s[j] == B_RIGHT || s[j] == B_LEFT,
        sum_move(s) == 0,
        s.len() <= isize::MAX,
    ensures
        spec_parse(s) == Ok::<Seq<Instruction>, (char, int)>(Seq::empty()),
{
    lemma_move_run(init_state(), s, 0, Seq::empty(), 0);
}

/// Determinism: the pipeline is a function of the source bytes alone, so
/// equal sources give equal IR and byte-identical emitted code.
pub proof fn lemma_pipeline_deterministic(
    s1: Seq<u8>,
    s2: Seq<u8>,
    ir1: Seq<Instruction>,
    ir2: Seq<Instruction>,
)
    requires
        s1 == s2,
        spec_parse(s1) == Ok::<Seq<Instruction>, (char, int)>(ir1),
        spec_parse(s2) == Ok::<Seq<Instruction>, (char, int)>(ir2),
    ensures
        ir1 == ir2,
        spec_compile(ir1) == spec_compile(ir2),
{
}

} // verus!

//! The executable parser/optimizer and the well-formedness facts that carry
//! it: every intermediate parse state keeps its IR payloads small, its
//! bracket stack pointing at `LoopStart` entries, and its code-length counter
//! equal to the prologue plus the bytes the IR compiles to.

use vstd::prelude::*;

use crate::ir::{code_sum, ix_len, lemma_code_sum_nonneg, lemma_code_sum_push,
    lemma_code_sum_update, Instruction};
use crate::parse_spec::{addto_payload, addto_window, clear_window, init_state,
    lemma_run_parse_append, lemma_run_parse_snoc,
    run_parse, spec_parse, step, ParseState,
    B_CLOSE, B_COMMA, B_DOT, B_LEFT, B_MINUS, B_OPEN, B_PLUS, B_RIGHT};
use crate::program::{Program, UnbalancedBrackets};

verus! {

/// Payload bounds after `n` source bytes: a folded run of `+`/`-` or `<`/`>`
/// can total at most `n` in magnitude and is dropped when it reaches zero.
pub open spec fn inst_bounded(ix: Instruction, n: int) -> bool {
    match ix {
        Instruction::Increment(v) => -n <= v && v <= n && v != 0,
        Instruction::Move(v) => -n <= v && v <= n && v != 0,
        _ => true,
    }
}

/// The parser folds adjacent increments and adjacent moves, so the IR never
/// holds two of the same next to each other.
pub open spec fn no_adjacent_runs(s: Seq<Instruction>) -> bool {
    forall|j: int| 0 <= j < s.len() - 1 ==> !((#[trigger] s[j]) is Increment && s[j + 1] is Increment)
        && !(s[j] is Move && s[j + 1] is Move)
}

/// Everything that holds of the parse state after `n` source bytes.
pub open spec fn wf_state(st: ParseState, n: int) -> bool {
    &&& st.insts.len() <= n
    &&& st.code_len == 16 + code_sum(st.insts)
    &&& st.code_len <= 16 + 20 * n
    &&& forall|k: int| 0 <= k < st.stack.len() ==> (#[trigger] st.stack[k]).1 < st.insts.len()
        && st.insts[st.stack[k].1 as int] is LoopStart
    &&& forall|k1: int, k2: int| 0 <= k1 < k2 < st.stack.len()
        ==> (#[trigger] st.stack[k1]).1 < (#[trigger] st.stack[k2]).1
    &&& forall|j: int| 0 <= j < st.insts.len() ==> inst_bounded(#[trigger] st.insts[j], n)
    &&& no_adjacent_runs(st.insts)
}

/// A source length that keeps the code-length counter within `usize` also
/// keeps every folded payload within `i64` and `isize`.
pub proof fn lemma_len_fits(n: int)
    requires
        0 <= n,
        16 + 20 * n <= usize::MAX,
    ensures
        n < i64::MAX,
        n < isize::MAX,
{
    assert(usize::MAX == u32::MAX || usize::MAX == u64::MAX);
    assert(usize::MAX == u32::MAX ==> isize::MAX == i32::MAX);
    assert(usize::MAX == u64::MAX ==> isize::MAX == i64::MAX);
}

pub proof fn lemma_wf_init()
    ensures
        wf_state(init_state(), 0),
{
}

/// One parse step keeps the state well-formed.
pub proof fn lemma_step_wf(st: ParseState, c: u8, i: int, n: int)
    requires
        wf_state(st, n),
        0 <= n,
        16 + 20 * (n + 1) <= usize::MAX,
    ensures
        match step(st, c, i) {
            Ok(st2) => wf_state(st2, n + 1),
            Err(_) => true,
        },
{
    if c == B_PLUS || c == B_MINUS || c == B_RIGHT || c == B_LEFT {
        lemma_step_wf_run(st, c, i, n);
    } else if c == B_CLOSE {
        lemma_step_wf_close(st, c, i, n);
    } else {
        lemma_step_wf_other(st, c, i, n);
    }
}

proof fn lemma_step_wf_run(st: ParseState, c: u8, i: int, n: int)
    requires
        wf_state(st, n),
        0 <= n,
        16 + 20 * (n + 1) <= usize::MAX,
        c == B_PLUS || c == B_MINUS || c == B_RIGHT || c == B_LEFT,
    ensures
        match step(st, c, i) {
            Ok(st2) => wf_state(st2, n + 1),
            Err(_) => true,
        },
{
    lemma_len_fits(n + 1);
    let l = st.insts.len() as int;
    if c == B_PLUS || c == B_MINUS {
        let inc: int = if c == B_PLUS { 1int } else { -1int };
        if l > 0 && st.insts.last() is Increment {
            assert(inst_bounded(st.insts[l - 1], n));
            let v = st.insts.last()->Increment_0 as int;
            if v + inc == 0 {
                let st2 = ParseState {
                    insts: st.insts.drop_last(),
                    code_len: (st.code_len - 16) as usize,
                    ..st
                };
                assert(code_sum(st.insts) == code_sum(st2.insts) + 16);
                lemma_code_sum_nonneg(st2.insts);
                assert forall|k: int| 0 <= k < st2.stack.len() implies
                    (#[trigger] st2.stack[k]).1 < st2.insts.len()
                    && st2.insts[st2.stack[k].1 as int] is LoopStart by {
                    assert(st.insts[st.stack[k].1 as int] is LoopStart);
                    assert(st.stack[k].1 as int != l - 1);
                }
                assert forall|j: int| 0 <= j < st2.insts.len() implies
                    inst_bounded(#[trigger] st2.insts[j], n + 1) by {
                    assert(inst_bounded(st.insts[j], n));
                }
            } else {
                let nv = Instruction::Increment((v + inc) as i64);
                let st2 = ParseState { insts: st.insts.update(l - 1, nv), ..st };
                lemma_code_sum_update(st.insts, l - 1, nv);
                assert forall|k: int| 0 <= k < st2.stack.len() implies
                    (#[trigger] st2.stack[k]).1 < st2.insts.len()
                    && st2.insts[st2.stack[k].1 as int] is LoopStart by {
                    assert(st.insts[st.stack[k].1 as int] is LoopStart);
                    assert(st.stack[k].1 as int != l - 1);
                }
                assert forall|j: int| 0 <= j < st2.insts.len() implies
                    inst_bounded(#[trigger] st2.insts[j], n + 1) by {
                    assert(inst_bounded(st.insts[j], n));
                }
                assert(no_adjacent_runs(st2.insts)) by {
                    assert forall|j: int| 0 <= j < st2.insts.len() - 1 implies
                        !((#[trigger] st2.insts[j]) is Increment && st2.insts[j + 1] is Increment)
                        && !(st2.insts[j] is Move && st2.insts[j + 1] is Move) by {
                        assert(!(st.insts[j] is Increment && st.insts[j + 1] is Increment));
                        assert(!(st.insts[j] is Move && st.insts[j + 1] is Move));
                    }
                }
            }
        } else {
            let nv = Instruction::Increment(inc as i64);
            let st2 = ParseState {
                insts: st.insts.push(nv),
                code_len: (st.code_len + 16) as usize,
                ..st
            };
            lemma_code_sum_push(st.insts, nv);
            assert forall|j: int| 0 <= j < st2.insts.len() implies
                inst_bounded(#[trigger] st2.insts[j], n + 1) by {
                if j < l {
                    assert(inst_bounded(st.insts[j], n));
                }
            }
            assert(no_adjacent_runs(st2.insts)) by {
                assert forall|j: int| 0 <= j < st2.insts.len() - 1 implies
                    !((#[trigger] st2.insts[j]) is Increment && st2.insts[j + 1] is Increment)
                    && !(st2.insts[j] is Move && st2.insts[j + 1] is Move) by {
                    if j < l - 1 {
                        assert(!(st.insts[j] is Increment && st.insts[j + 1] is Increment));
                        assert(!(st.insts[j] is Move && st.insts[j + 1] is Move));
                    }
                }
            }
        }
    } else if c == B_RIGHT || c == B_LEFT {
        let inc: int = if c == B_RIGHT { 1int } else { -1int };
        if l > 0 && st.insts.last() is Move {
            assert(inst_bounded(st.insts[l - 1], n));
            let v = st.insts.last()->Move_0 as int;
            if v + inc == 0 {
                let st2 = ParseState {
                    insts: st.insts.drop_last(),
                    code_len: (st.code_len - 16) as usize,
                    ..st
                };
                assert(code_sum(st.insts) == code_sum(st2.insts) + 16);
                lemma_code_sum_nonneg(st2.insts);
                assert forall|k: int| 0 <= k < st2.stack.len() implies
                    (#[trigger] st2.stack[k]).1 < st2.insts.len()
                    && st2.insts[st2.stack[k].1 as int] is LoopStart by {
                    assert(st.insts[st.stack[k].1 as int] is LoopStart);
                    assert(st.stack[k].1 as int != l - 1);
                }
                assert forall|j: int| 0 <= j < st2.insts.len() implies
                    inst_bounded(#[trigger] st2.insts[j], n + 1) by {
                    assert(inst_bounded(st.insts[j], n));
                }
            } else {
                let nv = Instruction::Move((v + inc) as isize);
                let st2 = ParseState { insts: st.insts.update(l - 1, nv), ..st };
                lemma_code_sum_update(st.insts, l - 1, nv);
                assert forall|k: int| 0 <= k < st2.stack.len() implies
                    (#[trigger] st2.stack[k]).1 < st2.insts.len()
                    && st2.insts[st2.stack[k].1 as int] is LoopStart by {
                    assert(st.insts[st.stack[k].1 as int] is LoopStart);
                    assert(st.stack[k].1 as int != l - 1);
                }
                assert forall|j: int| 0 <= j < st2.insts.len() implies
                    inst_bounded(#[trigger] st2.insts[j], n + 1) by {
                    assert(inst_bounded(st.insts[j], n));
                }
                assert(no_adjacent_runs(st2.insts)) by {
                    assert forall|j: int| 0 <= j < st2.insts.len() - 1 implies
                        !((#[trigger] st2.insts[j]) is Increment && st2.insts[j + 1] is Increment)
                        && !(st2.insts[j] is Move && st2.insts[j + 1] is Move) by {
                        assert(!(st.insts[j] is Increment && st.insts[j + 1] is Increment));
                        assert(!(st.insts[j] is Move && st.insts[j + 1] is Move));
                    }
                }
            }
        } else {
            let nv = Instruction::Move(inc as isize);
            let st2 = ParseState {
                insts: st.insts.push(nv),
                code_len: (st.code_len + 16) as usize,
                ..st
            };
            lemma_code_sum_push(st.insts, nv);
            assert forall|j: int| 0 <= j < st2.insts.len() implies
                inst_bounded(#[trigger] st2.insts[j], n + 1) by {
                if j < l {
                    assert(inst_bounded(st.insts[j], n));
                }
            }
            assert(no_adjacent_runs(st2.insts)) by {
                assert forall|j: int| 0 <= j < st2.insts.len() - 1 implies
                    !((#[trigger] st2.insts[j]) is Increment && st2.insts[j + 1] is Increment)
                    && !(st2.insts[j] is Move && st2.insts[j + 1] is Move) by {
                    if j < l - 1 {
                        assert(!(st.insts[j] is Increment && st.insts[j + 1] is Increment));
                        assert(!(st.insts[j] is Move && st.insts[j + 1] is Move));
                    }
                }
            }
        }
    }
}

proof fn lemma_step_wf_other(st: ParseState, c: u8, i: int, n: int)
    requires
        wf_state(st, n),
        0 <= n,
        16 + 20 * (n + 1) <= usize::MAX,
        c != B_PLUS && c != B_MINUS && c != B_RIGHT && c != B_LEFT && c != B_CLOSE,
    ensures
        match step(st, c, i) {
            Ok(st2) => wf_state(st2, n + 1),
            Err(_) => true,
        },
{
    lemma_len_fits(n + 1);
    let l = st.insts.len() as int;
    if c == B_DOT || c == B_COMMA {
        let nv = if c == B_DOT { Instruction::Output } else { Instruction::Input };
        let st2 = ParseState {
            insts: st.insts.push(nv),
            code_len: (st.code_len + 20) as usize,
            ..st
        };
        lemma_code_sum_push(st.insts, nv);
        assert forall|j: int| 0 <= j < st2.insts.len() implies
            inst_bounded(#[trigger] st2.insts[j], n + 1) by {
            if j < l {
                assert(inst_bounded(st.insts[j], n));
            }
        }
        assert(no_adjacent_runs(st2.insts)) by {
            assert forall|j: int| 0 <= j < st2.insts.len() - 1 implies
                !((#[trigger] st2.insts[j]) is Increment && st2.insts[j + 1] is Increment)
                && !(st2.insts[j] is Move && st2.insts[j + 1] is Move) by {
                if j < l - 1 {
                    assert(!(st.insts[j] is Increment && st.insts[j + 1] is Increment));
                    assert(!(st.insts[j] is Move && st.insts[j + 1] is Move));
                }
            }
        }
    } else if c == B_OPEN {
        let nv = Instruction::LoopStart(0);
        let st2 = ParseState {
            insts: st.insts.push(nv),
            stack: st.stack.push((i as usize, st.insts.len() as usize, st.code_len)),
            code_len: (st.code_len + 12) as usize,
        };
        lemma_code_sum_push(st.insts, nv);
        assert forall|k: int| 0 <= k < st2.stack.len() implies
            (#[trigger] st2.stack[k]).1 < st2.insts.len()
            && st2.insts[st2.stack[k].1 as int] is LoopStart by {
            if k < st.stack.len() {
                assert(st.insts[st.stack[k].1 as int] is LoopStart);
            }
        }
        assert forall|k1: int, k2: int| 0 <= k1 < k2 < st2.stack.len() implies
            (#[trigger] st2.stack[k1]).1 < (#[trigger] st2.stack[k2]).1 by {
            if k2 < st.stack.len() {
            } else {
                assert(st2.stack[k1] == st.stack[k1]);
                assert(st.stack[k1].1 < st.insts.len());
            }
        }
        assert forall|j: int| 0 <= j < st2.insts.len() implies
            inst_bounded(#[trigger] st2.insts[j], n + 1) by {
            if j < l {
                assert(inst_bounded(st.insts[j], n));
            }
        }
        assert(no_adjacent_runs(st2.insts)) by {
            assert forall|j: int| 0 <= j < st2.insts.len() - 1 implies
                !((#[trigger] st2.insts[j]) is Increment && st2.insts[j + 1] is Increment)
                && !(st2.insts[j] is Move && st2.insts[j + 1] is Move) by {
                if j < l - 1 {
                    assert(!(st.insts[j] is Increment && st.insts[j + 1] is Increment));
                    assert(!(st.insts[j] is Move && st.insts[j + 1] is Move));
                }
            }
        }
    } else {
    }
}

/// Common facts for handling `]` on a non-empty stack: patching the
/// placeholder keeps the IR's byte count, payload bounds and run shape, and
/// the rest of the stack points strictly below the patched slot.
proof fn lemma_close_setup(st: ParseState, n: int)
    requires
        wf_state(st, n),
        0 <= n,
        st.stack.len() > 0,
    ensures
        ({
            let top = st.stack.last();
            let insts1 = st.insts.update(top.1 as int, Instruction::LoopStart(st.code_len));
            &&& (top.1 as int) < st.insts.len()
            &&& st.insts[top.1 as int] is LoopStart
            &&& code_sum(insts1) == code_sum(st.insts)
            &&& forall|k: int| 0 <= k < st.stack.len() - 1 ==> (#[trigger] st.stack[k]).1 < top.1
            &&& forall|j: int| 0 <= j < insts1.len() ==> inst_bounded(#[trigger] insts1[j], n + 1)
            &&& no_adjacent_runs(insts1)
        }),
{
    let top = st.stack.last();
    assert(st.stack[st.stack.len() - 1] == top);
    assert(top.1 < st.insts.len() && st.insts[top.1 as int] is LoopStart);
    let ix_i = top.1 as int;
    let patched = Instruction::LoopStart(st.code_len);
    let insts1 = st.insts.update(ix_i, patched);
    lemma_code_sum_update(st.insts, ix_i, patched);
    assert forall|k: int| 0 <= k < st.stack.len() - 1 implies
        (#[trigger] st.stack[k]).1 < top.1 by {
        assert(st.stack[k].1 < st.stack[st.stack.len() - 1].1);
    }
    assert forall|j: int| 0 <= j < insts1.len() implies
        inst_bounded(#[trigger] insts1[j], n + 1) by {
        if j != ix_i {
            assert(inst_bounded(st.insts[j], n));
        }
    }
    assert(no_adjacent_runs(insts1)) by {
        assert forall|j: int| 0 <= j < insts1.len() - 1 implies
            !((#[trigger] insts1[j]) is Increment && insts1[j + 1] is Increment)
            && !(insts1[j] is Move && insts1[j + 1] is Move) by {
            assert(!(st.insts[j] is Increment && st.insts[j + 1] is Increment));
            assert(!(st.insts[j] is Move && st.insts[j + 1] is Move));
        }
    }
}

proof fn lemma_step_wf_close(st: ParseState, c: u8, i: int, n: int)
    requires
        wf_state(st, n),
        0 <= n,
        16 + 20 * (n + 1) <= usize::MAX,
        c == B_CLOSE,
    ensures
        match step(st, c, i) {
            Ok(st2) => wf_state(st2, n + 1),
            Err(_) => true,
        },
{
    if st.stack.len() > 0 {
        let top = st.stack.last();
        let insts1 = st.insts.update(top.1 as int, Instruction::LoopStart(st.code_len));
        if clear_window(insts1) {
            lemma_close_clear(st, c, i, n);
        } else if addto_window(insts1) {
            lemma_close_addto(st, c, i, n);
        } else {
            lemma_close_loopend(st, c, i, n);
        }
    }
}

#[verifier::rlimit(100)]
#[verifier::spinoff_prover]
proof fn lemma_close_clear(st: ParseState, c: u8, i: int, n: int)
    requires
        wf_state(st, n),
        0 <= n,
        16 + 20 * (n + 1) <= usize::MAX,
        c == B_CLOSE,
        st.stack.len() > 0,
        clear_window(st.insts.update(st.stack.last().1 as int, Instruction::LoopStart(st.code_len))),
    ensures
        match step(st, c, i) {
            Ok(st2) => wf_state(st2, n + 1),
            Err(_) => true,
        },
        st.code_len >= 44,
{
    lemma_close_setup(st, n);
    let top = st.stack.last();
    let ix_i = top.1 as int;
    let stack2 = st.stack.drop_last();
    let insts1 = st.insts.update(ix_i, Instruction::LoopStart(st.code_len));
    let li = insts1.len() as int;
    assert(ix_i != li - 1);
    let t = insts1.subrange(0, li - 2);
    let s4 = insts1.subrange(0, li - 1);
    assert(insts1.drop_last() =~= s4);
    assert(s4.drop_last() =~= t);
    assert(code_sum(insts1) == code_sum(insts1.drop_last()) + ix_len(insts1.last()));
    assert(code_sum(s4) == code_sum(s4.drop_last()) + ix_len(s4.last()));
    assert(insts1.last() == insts1[li - 1]);
    assert(s4.last() == insts1[li - 2]);
    assert(ix_len(insts1[li - 1]) == 16);
    assert(ix_len(insts1[li - 2]) == 12);
    assert(code_sum(insts1) == code_sum(t) + 28);
    lemma_code_sum_nonneg(t);
    lemma_code_sum_push(t, Instruction::Clear);
    let st2 = ParseState {
        insts: t.push(Instruction::Clear),
        stack: stack2,
        code_len: (st.code_len - 28 + 4) as usize,
    };
    assert(st.code_len >= 16 + code_sum(t) + 28);
    assert forall|k: int| 0 <= k < st2.stack.len() implies
        (#[trigger] st2.stack[k]).1 < st2.insts.len()
        && st2.insts[st2.stack[k].1 as int] is LoopStart by {
        assert(st.stack[k].1 < top.1);
        assert(ix_i <= li - 2);
        assert(st2.insts[stack2[k].1 as int] == insts1[stack2[k].1 as int]);
        assert(insts1[stack2[k].1 as int] == st.insts[stack2[k].1 as int]);
        assert(st.insts[st.stack[k].1 as int] is LoopStart);
    }
    assert forall|j: int| 0 <= j < st2.insts.len() implies
        inst_bounded(#[trigger] st2.insts[j], n + 1) by {
        if j < li - 2 {
            assert(inst_bounded(insts1[j], n + 1));
        }
    }
    assert(no_adjacent_runs(st2.insts)) by {
        assert forall|j: int| 0 <= j < st2.insts.len() - 1 implies
            !((#[trigger] st2.insts[j]) is Increment && st2.insts[j + 1] is Increment)
            && !(st2.insts[j] is Move && st2.insts[j + 1] is Move) by {
            if j < li - 3 {
                assert(!(insts1[j] is Increment && insts1[j + 1] is Increment));
                assert(!(insts1[j] is Move && insts1[j + 1] is Move));
            }
        }
    }
    assert(wf_state(st2, n + 1));
}

#[verifier::rlimit(100)]
#[verifier::spinoff_prover]
proof fn lemma_close_addto(st: ParseState, c: u8, i: int, n: int)
    requires
        wf_state(st, n),
        0 <= n,
        16 + 20 * (n + 1) <= usize::MAX,
        c == B_CLOSE,
        st.stack.len() > 0,
        !clear_window(st.insts.update(st.stack.last().1 as int, Instruction::LoopStart(st.code_len))),
        addto_window(st.insts.update(st.stack.last().1 as int, Instruction::LoopStart(st.code_len))),
    ensures
        match step(st, c, i) {
            Ok(st2) => wf_state(st2, n + 1),
            Err(_) => true,
        },
        st.code_len >= 92,
{
    lemma_close_setup(st, n);
    let top = st.stack.last();
    let ix_i = top.1 as int;
    let stack2 = st.stack.drop_last();
    let insts1 = st.insts.update(ix_i, Instruction::LoopStart(st.code_len));
    let li = insts1.len() as int;
    assert(ix_i <= li - 5);
    let t = insts1.subrange(0, li - 5);
    let s1 = insts1.subrange(0, li - 4);
    let s2 = insts1.subrange(0, li - 3);
    let s3 = insts1.subrange(0, li - 2);
    let s4 = insts1.subrange(0, li - 1);
    assert(insts1.drop_last() =~= s4);
    assert(s4.drop_last() =~= s3);
    assert(s3.drop_last() =~= s2);
    assert(s2.drop_last() =~= s1);
    assert(s1.drop_last() =~= t);
    assert(insts1.last() == insts1[li - 1]);
    assert(s4.last() == insts1[li - 2]);
    assert(s3.last() == insts1[li - 3]);
    assert(s2.last() == insts1[li - 4]);
    assert(s1.last() == insts1[li - 5]);
    assert(code_sum(insts1) == code_sum(insts1.drop_last()) + ix_len(insts1.last()));
    assert(code_sum(s4) == code_sum(s4.drop_last()) + ix_len(s4.last()));
    assert(code_sum(s3) == code_sum(s3.drop_last()) + ix_len(s3.last()));
    assert(code_sum(s2) == code_sum(s2.drop_last()) + ix_len(s2.last()));
    assert(code_sum(s1) == code_sum(s1.drop_last()) + ix_len(s1.last()));
    assert(ix_len(insts1[li - 1]) == 16);
    assert(ix_len(insts1[li - 2]) == 16);
    assert(ix_len(insts1[li - 3]) == 16);
    assert(ix_len(insts1[li - 4]) == 16);
    assert(ix_len(insts1[li - 5]) == 12);
    assert(code_sum(insts1) == code_sum(t) + 76);
    lemma_code_sum_nonneg(t);
    let nv = Instruction::AddTo(addto_payload(insts1));
    lemma_code_sum_push(t, nv);
    let st2 = ParseState {
        insts: t.push(nv),
        stack: stack2,
        code_len: (st.code_len - 76 + 36) as usize,
    };
    assert(st.code_len >= 16 + code_sum(t) + 76);
    assert forall|k: int| 0 <= k < st2.stack.len() implies
        (#[trigger] st2.stack[k]).1 < st2.insts.len()
        && st2.insts[st2.stack[k].1 as int] is LoopStart by {
        assert(st.stack[k].1 < top.1);
        assert(ix_i <= li - 5);
        assert(st2.insts[stack2[k].1 as int] == insts1[stack2[k].1 as int]);
        assert(insts1[stack2[k].1 as int] == st.insts[stack2[k].1 as int]);
        assert(st.insts[st.stack[k].1 as int] is LoopStart);
    }
    assert forall|j: int| 0 <= j < st2.insts.len() implies
        inst_bounded(#[trigger] st2.insts[j], n + 1) by {
        if j < li - 5 {
            assert(inst_bounded(insts1[j], n + 1));
        }
    }
    assert(no_adjacent_runs(st2.insts)) by {
        assert forall|j: int| 0 <= j < st2.insts.len() - 1 implies
            !((#[trigger] st2.insts[j]) is Increment && st2.insts[j + 1] is Increment)
            && !(st2.insts[j] is Move && st2.insts[j + 1] is Move) by {
            if j < li - 6 {
                assert(!(insts1[j] is Increment && insts1[j + 1] is Increment));
                assert(!(insts1[j] is Move && insts1[j + 1] is Move));
            }
        }
    }
    assert(wf_state(st2, n + 1));
}

#[verifier::rlimit(100)]
#[verifier::spinoff_prover]
proof fn lemma_close_loopend(st: ParseState, c: u8, i: int, n: int)
    requires
        wf_state(st, n),
        0 <= n,
        16 + 20 * (n + 1) <= usize::MAX,
        c == B_CLOSE,
        st.stack.len() > 0,
        !clear_window(st.insts.update(st.stack.last().1 as int, Instruction::LoopStart(st.code_len))),
        !addto_window(st.insts.update(st.stack.last().1 as int, Instruction::LoopStart(st.code_len))),
    ensures
        match step(st, c, i) {
            Ok(st2) => wf_state(st2, n + 1),
            Err(_) => true,
        },
{
    lemma_close_setup(st, n);
    let top = st.stack.last();
    let ix_i = top.1 as int;
    let stack2 = st.stack.drop_last();
    let insts1 = st.insts.update(ix_i, Instruction::LoopStart(st.code_len));
    let li = insts1.len() as int;
    let nv = Instruction::LoopEnd(top.2);
    let st2 = ParseState {
        insts: insts1.push(nv),
        stack: stack2,
        code_len: (st.code_len + 12) as usize,
    };
    lemma_code_sum_push(insts1, nv);
    assert forall|k: int| 0 <= k < st2.stack.len() implies
        (#[trigger] st2.stack[k]).1 < st2.insts.len()
        && st2.insts[st2.stack[k].1 as int] is LoopStart by {
        assert(st.stack[k].1 < top.1);
        assert(st2.insts[stack2[k].1 as int] == insts1[stack2[k].1 as int]);
        assert(insts1[stack2[k].1 as int] == st.insts[stack2[k].1 as int]);
        assert(st.insts[st.stack[k].1 as int] is LoopStart);
    }
    assert forall|j: int| 0 <= j < st2.insts.len() implies
        inst_bounded(#[trigger] st2.insts[j], n + 1) by {
        if j < li {
            assert(inst_bounded(insts1[j], n + 1));
        }
    }
    assert(no_adjacent_runs(st2.insts)) by {
        assert forall|j: int| 0 <= j < st2.insts.len() - 1 implies
            !((#[trigger] st2.insts[j]) is Increment && st2.insts[j + 1] is Increment)
            && !(st2.insts[j] is Move && st2.insts[j + 1] is Move) by {
            if j < li - 1 {
                assert(!(insts1[j] is Increment && insts1[j + 1] is Increment));
                assert(!(insts1[j] is Move && insts1[j + 1] is Move));
            }
        }
    }
    assert(wf_state(st2, n + 1));
}

/// Folding the whole source keeps the state well-formed.
pub proof fn lemma_run_parse_wf(st: ParseState, s: Seq<u8>, i0: int, n: int)
    requires
        wf_state(st, n),
        0 <= n,
        16 + 20 * (n + s.len()) <= usize::MAX,
    ensures
        match run_parse(st, s, i0) {
            Ok(st2) => wf_state(st2, n + s.len()),
            Err(_) => true,
        },
    decreases s.len(),
{
    if s.len() > 0 {
        lemma_step_wf(st, s[0], i0, n);
        match step(st, s[0], i0) {
            Ok(st2) => {
                lemma_run_parse_wf(st2, s.drop_first(), i0 + 1, n + 1);
            },
            Err(_) => {},
        }
    }
}

/// The IR that a successful parse returns never holds two adjacent
/// `Increment` entries or two adjacent `Move` entries, and every folded
/// payload is a non-zero value no larger in magnitude than the source
/// length.
pub proof fn lemma_parse_ir_wf(s: Seq<u8>)
    requires
        16 + 20 * s.len() <= usize::MAX,
    ensures
        spec_parse(s) matches Ok(ir) ==> no_adjacent_runs(ir) && forall|j: int|
            0 <= j < ir.len() ==> inst_bounded(#[trigger] ir[j], s.len() as int),
{
    lemma_wf_init();
    lemma_run_parse_wf(init_state(), s, 0, 0);
}

/// True iff `v` is odd.
fn is_odd(v: i64) -> (b: bool)
    ensures
        b == ((v as int) % 2 != 0),
{
    if v >= 0 {
        let r = (v as u64) % 2;
        r != 0
    } else {
        let mag = -(v + 1);
        let r = (mag as u64) % 2;
        proof {
            vstd::arithmetic::div_mod::lemma_fundamental_div_mod(mag as int, 2);
            if r == 0 {
                vstd::arithmetic::div_mod::lemma_mod_multiples_vanish(-((mag as int) / 2) - 1, 1, 2);
            } else {
                vstd::arithmetic::div_mod::lemma_mod_multiples_vanish(-((mag as int) / 2) - 1, 0, 2);
            }
        }
        r == 0
    }
}

impl Program {
    /// Scan the source once, left to right: fold runs of `+`/`-` and of
    /// `<`/`>` into single instructions (dropping a run that cancels to
    /// zero), turn `.` and `,` into `Output` and `Input`, and resolve every
    /// bracket pair, collapsing the `Clear` and `AddTo` loop idioms as the
    /// closing bracket is seen. An unmatched bracket is reported with its
    /// source index.
    #[verifier::rlimit(100)]
    #[verifier::spinoff_prover]
    pub fn parse(source: &[u8]) -> (r: Result<Vec<Instruction>, UnbalancedBrackets>)
        requires
            16 + 20 * source@.len() <= usize::MAX,
        ensures
            match r {
                Ok(v) => spec_parse(source@) == Ok::<Seq<Instruction>, (char, int)>(v@),
                Err(e) => spec_parse(source@) == Err::<Seq<Instruction>, (char, int)>(
                    (e.0, e.1 as int),
                ),
            },
    {
        let mut bracket_stack: Vec<(usize, usize, usize)> = Vec::new();
        let mut instructions: Vec<Instruction> = Vec::new();
        let mut code_len: usize = 16;
        let mut i: usize = 0;
        proof {
            lemma_wf_init();
            assert(ParseState { insts: instructions@, stack: bracket_stack@, code_len }
                =~= init_state());
            assert(source@.take(0) =~= Seq::<u8>::empty());
        }
        while i < source.len()
            invariant
                16 + 20 * source@.len() <= usize::MAX,
                i <= source@.len(),
                run_parse(init_state(), source@.take(i as int), 0)
                    == Ok::<ParseState, (char, int)>(ParseState {
                        insts: instructions@,
                        stack: bracket_stack@,
                        code_len,
                    }),
                wf_state(
                    ParseState { insts: instructions@, stack: bracket_stack@, code_len },
                    i as int,
                ),
            decreases source@.len() - i,
        {
            let ghost pre = ParseState { insts: instructions@, stack: bracket_stack@, code_len };
            let c = source[i];
            proof {
                assert(source@.take(i as int).len() == i as int);
                lemma_run_parse_snoc(init_state(), source@.take(i as int), c, 0);
                assert(source@.take(i as int).push(c) =~= source@.take(i as int + 1));
                lemma_step_wf(pre, c, i as int, i as int);
                lemma_len_fits(i as int + 1);
            }
            if c == B_PLUS || c == B_MINUS {
                let inc: i64 = if c == B_PLUS { 1 } else { -1 };
                let l = instructions.len();
                let mut fold = false;
                let mut v: i64 = 0;
                if l > 0 {
                    match instructions[l - 1] {
                        Instruction::Increment(x) => {
                            fold = true;
                            v = x;
                        },
                        _ => {},
                    }
                }
                if fold {
                    proof {
                        assert(inst_bounded(pre.insts[l - 1], i as int));
                    }
                    let nv = v + inc;
                    if nv == 0 {
                        instructions.pop();
                        proof {
                            assert(instructions@ =~= pre.insts.drop_last());
                            assert(code_sum(pre.insts) == code_sum(pre.insts.drop_last()) + 16);
                            lemma_code_sum_nonneg(pre.insts.drop_last());
                        }
                        code_len = code_len - 16;
                    } else {
                        instructions.set(l - 1, Instruction::Increment(nv));
                    }
                } else {
                    code_len = code_len + 16;
                    instructions.push(Instruction::Increment(inc));
                }
            } else if c == B_RIGHT || c == B_LEFT {
                let inc: isize = if c == B_RIGHT { 1 } else { -1 };
                let l = instructions.len();
                let mut fold = false;
                let mut v: isize = 0;
                if l > 0 {
                    match instructions[l - 1] {
                        Instruction::Move(x) => {
                            fold = true;
                            v = x;
                        },
                        _ => {},
                    }
                }
                if fold {
                    proof {
                        assert(inst_bounded(pre.insts[l - 1], i as int));
                    }
                    let nv = v + inc;
                    if nv == 0 {
                        instructions.pop();
                        proof {
                            assert(instructions@ =~= pre.insts.drop_last());
                            assert(code_sum(pre.insts) == code_sum(pre.insts.drop_last()) + 16);
                            lemma_code_sum_nonneg(pre.insts.drop_last());
                        }
                        code_len = code_len - 16;
                    } else {
                        instructions.set(l - 1, Instruction::Move(nv));
                    }
                } else {
                    code_len = code_len + 16;
                    instructions.push(Instruction::Move(inc));
                }
            } else if c == B_DOT {
                code_len = code_len + 20;
                instructions.push(Instruction::Output);
            } else if c == B_COMMA {
                code_len = code_len + 20;
                instructions.push(Instruction::Input);
            } else if c == B_OPEN {
                bracket_stack.push((i, instructions.len(), code_len));
                instructions.push(Instruction::LoopStart(0));
                code_len = code_len + 12;
            } else if c == B_CLOSE {
                match bracket_stack.pop() {
                    None => {
                        proof {
                            assert(pre.stack.len() == 0);
                            lemma_run_parse_append(
                                init_state(),
                                source@.take(i as int + 1),
                                source@.skip(i as int + 1),
                                0,
                            );
                            assert(source@.take(i as int + 1) + source@.skip(i as int + 1)
                                =~= source@);
                        }
                        return Err(UnbalancedBrackets(']', i));
                    },
                    Some(top) => {
                        proof {
                            assert(bracket_stack@ =~= pre.stack.drop_last());
                            assert(top == pre.stack.last());
                            assert((pre.stack[pre.stack.len() - 1]).1 < pre.insts.len());
                        }
                        let ix_i = top.1;
                        instructions.set(ix_i, Instruction::LoopStart(code_len));
                        let ghost insts1 = pre.insts.update(
                            ix_i as int,
                            Instruction::LoopStart(pre.code_len),
                        );
                        let l = instructions.len();
                        let mut clear_m = false;
                        if l >= 2 {
                            match (instructions[l - 2], instructions[l - 1]) {
                                (Instruction::LoopStart(_), Instruction::Increment(v)) => {
                                    clear_m = is_odd(v);
                                },
                                _ => {},
                            }
                        }
                        proof {
                            assert(clear_m == clear_window(insts1));
                        }
                        if clear_m {
                            proof {
                                lemma_close_clear(pre, c, i as int, i as int);
                            }
                            instructions.truncate(l - 2);
                            instructions.push(Instruction::Clear);
                            code_len = code_len - 12;
                            code_len = code_len - 16;
                            code_len = code_len + 4;
                        } else {
                            let mut addto_m = false;
                            let mut addto_n: isize = 0;
                            if l >= 5 {
                                match (
                                    instructions[l - 5],
                                    instructions[l - 4],
                                    instructions[l - 3],
                                    instructions[l - 2],
                                    instructions[l - 1],
                                ) {
                                    (
                                        Instruction::LoopStart(_),
                                        Instruction::Increment(va),
                                        Instruction::Move(nn),
                                        Instruction::Increment(vb),
                                        Instruction::Move(mm),
                                    ) => {
                                        if va == -1 && vb == 1 {
                                            proof {
                                                assert(insts1[l - 1 as int] is Move);
                                                assert(ix_i as int != l - 1 as int);
                                                assert(insts1[l - 1 as int]
                                                    == pre.insts[l - 1 as int]);
                                                assert(inst_bounded(
                                                    pre.insts[l - 1 as int],
                                                    i as int,
                                                ));
                                            }
                                            if nn == -mm {
                                                addto_m = true;
                                                addto_n = nn;
                                            }
                                        }
                                    },
                                    _ => {},
                                }
                            }
                            proof {
                                assert(addto_m == addto_window(insts1));
                            }
                            if addto_m {
                                proof {
                                    lemma_close_addto(pre, c, i as int, i as int);
                                    assert(addto_n == addto_payload(insts1));
                                }
                                instructions.truncate(l - 5);
                                instructions.push(Instruction::AddTo(addto_n));
                                code_len = code_len - 12;
                                code_len = code_len - 16;
                                code_len = code_len - 16;
                                code_len = code_len - 16;
                                code_len = code_len - 16;
                                code_len = code_len + 36;
                            } else {
                                instructions.push(Instruction::LoopEnd(top.2));
                                code_len = code_len + 12;
                            }
                        }
                    },
                }
            } else {
            }
            proof {
                let post = ParseState {
                    insts: instructions@,
                    stack: bracket_stack@,
                    code_len,
                };
                match step(pre, c, i as int) {
                    Ok(st2) => {
                        assert(post =~= st2);
                    },
                    Err(_) => {
                        assert(false);
                    },
                }
                assert(run_parse(init_state(), source@.take(i as int + 1), 0)
                    == Ok::<ParseState, (char, int)>(post));
            }
            i = i + 1;
        }
        proof {
            assert(source@.take(source@.len() as int) =~= source@);
        }
        if bracket_stack.len() > 0 {
            let top = bracket_stack[bracket_stack.len() - 1];
            proof {
                assert(top == ParseState {
                    insts: instructions@,
                    stack: bracket_stack@,
                    code_len,
                }.stack.last());
            }
            return Err(UnbalancedBrackets('[', top.0));
        }
        Ok(instructions)
    }
}

} // verus!

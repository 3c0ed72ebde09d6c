//! Loop-offset consistency: the `LoopStart` and `LoopEnd` entries of a
//! parsed IR pair up like balanced brackets, and each names the code offset
//! of its partner's block, where an instruction's code offset is 16 (the
//! prologue) plus the emission sizes of everything before it.

use vstd::prelude::*;

use crate::ir::{code_sum, lemma_code_sum_update, Instruction};
use crate::parse_spec::{init_state, run_parse, spec_parse, step, ParseState};
use crate::parser::{lemma_step_wf, lemma_wf_init, wf_state};

verus! {

/// Walk the IR left to right, tracking each instruction's code offset and a
/// stack of open loops as `(IR index, code offset)` pairs. `None` means the
/// loops are inconsistent. A `LoopEnd` must name the code offset of the
/// innermost open `LoopStart`, and that `LoopStart` must name the code
/// offset of the `LoopEnd` itself; the pair is then closed. `Some(stk)`
/// returns the loops still open.
pub open spec fn scan_loops(ir: Seq<Instruction>) -> Option<Seq<(int, int)>>
    decreases ir.len(),
{
    if ir.len() == 0 {
        Some(Seq::empty())
    } else {
        match scan_loops(ir.drop_last()) {
            Option::None => Option::None,
            Option::Some(stk) => {
                let k: int = ir.len() - 1;
                let pos: int = 16 + code_sum(ir.drop_last());
                match ir.last() {
                    Instruction::LoopStart(_) => Some(stk.push((k, pos))),
                    Instruction::LoopEnd(s) => {
                        if stk.len() > 0 && s as int == stk.last().1 && ir[stk.last().0]
                            == Instruction::LoopStart(pos as usize) {
                            Some(stk.drop_last())
                        } else {
                            Option::None
                        }
                    },
                    _ => Some(stk),
                }
            },
        }
    }
}

/// The open-loop stack a scan returns points at `LoopStart` entries, in
/// strictly increasing index order.
pub open spec fn scan_stack_wf(ir: Seq<Instruction>, stk: Seq<(int, int)>) -> bool {
    &&& forall|j: int| 0 <= j < stk.len() ==> 0 <= (#[trigger] stk[j]).0 < ir.len()
        && ir[stk[j].0] is LoopStart
    &&& forall|j1: int, j2: int| 0 <= j1 < j2 < stk.len() ==> (#[trigger] stk[j1]).0
        < (#[trigger] stk[j2]).0
}

proof fn lemma_scan_stack_wf(ir: Seq<Instruction>)
    ensures
        scan_loops(ir) matches Some(stk) ==> scan_stack_wf(ir, stk),
    decreases ir.len(),
{
    if ir.len() > 0 {
        lemma_scan_stack_wf(ir.drop_last());
        match scan_loops(ir.drop_last()) {
            Option::Some(stk0) => {
                assert forall|j: int| 0 <= j < stk0.len() implies 0 <= (#[trigger] stk0[j]).0
                    < ir.len() - 1 && ir[stk0[j].0] is LoopStart by {
                    assert(ir.drop_last()[stk0[j].0] is LoopStart);
                }
            },
            Option::None => {},
        }
    }
}

/// Rewriting the payload of a `LoopStart` that is still open does not change
/// what the scan returns: an open entry's payload is never read.
proof fn lemma_scan_update_open(ir: Seq<Instruction>, stk: Seq<(int, int)>, j: int, w: usize)
    requires
        scan_loops(ir) == Some(stk),
        0 <= j < stk.len(),
    ensures
        scan_loops(ir.update(stk[j].0, Instruction::LoopStart(w))) == Some(stk),
    decreases ir.len(),
{
    lemma_scan_stack_wf(ir);
    let a = stk[j].0;
    let u = ir.update(a, Instruction::LoopStart(w));
    match scan_loops(ir.drop_last()) {
        Option::Some(stk0) => {
            lemma_scan_stack_wf(ir.drop_last());
            if a == ir.len() - 1 {
                assert(u.drop_last() =~= ir.drop_last());
                assert(u.last() == Instruction::LoopStart(w));
                assert(code_sum(u.drop_last()) == code_sum(ir.drop_last()));
                assert(stk == stk0.push((a, 16 + code_sum(ir.drop_last()))));
            } else {
                assert(u.drop_last() =~= ir.drop_last().update(a, Instruction::LoopStart(w)));
                lemma_code_sum_update(ir, a, Instruction::LoopStart(w));
                assert(code_sum(u.drop_last()) == code_sum(ir.drop_last()));
                match ir.last() {
                    Instruction::LoopStart(_) => {
                        assert(stk == stk0.push((ir.len() - 1, 16 + code_sum(ir.drop_last()))));
                        assert(stk[stk.len() - 1].0 == ir.len() - 1);
                        assert(j < stk.len() - 1);
                        assert(stk0[j] == stk[j]);
                        lemma_scan_update_open(ir.drop_last(), stk0, j, w);
                        assert(u.last() == ir.last());
                    },
                    Instruction::LoopEnd(s) => {
                        assert(stk == stk0.drop_last());
                        assert(stk0[j] == stk[j]);
                        lemma_scan_update_open(ir.drop_last(), stk0, j, w);
                        let b = stk0[stk0.len() - 1].0;
                        assert(stk0[j].0 < b);
                        assert(u[b] == ir[b]);
                        assert(u.last() == ir.last());
                    },
                    _ => {
                        assert(stk == stk0);
                        lemma_scan_update_open(ir.drop_last(), stk0, j, w);
                        assert(u.last() == ir.last());
                    },
                }
            }
        },
        Option::None => {},
    }
}

/// The open loops of the parse state, as the scan sees them: IR index and
/// recorded code offset of each open `LoopStart`.
pub open spec fn abs_stack(stack: Seq<(usize, usize, usize)>) -> Seq<(int, int)> {
    stack.map_values(|t: (usize, usize, usize)| (t.1 as int, t.2 as int))
}

/// One parse step keeps the scan in agreement with the bracket stack.
proof fn lemma_step_scan(st: ParseState, c: u8, i: int, n: int)
    requires
        wf_state(st, n),
        0 <= n,
        16 + 20 * (n + 1) <= usize::MAX,
        scan_loops(st.insts) == Some(abs_stack(st.stack)),
    ensures
        match step(st, c, i) {
            Ok(st2) => scan_loops(st2.insts) == Some(abs_stack(st2.stack)),
            Err(_) => true,
        },
{
    let abs = abs_stack(st.stack);
    let l = st.insts.len() as int;
    if c == crate::parse_spec::B_PLUS || c == crate::parse_spec::B_MINUS {
        let inc: int = if c == crate::parse_spec::B_PLUS {
            1int
        } else {
            -1int
        };
        if l > 0 && st.insts.last() is Increment {
            let v = st.insts.last()->Increment_0 as int;
            if v + inc == 0 {
                // the dropped entry never touched the scan
                assert(scan_loops(st.insts.drop_last()) == Some(abs));
            } else {
                let u = st.insts.update(l - 1, Instruction::Increment((v + inc) as i64));
                assert(u.drop_last() =~= st.insts.drop_last());
                assert(u.last() == Instruction::Increment((v + inc) as i64));
                assert(scan_loops(u) == Some(abs));
            }
        } else {
            let u = st.insts.push(Instruction::Increment(inc as i64));
            assert(u.drop_last() =~= st.insts);
            assert(u.last() == Instruction::Increment(inc as i64));
            assert(scan_loops(u) == Some(abs));
        }
    } else if c == crate::parse_spec::B_RIGHT || c == crate::parse_spec::B_LEFT {
        let inc: int = if c == crate::parse_spec::B_RIGHT {
            1int
        } else {
            -1int
        };
        if l > 0 && st.insts.last() is Move {
            let v = st.insts.last()->Move_0 as int;
            if v + inc == 0 {
                assert(scan_loops(st.insts.drop_last()) == Some(abs));
            } else {
                let u = st.insts.update(l - 1, Instruction::Move((v + inc) as isize));
                assert(u.drop_last() =~= st.insts.drop_last());
                assert(u.last() == Instruction::Move((v + inc) as isize));
                assert(scan_loops(u) == Some(abs));
            }
        } else {
            let u = st.insts.push(Instruction::Move(inc as isize));
            assert(u.drop_last() =~= st.insts);
            assert(u.last() == Instruction::Move(inc as isize));
            assert(scan_loops(u) == Some(abs));
        }
    } else if c == crate::parse_spec::B_DOT {
        let u = st.insts.push(Instruction::Output);
        assert(u.drop_last() =~= st.insts);
        assert(u.last() == Instruction::Output);
        assert(scan_loops(u) == Some(abs));
    } else if c == crate::parse_spec::B_COMMA {
        let u = st.insts.push(Instruction::Input);
        assert(u.drop_last() =~= st.insts);
        assert(u.last() == Instruction::Input);
        assert(scan_loops(u) == Some(abs));
    } else if c == crate::parse_spec::B_OPEN || c == crate::parse_spec::B_CLOSE {
        lemma_step_scan_brackets(st, c, i, n);
    } else {
    }
}

/// The bracket cases of `lemma_step_scan`: opening a loop pushes its index
/// and offset; closing one patches the partner, checks out with the scan,
/// and pops — whether the pair survives as `LoopStart`/`LoopEnd` or
/// collapses to `Clear` or `AddTo`.
#[verifier::rlimit(100)]
#[verifier::spinoff_prover]
proof fn lemma_step_scan_brackets(st: ParseState, c: u8, i: int, n: int)
    requires
        wf_state(st, n),
        0 <= n,
        16 + 20 * (n + 1) <= usize::MAX,
        scan_loops(st.insts) == Some(abs_stack(st.stack)),
        c == crate::parse_spec::B_OPEN || c == crate::parse_spec::B_CLOSE,
    ensures
        match step(st, c, i) {
            Ok(st2) => scan_loops(st2.insts) == Some(abs_stack(st2.stack)),
            Err(_) => true,
        },
{
    let abs = abs_stack(st.stack);
    let l = st.insts.len() as int;
    if c == crate::parse_spec::B_OPEN {
        let e = (i as usize, st.insts.len() as usize, st.code_len);
        let u = st.insts.push(Instruction::LoopStart(0));
        assert(u.drop_last() =~= st.insts);
        assert(u.last() == Instruction::LoopStart(0));
        assert(scan_loops(u) == Some(abs.push((l, st.code_len as int))));
        assert(abs_stack(st.stack.push(e)) =~= abs.push((l, st.code_len as int)));
    } else if st.stack.len() > 0 {
        let top = st.stack.last();
        let ix_i = top.1 as int;
        assert(abs[abs.len() - 1] == (top.1 as int, top.2 as int));
        assert(abs.last() == (ix_i, top.2 as int));
        let insts1 = st.insts.update(ix_i, Instruction::LoopStart(st.code_len));
        lemma_scan_update_open(st.insts, abs, abs.len() - 1, st.code_len);
        assert(scan_loops(insts1) == Some(abs));
        assert((st.stack[st.stack.len() - 1]).1 < st.insts.len());
        assert(st.insts[ix_i] is LoopStart);
        lemma_code_sum_update(st.insts, ix_i, Instruction::LoopStart(st.code_len));
        assert(code_sum(insts1) == code_sum(st.insts));
        assert(abs_stack(st.stack.drop_last()) =~= abs.drop_last());
        if crate::parse_spec::clear_window(insts1) {
            let t = insts1.subrange(0, l - 2);
            let s4 = insts1.subrange(0, l - 1);
            assert(insts1.drop_last() =~= s4);
            assert(s4.drop_last() =~= t);
            assert(insts1.last() == insts1[l - 1]);
            assert(s4.last() == insts1[l - 2]);
            // the Increment on top never touched the scan
            assert(scan_loops(s4) == Some(abs));
            // the LoopStart below it is the innermost open loop
            match scan_loops(t) {
                Option::Some(stk0) => {
                    assert(abs == stk0.push((l - 2, 16 + code_sum(t))));
                    assert(stk0.push((l - 2, 16 + code_sum(t))).drop_last() =~= stk0);
                    assert(stk0 == abs.drop_last());
                    let u = t.push(Instruction::Clear);
                    assert(u.drop_last() =~= t);
                    assert(u.last() == Instruction::Clear);
                    assert(scan_loops(u) == Some(abs.drop_last()));
                },
                Option::None => {
                    assert(false);
                },
            }
        } else if crate::parse_spec::addto_window(insts1) {
            let t = insts1.subrange(0, l - 5);
            let s1 = insts1.subrange(0, l - 4);
            let s2 = insts1.subrange(0, l - 3);
            let s3 = insts1.subrange(0, l - 2);
            let s4 = insts1.subrange(0, l - 1);
            assert(insts1.drop_last() =~= s4);
            assert(s4.drop_last() =~= s3);
            assert(s3.drop_last() =~= s2);
            assert(s2.drop_last() =~= s1);
            assert(s1.drop_last() =~= t);
            assert(insts1.last() == insts1[l - 1]);
            assert(s4.last() == insts1[l - 2]);
            assert(s3.last() == insts1[l - 3]);
            assert(s2.last() == insts1[l - 4]);
            assert(s1.last() == insts1[l - 5]);
            // the four Increment/Move entries on top never touched the scan
            assert(scan_loops(s4) == Some(abs));
            assert(scan_loops(s3) == Some(abs));
            assert(scan_loops(s2) == Some(abs));
            assert(scan_loops(s1) == Some(abs));
            match scan_loops(t) {
                Option::Some(stk0) => {
                    assert(abs == stk0.push((l - 5, 16 + code_sum(t))));
                    assert(stk0.push((l - 5, 16 + code_sum(t))).drop_last() =~= stk0);
                    assert(stk0 == abs.drop_last());
                    let u = t.push(Instruction::AddTo(crate::parse_spec::addto_payload(insts1)));
                    assert(u.drop_last() =~= t);
                    assert(u.last() == Instruction::AddTo(
                        crate::parse_spec::addto_payload(insts1),
                    ));
                    assert(scan_loops(u) == Some(abs.drop_last()));
                },
                Option::None => {
                    assert(false);
                },
            }
        } else {
            let u = insts1.push(Instruction::LoopEnd(top.2));
            assert(u.drop_last() =~= insts1);
            assert(u.last() == Instruction::LoopEnd(top.2));
            let pos: int = 16 + code_sum(insts1);
            assert(pos == st.code_len);
            assert(u[abs.last().0] == insts1[ix_i]);
            assert(insts1[ix_i] == Instruction::LoopStart(st.code_len));
            assert(top.2 as int == abs.last().1);
            assert(scan_loops(u) == Some(abs.drop_last()));
        }
    }
}

proof fn lemma_run_parse_scan(st: ParseState, s: Seq<u8>, i0: int, n: int)
    requires
        wf_state(st, n),
        0 <= n,
        16 + 20 * (n + s.len()) <= usize::MAX,
        scan_loops(st.insts) == Some(abs_stack(st.stack)),
    ensures
        match run_parse(st, s, i0) {
            Ok(st2) => scan_loops(st2.insts) == Some(abs_stack(st2.stack)),
            Err(_) => true,
        },
    decreases s.len(),
{
    if s.len() > 0 {
        lemma_step_wf(st, s[0], i0, n);
        lemma_step_scan(st, s[0], i0, n);
        match step(st, s[0], i0) {
            Ok(st2) => {
                lemma_run_parse_scan(st2, s.drop_first(), i0 + 1, n + 1);
            },
            Err(_) => {},
        }
    }
}

/// Loop-offset consistency: in a successfully parsed IR the `LoopStart` and
/// `LoopEnd` entries nest like balanced brackets and all pair up, every
/// `LoopEnd` carries the code offset of its partner's block, and every
/// `LoopStart` carries the code offset of its partner `LoopEnd`'s block.
pub proof fn lemma_parse_loop_offsets(s: Seq<u8>)
    requires
        16 + 20 * s.len() <= usize::MAX,
    ensures
        spec_parse(s) matches Ok(ir) ==> scan_loops(ir) == Some(Seq::<(int, int)>::empty()),
{
    lemma_wf_init();
    assert(scan_loops(init_state().insts) == Some(abs_stack(init_state().stack))) by {
        assert(abs_stack(init_state().stack) =~= Seq::<(int, int)>::empty());
    }
    lemma_run_parse_scan(init_state(), s, 0, 0);
    match run_parse(init_state(), s, 0) {
        Ok(st) => {
            if st.stack.len() == 0 {
                assert(abs_stack(st.stack) =~= Seq::<(int, int)>::empty());
            }
        },
        Err(_) => {},
    }
}

} // verus!

//! The mathematical model of the parser/optimizer: a fold of a step function
//! over the source bytes, carrying the IR built so far, the open-bracket
//! stack and the running code-length counter.

use vstd::prelude::*;

use crate::ir::Instruction;

verus! {

/// The eight command bytes of the source language.
pub const B_PLUS: u8 = 43;

pub const B_MINUS: u8 = 45;

pub const B_RIGHT: u8 = 62;

pub const B_LEFT: u8 = 60;

pub const B_DOT: u8 = 46;

pub const B_COMMA: u8 = 44;

pub const B_OPEN: u8 = 91;

pub const B_CLOSE: u8 = 93;

/// The parser's transient state: the IR emitted so far, the stack of open
/// brackets as `(source index, IR index, code offset)` triples, and the
/// running count of native-code bytes the IR will compile to: always 16 for
/// the prologue plus the sum of the per-variant sizes of the IR so far.
#[verifier::ext_equal]
pub ghost struct ParseState {
    pub insts: Seq<Instruction>,
    pub stack: Seq<(usize, usize, usize)>,
    pub code_len: usize,
}

pub open spec fn init_state() -> ParseState {
    ParseState { insts: Seq::empty(), stack: Seq::empty(), code_len: 16 }
}

/// The trailing IR window that collapses to `Clear`: a loop holding exactly
/// one increment with an odd delta, which zeroes the cell because cells wrap
/// at 256.
pub open spec fn clear_window(s: Seq<Instruction>) -> bool {
    let l = s.len() as int;
    l >= 2 && s[l - 2] is LoopStart && s[l - 1] is Increment
        && s[l - 1]->Increment_0 % 2 != 0
}

/// The trailing IR window that collapses to `AddTo`: a loop that decrements
/// the cell, adds one to the cell `n` places away and comes back.
pub open spec fn addto_window(s: Seq<Instruction>) -> bool {
    let l = s.len() as int;
    l >= 5 && s[l - 5] is LoopStart
        && s[l - 4] == Instruction::Increment(-1i64)
        && s[l - 3] is Move
        && s[l - 2] == Instruction::Increment(1i64)
        && s[l - 1] is Move
        && s[l - 3]->Move_0 == -(s[l - 1]->Move_0 as int)
}

/// The relative offset the `AddTo` replacement carries.
pub open spec fn addto_payload(s: Seq<Instruction>) -> isize {
    s[s.len() - 3]->Move_0
}

/// Effect of one source byte on the parse state. `i` is the byte's index in
/// the source, used for bracket bookkeeping and error reporting. Non-command
/// bytes leave the state unchanged.
pub open spec fn step(st: ParseState, c: u8, i: int) -> Result<ParseState, (char, int)> {
    if c == B_PLUS || c == B_MINUS {
        let inc: int = if c == B_PLUS { 1int } else { -1int };
        let l = st.insts.len() as int;
        if l > 0 && st.insts.last() is Increment {
            let v = st.insts.last()->Increment_0 as int;
            if v + inc == 0 {
                Ok(ParseState {
                    insts: st.insts.drop_last(),
                    code_len: (st.code_len - 16) as usize,
                    ..st
                })
            } else {
                Ok(ParseState {
                    insts: st.insts.update(l - 1, Instruction::Increment((v + inc) as i64)),
                    ..st
                })
            }
        } else {
            Ok(ParseState {
                insts: st.insts.push(Instruction::Increment(inc as i64)),
                code_len: (st.code_len + 16) as usize,
                ..st
            })
        }
    } else if c == B_RIGHT || c == B_LEFT {
        let inc: int = if c == B_RIGHT { 1int } else { -1int };
        let l = st.insts.len() as int;
        if l > 0 && st.insts.last() is Move {
            let v = st.insts.last()->Move_0 as int;
            if v + inc == 0 {
                Ok(ParseState {
                    insts: st.insts.drop_last(),
                    code_len: (st.code_len - 16) as usize,
                    ..st
                })
            } else {
                Ok(ParseState {
                    insts: st.insts.update(l - 1, Instruction::Move((v + inc) as isize)),
                    ..st
                })
            }
        } else {
            Ok(ParseState {
                insts: st.insts.push(Instruction::Move(inc as isize)),
                code_len: (st.code_len + 16) as usize,
                ..st
            })
        }
    } else if c == B_DOT {
        Ok(ParseState {
            insts: st.insts.push(Instruction::Output),
            code_len: (st.code_len + 20) as usize,
            ..st
        })
    } else if c == B_COMMA {
        Ok(ParseState {
            insts: st.insts.push(Instruction::Input),
            code_len: (st.code_len + 20) as usize,
            ..st
        })
    } else if c == B_OPEN {
        Ok(ParseState {
            insts: st.insts.push(Instruction::LoopStart(0)),
            stack: st.stack.push((i as usize, st.insts.len() as usize, st.code_len)),
            code_len: (st.code_len + 12) as usize,
        })
    } else if c == B_CLOSE {
        if st.stack.len() == 0 {
            Err((']', i))
        } else {
            let top = st.stack.last();
            let stack2 = st.stack.drop_last();
            let insts1 = st.insts.update(top.1 as int, Instruction::LoopStart(st.code_len));
            let l = insts1.len() as int;
            if clear_window(insts1) {
                Ok(ParseState {
                    insts: insts1.subrange(0, l - 2).push(Instruction::Clear),
                    stack: stack2,
                    code_len: (st.code_len - 28 + 4) as usize,
                })
            } else if addto_window(insts1) {
                Ok(ParseState {
                    insts: insts1.subrange(0, l - 5).push(
                        Instruction::AddTo(addto_payload(insts1)),
                    ),
                    stack: stack2,
                    code_len: (st.code_len - 76 + 36) as usize,
                })
            } else {
                Ok(ParseState {
                    insts: insts1.push(Instruction::LoopEnd(top.2)),
                    stack: stack2,
                    code_len: (st.code_len + 12) as usize,
                })
            }
        }
    } else {
        Ok(st)
    }
}

/// Fold `step` over the bytes of `s`, whose first byte sits at source index
/// `i0`, starting from state `st`.
pub open spec fn run_parse(st: ParseState, s: Seq<u8>, i0: int) -> Result<ParseState, (char, int)>
    decreases s.len(),
{
    if s.len() == 0 {
        Ok(st)
    } else {
        match step(st, s[0], i0) {
            Ok(st2) => run_parse(st2, s.drop_first(), i0 + 1),
            Err(e) => Err(e),
        }
    }
}

/// What parsing a whole source returns: the finished IR, or the offending
/// bracket and its source index.
pub open spec fn spec_parse(s: Seq<u8>) -> Result<Seq<Instruction>, (char, int)> {
    match run_parse(init_state(), s, 0) {
        Ok(st) => if st.stack.len() == 0 {
            Ok(st.insts)
        } else {
            Err(('[', st.stack.last().0 as int))
        },
        Err(e) => Err(e),
    }
}

pub proof fn lemma_run_parse_append(st: ParseState, a: Seq<u8>, b: Seq<u8>, i0: int)
    ensures
        run_parse(st, a + b, i0) == (match run_parse(st, a, i0) {
            Ok(m) => run_parse(m, b, i0 + a.len()),
            Err(e) => Err(e),
        }),
    decreases a.len(),
{
    if a.len() == 0 {
        assert(a + b =~= b);
    } else {
        assert((a + b)[0] == a[0]);
        assert((a + b).drop_first() =~= a.drop_first() + b);
        match step(st, a[0], i0) {
            Ok(st2) => {
                lemma_run_parse_append(st2, a.drop_first(), b, i0 + 1);
            },
            Err(_) => {},
        }
    }
}

pub proof fn lemma_run_parse_snoc(st: ParseState, s: Seq<u8>, c: u8, i0: int)
    ensures
        run_parse(st, s.push(c), i0) == (match run_parse(st, s, i0) {
            Ok(m) => step(m, c, i0 + s.len()),
            Err(e) => Err(e),
        }),
{
    let t = seq![c];
    assert(s.push(c) =~= s + t);
    lemma_run_parse_append(st, s, t, i0);
    match run_parse(st, s, i0) {
        Ok(m) => {
            assert(t.drop_first() =~= Seq::<u8>::empty());
            match step(m, c, i0 + s.len()) {
                Ok(m2) => {
                    assert(run_parse(m2, t.drop_first(), i0 + s.len() + 1)
                        == Ok::<ParseState, (char, int)>(m2));
                },
                Err(_) => {},
            }
        },
        Err(_) => {},
    }
}

} // verus!

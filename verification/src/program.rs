//! The compiled program: the emitted native-code buffer together with the
//! tape it will run against.

use vstd::prelude::*;

use crate::codegen::spec_compile;
use crate::ir::Instruction;
use crate::parse_spec::spec_parse;

verus! {

/// The tape holds exactly this many 8-bit cells; the cell pointer wraps
/// modulo this length.
pub const MAX_MEM_ARRAY_SIZE: usize = 30000;

/// A compile-time bracket error: the offending character (`'['` or `']'`)
/// and the source byte index it sits at.
#[derive(Debug)]
pub struct UnbalancedBrackets(pub char, pub usize);

/// A compiled Brainfuck program: the emitted AArch64 code bytes and the
/// zero-initialized 30000-cell tape the host hands to it.
pub struct Program {
    pub(crate) code: Vec<u8>,
    pub(crate) memory: Vec<u8>,
}

impl Program {
    /// The emitted native-code bytes.
    pub closed spec fn code_bytes(&self) -> Seq<u8> {
        self.code@
    }

    /// The tape contents.
    pub closed spec fn memory_cells(&self) -> Seq<u8> {
        self.memory@
    }

    /// Parse and compile `source`, and pair the emitted code with a
    /// zero-initialized tape. A bracket error surfaces unchanged.
    pub fn new(source: &[u8]) -> (r: Result<Program, UnbalancedBrackets>)
        requires
            16 + 20 * source@.len() <= usize::MAX,
        ensures
            match r {
                Ok(p) => spec_parse(source@) matches Ok(ir) && p.code_bytes() == spec_compile(ir)
                    && p.memory_cells() == Seq::new(MAX_MEM_ARRAY_SIZE as nat, |j: int| 0u8),
                Err(e) => spec_parse(source@) == Err::<Seq<Instruction>, (char, int)>(
                    (e.0, e.1 as int),
                ),
            },
    {
        let instructions = match Program::parse(source) {
            Ok(v) => v,
            Err(e) => {
                return Err(e);
            },
        };
        let code = Program::compile(instructions);
        let mut memory: Vec<u8> = Vec::new();
        let mut k: usize = 0;
        while k < MAX_MEM_ARRAY_SIZE
            invariant
                k <= MAX_MEM_ARRAY_SIZE,
                memory@.len() == k,
                forall|j: int| 0 <= j < k ==> memory@[j] == 0u8,
            decreases MAX_MEM_ARRAY_SIZE - k,
        {
            memory.push(0);
            k = k + 1;
        }
        proof {
            assert(memory@ =~= Seq::new(MAX_MEM_ARRAY_SIZE as nat, |j: int| 0u8));
        }
        Ok(Program { code, memory })
    }

    /// Hand out the code bytes and the tape, for a host that installs the
    /// code in executable memory and runs it.
    pub fn into_parts(self) -> (r: (Vec<u8>, Vec<u8>))
        ensures
            r.0@ == self.code_bytes(),
            r.1@ == self.memory_cells(),
    {
        (self.code, self.memory)
    }
}

} // verus!

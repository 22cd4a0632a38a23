//! Basic blocks: straight-line runs of instructions.

use crate::compiler::ir::arena::InstId;
use vstd::prelude::*;

verus! {

/// An ordered list of the instructions of one straight-line region. The
/// blocks that follow it are those that its last instruction names.
#[derive(Debug)]
pub struct BasicBlock {
    pub insts: Vec<InstId>,
}

impl BasicBlock {
    /// An empty block.
    pub fn new() -> (r: BasicBlock)
        ensures
            r.insts@ == Seq::<InstId>::empty(),
    {
        BasicBlock { insts: Vec::new() }
    }

    /// Appends an instruction at the end.
    pub fn push(&mut self, inst: InstId)
        ensures
            final(self).insts@ == old(self).insts@.push(inst),
    {
        self.insts.push(inst);
    }

    /// The last instruction, if the block has any.
    pub fn last(&self) -> (r: Option<InstId>)
        ensures
            r == if self.insts@.len() == 0 {
                None::<InstId>
            } else {
                Some(self.insts@.last())
            },
    {
        if self.insts.len() == 0 {
            None
        } else {
            Some(self.insts[self.insts.len() - 1])
        }
    }
}

impl Clone for BasicBlock {
    fn clone(&self) -> (r: BasicBlock)
        ensures
            r.insts@ == self.insts@,
    {
        let mut insts: Vec<InstId> = Vec::new();
        let mut i: usize = 0;
        while i < self.insts.len()
            invariant
                i <= self.insts@.len(),
                insts@ == self.insts@.take(i as int),
            decreases self.insts@.len() - i,
        {
            insts.push(self.insts[i]);
            proof {
                assert(self.insts@.take(i + 1) =~= self.insts@.take(i as int).push(
                    self.insts@[i as int],
                ));
            }
            i += 1;
        }
        proof {
            assert(self.insts@.take(self.insts@.len() as int) =~= self.insts@);
        }
        BasicBlock { insts }
    }
}

} // verus!

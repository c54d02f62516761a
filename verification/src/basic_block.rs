//! Basic blocks: ordered sequences of instructions with a termination
//! invariant. Once a block ends in a terminator, nothing more may be
//! appended to it.

use vstd::prelude::*;
use crate::error::SlasmError;
use crate::instruction::{is_terminator, InstrView, Instruction};

verus! {

/// Whether an instruction sequence ends in a terminator.
pub open spec fn spec_terminated(instrs: Seq<InstrView>) -> bool {
    instrs.len() > 0 && is_terminator(instrs.last())
}

/// A maximal straight-line instruction sequence, intended to end in a
/// terminator (a jump, a conditional jump, or a return).
pub struct BasicBlock {
    instructions: Vec<Instruction>,
}

impl View for BasicBlock {
    type V = Seq<InstrView>;

    closed spec fn view(&self) -> Seq<InstrView> {
        self.instructions@.map_values(|i: Instruction| i@)
    }
}

impl BasicBlock {
    /// An empty block.
    pub fn new() -> (r: BasicBlock)
        ensures
            r@ == Seq::<InstrView>::empty(),
    {
        let b = BasicBlock { instructions: Vec::new() };
        proof {
            assert(b@ =~= Seq::<InstrView>::empty());
        }
        b
    }

    /// Appends an instruction; rejected once the block is terminated.
    pub fn append(&mut self, instr: Instruction) -> (r: Result<(), SlasmError>)
        ensures
            spec_terminated(old(self)@) ==> r == Result::<(), SlasmError>::Err(
                SlasmError::Terminated,
            ) && final(self)@ == old(self)@,
            !spec_terminated(old(self)@) ==> r == Result::<(), SlasmError>::Ok(()) && final(self)@
                == old(self)@.push(instr@),
    {
        if self.is_terminated() {
            return Err(SlasmError::Terminated);
        }
        let ghost prev = self.instructions@;
        self.instructions.push(instr);
        proof {
            assert(self@ =~= prev.map_values(|i: Instruction| i@).push(
                self.instructions@.last()@,
            ));
        }
        Ok(())
    }

    /// True exactly when the last instruction is a terminator.
    pub fn is_terminated(&self) -> (r: bool)
        ensures
            r == spec_terminated(self@),
    {
        if self.instructions.len() == 0 {
            return false;
        }
        let last = &self.instructions[self.instructions.len() - 1];
        proof {
            assert(self@.last() == self.instructions@.last()@);
        }
        match last {
            Instruction::Jump { .. } => true,
            Instruction::CondJump { .. } => true,
            Instruction::Ret => true,
            _ => false,
        }
    }

    /// The instructions in order, for iteration.
    pub fn iter(&self) -> (r: &[Instruction])
        ensures
            r@.map_values(|i: Instruction| i@) == self@,
    {
        self.instructions.as_slice()
    }

    /// The number of instructions in the block.
    pub fn size(&self) -> (r: usize)
        ensures
            r == self@.len(),
    {
        self.instructions.len()
    }

    /// Constant-time read access; rejected at or past the size.
    pub fn index(&self, idx: usize) -> (r: Result<&Instruction, SlasmError>)
        ensures
            idx < self@.len() ==> r is Ok && (r->Ok_0)@ == self@[idx as int],
            idx >= self@.len() ==> r == Result::<&Instruction, SlasmError>::Err(
                SlasmError::OutOfRange,
            ),
    {
        if idx < self.instructions.len() {
            Ok(&self.instructions[idx])
        } else {
            Err(SlasmError::OutOfRange)
        }
    }
}

/// Appending a terminator terminates the block: whatever the block held
/// before, after a jump, a conditional jump or a return is appended no
/// further append can succeed.
pub proof fn lemma_terminator_terminates(instrs: Seq<InstrView>, term: InstrView)
    requires
        is_terminator(term),
    ensures
        spec_terminated(instrs.push(term)),
{
    assert(instrs.push(term).last() == term);
}

} // verus!

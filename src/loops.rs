//! Matching of loop openings with loop closings over a stack of pending labels.

use vstd::prelude::*;
use crate::compiler::CompileError;
use crate::labels::LabelAllocator;
use crate::listing::{Line, Label, Instr, open_lines, close_lines};

verus! {

/// The pending loops of one program, innermost last, and the label allocator
/// that their ids came from.
pub struct LoopResolver {
    stack: Vec<u64>,
    labels: LabelAllocator,
}

impl LoopResolver {
    /// The ids of the loops opened and not yet closed, innermost last.
    pub closed spec fn pending(self) -> Seq<u64> {
        self.stack@
    }

    /// The id that the next loop opening receives.
    pub closed spec fn upcoming(self) -> nat {
        self.labels.upcoming()
    }

    pub closed spec fn wf(self) -> bool {
        &&& self.labels.wf()
        &&& forall|k: int| 0 <= k < self.stack@.len() ==> self.stack@[k] < self.labels.upcoming()
    }

    /// A resolver with no pending loop and a fresh allocator.
    pub fn new() -> (r: LoopResolver)
        ensures
            r.wf(),
            r.pending() == Seq::<u64>::empty(),
            r.upcoming() == 1,
    {
        LoopResolver { stack: Vec::new(), labels: LabelAllocator::new() }
    }

    /// Whether every opened loop has been closed.
    pub fn is_balanced(&self) -> (r: bool)
        ensures
            r == (self.pending().len() == 0),
    {
        self.stack.len() == 0
    }

    /// Opens a loop: a fresh label, the test of the cell, and the id pushed.
    pub fn open(&mut self, out: &mut Vec<Line>)
        requires
            old(self).wf(),
            old(self).upcoming() + 2 <= u64::MAX,
        ensures
            final(self).wf(),
            final(out)@ == old(out)@ + open_lines(old(self).upcoming() as u64),
            final(self).pending() == old(self).pending().push(old(self).upcoming() as u64),
            final(self).upcoming() == old(self).upcoming() + 2,
    {
        let l = self.labels.next();
        out.push(Line::Label(Label::Loop(l)));
        out.push(Line::Instr(Instr::LoadTest));
        out.push(Line::Instr(Instr::TestZero));
        out.push(Line::Instr(Instr::JumpIfZero(l + 1)));
        self.stack.push(l);
        assert(final(out)@ =~= old(out)@ + open_lines(l));
    }

    /// Closes the innermost pending loop: the jump back and the exit label.
    /// With no pending loop this is a mismatched close, and nothing changes.
    pub fn close(&mut self, out: &mut Vec<Line>) -> (r: Result<(), CompileError>)
        requires
            old(self).wf(),
        ensures
            final(self).wf(),
            final(self).upcoming() == old(self).upcoming(),
            old(self).pending().len() == 0 ==> {
                &&& r == Err::<(), CompileError>(CompileError::MismatchedLoopClose)
                &&& final(out)@ == old(out)@
                &&& final(self).pending() == old(self).pending()
            },
            old(self).pending().len() > 0 ==> {
                &&& r == Ok::<(), CompileError>(())
                &&& final(out)@ == old(out)@ + close_lines(old(self).pending().last())
                &&& final(self).pending() == old(self).pending().drop_last()
            },
    {
        match self.stack.pop() {
            None => Err(CompileError::MismatchedLoopClose),
            Some(l) => {
                proof {
                    self.labels.lemma_upcoming_bounded();
                    assert(old(self).stack@[old(self).stack@.len() - 1] == l);
                }
                out.push(Line::Instr(Instr::Jump(l)));
                out.push(Line::Label(Label::Loop(l + 1)));
                assert(final(out)@ =~= old(out)@ + close_lines(l));
                Ok(())
            },
        }
    }
}

} // verus!

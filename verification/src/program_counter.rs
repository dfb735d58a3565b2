use vstd::prelude::*;

verus! {

/// How the instruction pointer moves after one instruction has executed.
///
/// `Unknown` is a defensive "not yet decided" sentinel: an opcode handler
/// that fails to decide is an internal-consistency defect, so `resolve`
/// refuses the sentinel by precondition instead of resolving it.
#[derive(Clone, Copy, PartialEq, Eq, Structural, Debug)]
pub enum ProgramCounter {
    Unknown,
    Next,
    Skip,
    Jump(u16),
}

/// The counter value an outcome resolves to, relative to the counter value
/// `pc` at the start of the instruction: one instruction is two bytes, so
/// advancing is +2 and skipping the following instruction is +4.
pub open spec fn pc_dest(outcome: ProgramCounter, pc: u16) -> int {
    match outcome {
        ProgramCounter::Unknown => arbitrary(),
        ProgramCounter::Next => pc + 2,
        ProgramCounter::Skip => pc + 4,
        ProgramCounter::Jump(addr) => addr as int,
    }
}

impl ProgramCounter {
    /// Maps a "skip the next instruction when ..." condition to an outcome,
    /// centralizing the pattern shared by the conditional-skip opcodes.
    pub fn skip_when(condition: bool) -> (r: ProgramCounter)
        ensures
            r == if condition { ProgramCounter::Skip } else { ProgramCounter::Next },
    {
        if condition {
            ProgramCounter::Skip
        } else {
            ProgramCounter::Next
        }
    }

    /// Resolves the outcome against the counter value at the start of the
    /// instruction that produced it.
    pub fn resolve(&self, pc: u16) -> (r: u16)
        requires
            !(self is Unknown),
            self is Next ==> pc + 2 <= u16::MAX,
            self is Skip ==> pc + 4 <= u16::MAX,
        ensures
            r == pc_dest(*self, pc),
    {
        match self {
            ProgramCounter::Next => pc + 2,
            ProgramCounter::Skip => pc + 4,
            ProgramCounter::Jump(line) => *line,
            ProgramCounter::Unknown => unreached(),
        }
    }
}

} // verus!

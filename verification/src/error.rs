//! The error taxonomy of the IR construction and emission paths. All
//! violations are programmer faults in the IR producer; they are reported
//! as typed values so that callers and tests can observe the kind.

use vstd::prelude::*;

verus! {

/// Everything that can go wrong while building a SLASM program or
/// emitting it.
#[derive(Debug, Clone, Copy, PartialEq, Eq, Structural)]
pub enum SlasmError {
    /// A function, basic block, global, parameter or local was added under
    /// a name that already exists in its namespace.
    DuplicateName,
    /// A function entry was set to a basic block that does not exist.
    UnknownBlock,
    /// A program entry was set to, or a call lowering referred to, a
    /// function that is not registered.
    UnknownFunction,
    /// An instruction was appended to a basic block that already ends in
    /// a terminator.
    Terminated,
    /// A program or function was emitted before its entry was set.
    MissingEntry,
    /// A basic block without a terminator was found at emission time.
    NonTerminatedBlock,
    /// The header template does not contain the entry-point placeholder.
    MalformedTemplate,
    /// A zero-sized parameter, local or return slot was supplied.
    InvalidLayout,
    /// An index into a basic block was at or past its size.
    OutOfRange,
}

} // verus!

use vstd::prelude::*;

verus! {

/// The ways in which an operation on the note store can fail.
#[derive(Clone, Copy, Debug, PartialEq, Eq, Structural)]
pub enum NoteError {
    /// No note has the requested id.
    NotFound,
    /// The note text was empty, so no note was created.
    EmptyInput,
    /// The search pattern is not a valid regular expression.
    InvalidPattern,
}

} // verus!

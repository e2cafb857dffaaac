use vstd::prelude::*;

verus! {

/// Outcome taxonomy of every container operation.
///
/// Each operation returns one of these explicitly; nothing is retried,
/// repaired or swallowed.
#[derive(Clone, Copy, PartialEq, Eq, Structural, Debug)]
pub enum DatError {
    /// A read fell outside the byte source.
    Io,
    /// A structural violation: truncated header, an entry table declared
    /// beyond the decoded buffer, a payload shorter than its declared logical
    /// size, or a chain or directory whose links exceed the depth any
    /// well-formed container can need (a cycle).
    Format,
    /// The requested id is absent from an otherwise well-formed directory —
    /// an expected outcome, distinguished from corruption.
    NotFound,
}

} // verus!

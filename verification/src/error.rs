use vstd::prelude::*;

verus! {

/// Failure conditions surfaced by the signal pipeline.
///
/// `IoError` marks a malformed or truncated event log, `NotFound` a signal
/// name with no declaration, `IdOutOfRange` / `CycleOutOfRange` /
/// `InvalidRange` a request outside a stage's declared universe,
/// `InvalidTime` a malformed time-unit string, `RegexErr` a pattern set the
/// regular-expression engine rejected (it carries the pattern text involved),
/// and `Internal` a broken invariant that should abort the operation.
#[derive(Debug)]
pub enum Error {
    IoError(String),
    NotFound(String),
    IdOutOfRange(usize, usize, usize),
    CycleOutOfRange(usize, usize),
    InvalidRange(usize, usize, usize, usize),
    InvalidTime(String),
    RegexErr(String),
    Internal(String),
}

} // verus!

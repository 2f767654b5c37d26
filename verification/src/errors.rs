//! The error taxonomy of the resolution engine. Configuration errors are
//! detected when a resource is parsed or a solver is constructed; resolution
//! errors happen while a solver is queried and are retried on the next
//! reconciliation pass.

use vstd::prelude::*;

verus! {

/// A solver failed to produce addresses at query time.
#[derive(Debug)]
pub struct SolverError {
    pub reason: String,
}

/// Why an external IP source cannot be used: a solver failed, or the
/// configuration resource itself is malformed.
#[derive(Debug)]
pub enum IpSourceError {
    Solver(SolverError),
    Malformed(String),
}

/// A failure of an address source, as a plain message.
#[derive(Debug)]
pub struct SourceError {
    pub msg: String,
}

impl SourceError {
    pub fn new(msg: String) -> (r: SourceError)
        ensures
            r.msg@ == msg@,
    {
        SourceError { msg }
    }
}

/// A Service could not be processed.
#[derive(Debug)]
pub struct FinderError {
    pub msg: String,
}

} // verus!

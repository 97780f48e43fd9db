//! Errors reported by the library.
use vstd::prelude::*;

verus! {

/// What went wrong.
#[derive(Clone, Copy, Debug, PartialEq, Eq, Structural)]
pub enum ErrorKind {
    /// A configuration value or an argument breaks a precondition; found before the
    /// engine is called.
    Validation,
    /// The engine reported a failure.
    Engine,
    /// A model file to load does not exist.
    NotFound,
    /// An evaluation line or a feature map has an unexpected structure.
    Parse,
}

/// An error together with a description for the user.
#[derive(Debug)]
pub struct XGBError {
    pub kind: ErrorKind,
    pub desc: String,
}

impl XGBError {
    pub fn new(kind: ErrorKind, desc: String) -> (r: XGBError)
        ensures
            r.kind == kind,
            r.desc@ == desc@,
    {
        XGBError { kind, desc }
    }
}

} // verus!

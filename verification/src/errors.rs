//! Shared failure classification for every core operation.
//!
//! Every operation returns a typed failure rather than a partial or default
//! value; callers distinguish failures by their kind.

use vstd::prelude::*;

verus! {

/// The classification of a failure.
///
/// - `NotFound`: the store returned no matching row; expected for bad keys.
/// - `ResolutionError`: no default translation is registered.
/// - `CacheCorruption`: a cached payload failed to deserialize into the
///   expected shape; fatal for the request, never masked by re-querying.
/// - `ParseError`: an unrecognized enumerated name supplied by a caller.
/// - `StoreError`: the backing store's client failed.
/// - `CacheError`: the cache client failed.
#[derive(Clone, Copy, PartialEq, Eq, Structural, Debug)]
pub enum ErrorKind {
    NotFound,
    ResolutionError,
    CacheCorruption,
    ParseError,
    StoreError,
    CacheError,
}

/// A failure of a core operation: a kind plus a human-readable message.
#[derive(Debug, PartialEq)]
pub struct CorpusError {
    pub kind: ErrorKind,
    pub msg: String,
}

impl CorpusError {
    /// Builds an error of the given kind whose message is `context`
    /// followed by `detail`.
    pub fn new(kind: ErrorKind, context: &str, detail: &str) -> (r: CorpusError)
        ensures
            r.kind == kind,
            r.msg@ == context@ + detail@,
    {
        let mut msg = String::new();
        msg.append(context);
        msg.append(detail);
        CorpusError { kind, msg }
    }

    /// The message carried by this error.
    pub fn description(&self) -> (r: &str)
        ensures
            r@ == self.msg@,
    {
        self.msg.as_str()
    }
}

impl Clone for CorpusError {
    fn clone(&self) -> (r: Self)
        ensures
            r == *self,
    {
        CorpusError { kind: self.kind, msg: self.msg.clone() }
    }
}

} // verus!

//! Failures that a scan records and carries on from.

use vstd::prelude::*;

verus! {

/// What went wrong with a directory or a file.
#[derive(Clone, Copy, Debug, PartialEq, Eq, Structural)]
pub enum FailureKind {
    /// A directory could not be opened or listed.
    DirectoryUnreadable,
    /// A candidate file could not be opened or decoded as an image.
    DecodeFailure,
    /// Decoded pixel data was empty or malformed.
    FingerprintFailure,
}

/// One recorded failure: its kind, the path it concerns and the reason given.
#[derive(Debug)]
pub struct Failure {
    pub kind: FailureKind,
    pub path: String,
    pub reason: String,
}

/// The mathematical value of a `Failure`.
pub ghost struct FailureView {
    pub kind: FailureKind,
    pub path: Seq<char>,
    pub reason: Seq<char>,
}

impl View for Failure {
    type V = FailureView;

    open spec fn view(&self) -> FailureView {
        FailureView { kind: self.kind, path: self.path@, reason: self.reason@ }
    }
}

impl DeepView for Failure {
    type V = FailureView;

    open spec fn deep_view(&self) -> FailureView {
        self@
    }
}

impl Failure {
    /// A failure of kind `kind` on `path`, with the reason given for it.
    pub fn new(kind: FailureKind, path: String, reason: String) -> (failure: Failure)
        ensures
            failure@ == (FailureView { kind, path: path@, reason: reason@ }),
    {
        Failure { kind, path, reason }
    }
}

} // verus!

//! Errors raised by the update engine.

use vstd::prelude::*;

verus! {

/// Why a run over a feed and a set of manifests was aborted.
#[derive(Clone, Copy, Debug, PartialEq, Eq, Structural)]
pub enum UpdateError {
    /// The feed document lacks its `updates` array, or an update entry
    /// lacks a `name` string or a well-shaped `sources` array.
    FeedSchema,
    /// A manifest lacks its `modules` array, a module is not an object or
    /// lacks a `name` string, or a catalogued module's `sources` entry is
    /// not an array of objects.
    ManifestSchema,
    /// A source delta does not designate exactly one identifier key
    /// (a key ending in the reserved suffix).
    IdentifierNotFound,
    /// A package name was looked up that no update record carries.
    UpdateNotFound,
}

impl UpdateError {
    /// A short description, for reporting at the caller's edge.
    pub fn describe(&self) -> (r: &'static str)
        ensures
            r@ == self.spec_describe(),
    {
        match self {
            UpdateError::FeedSchema => "update feed does not have the expected shape",
            UpdateError::ManifestSchema => "manifest does not have the expected shape",
            UpdateError::IdentifierNotFound => "source delta has no unique update identifier",
            UpdateError::UpdateNotFound => "no update record exists for the package",
        }
    }

    pub open spec fn spec_describe(&self) -> Seq<char> {
        match self {
            UpdateError::FeedSchema => "update feed does not have the expected shape"@,
            UpdateError::ManifestSchema => "manifest does not have the expected shape"@,
            UpdateError::IdentifierNotFound => "source delta has no unique update identifier"@,
            UpdateError::UpdateNotFound => "no update record exists for the package"@,
        }
    }
}

} // verus!

//! Feed location: where a feed's table files live.
//!
//! A provider only answers with the directory that holds the extracted
//! table files; opening those files, and extracting an archive into such a
//! directory, are the callers' business.

use vstd::prelude::*;

verus! {

/// A source of a feed's table files, by the directory that holds them.
/// Implementors supply the path; what the path must point at is between
/// the implementor and the caller that opens files under it.
pub trait FeedProvider {
    /// The directory that holds the feed's table files.
    fn path(&self) -> &str;
}

/// A feed already sitting in a local directory.
pub struct LocalFeedProvider {
    path: String,
}

impl LocalFeedProvider {
    /// The provider's directory.
    pub closed spec fn spec_path(&self) -> Seq<char> {
        self.path@
    }

    pub fn new(path: &str) -> (r: LocalFeedProvider)
        ensures
            r.spec_path() == path@,
    {
        LocalFeedProvider { path: path.to_owned() }
    }
}

impl FeedProvider for LocalFeedProvider {
    fn path(&self) -> &str {
        self.path.as_str()
    }
}

} // verus!

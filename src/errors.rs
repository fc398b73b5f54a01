use vstd::prelude::*;

verus! {

/// What the engine refuses.
#[derive(Debug, PartialEq)]
pub enum VmbidError {
    /// The username is absent, empty or white space throughout.
    MissingUsername,
    /// The user has never been credited with any volume.
    NotFound(String),
}

} // verus!

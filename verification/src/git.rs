//! The repository state that tagging and configuration templating
//! read: resolved by a caller from the working tree, consumed here as
//! plain values.

use vstd::prelude::*;

verus! {

/// The state of the working tree's repository.
pub struct State {
    /// The working tree differs from the committed state.
    pub dirty: bool,
    /// The tag the current head carries, if any.
    pub tag: Option<Vec<u8>>,
    /// The full hex id of the current commit.
    pub commit: Vec<u8>,
}

} // verus!

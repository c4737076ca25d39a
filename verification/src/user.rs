//! What the server tells of a user.
use vstd::prelude::*;

verus! {

/// The name of a user, and whether any connection of theirs is open.
#[derive(Clone, Debug, PartialEq, Eq)]
pub struct User {
    pub name: String,
    pub online: bool,
}

} // verus!

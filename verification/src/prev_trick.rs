//! Where the war phase puts the trick that was just completed.
use vstd::prelude::*;
use crate::war_trick::{WarTrick, WarTrickView};

verus! {

/// A place for the last completed trick. An embedder that has no use for it
/// takes the unit type, which keeps nothing.
pub trait PreviousTrick: Sized {
    /// The trick that the place holds.
    spec fn held(&self) -> Option<WarTrickView>;

    /// Whether the place keeps the tricks that it is handed.
    spec fn keeps() -> bool;

    fn empty() -> (r: Self)
        ensures
            r.held().is_none(),
    ;

    fn set(&mut self, trick: WarTrick)
        ensures
            final(self).held() == (if Self::keeps() { Some(trick@) } else { None }),
    ;
}

impl PreviousTrick for () {
    open spec fn held(&self) -> Option<WarTrickView> {
        None
    }

    open spec fn keeps() -> bool {
        false
    }

    fn empty() -> (r: ()) {
    }

    fn set(&mut self, trick: WarTrick) {
    }
}

impl PreviousTrick for Option<WarTrick> {
    open spec fn held(&self) -> Option<WarTrickView> {
        match *self {
            Some(trick) => Some(trick@),
            None => None,
        }
    }

    open spec fn keeps() -> bool {
        true
    }

    fn empty() -> (r: Option<WarTrick>) {
        None
    }

    fn set(&mut self, trick: WarTrick) {
        *self = Some(trick);
    }
}

} // verus!

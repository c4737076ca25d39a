//! A place for at most one value, which an embedder may choose not to keep.
use vstd::prelude::*;

verus! {

/// A place that is handed values, and may hold the last of them.
pub trait Slot<T>: Sized {
    /// What the place holds.
    spec fn held(&self) -> Option<T>;

    /// Whether the place keeps what it is handed.
    spec fn keeps() -> bool;

    fn get(&self) -> (r: Option<&T>)
        ensures
            match r {
                Some(v) => self.held() == Some(*v),
                None => self.held().is_none(),
            },
    ;

    fn set(&mut self, value: T)
        ensures
            final(self).held() == (if Self::keeps() { Some(value) } else { None }),
    ;
}

impl<T> Slot<T> for () {
    open spec fn held(&self) -> Option<T> {
        None
    }

    open spec fn keeps() -> bool {
        false
    }

    fn get(&self) -> (r: Option<&T>) {
        None
    }

    fn set(&mut self, value: T) {
    }
}

impl<T> Slot<T> for Option<T> {
    open spec fn held(&self) -> Option<T> {
        *self
    }

    open spec fn keeps() -> bool {
        true
    }

    fn get(&self) -> (r: Option<&T>) {
        self.as_ref()
    }

    fn set(&mut self, value: T) {
        *self = Some(value);
    }
}

} // verus!

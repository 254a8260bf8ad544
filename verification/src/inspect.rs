//! Looking at the failure of an `Option` or a `Result` on the way through.

use vstd::prelude::*;

verus! {

/// Runs a callback on the failure of a value and passes the value on.
pub trait Inspect: Sized {
    /// What the callback receives.
    type InspectType;

    /// The failure that the callback receives, if the value holds one.
    spec fn failure(&self) -> Option<Self::InspectType>;

    /// Calls `f` on the failure, if any, and returns `self` unchanged.
    fn inspect_fail<F>(self, f: F) -> (r: Self) where F: FnOnce(&Self::InspectType)
        requires
            self.failure() matches Some(x) ==> call_requires(f, (&x,)),
        ensures
            r == self,
            self.failure() matches Some(x) ==> call_ensures(f, (&x,), ()),
    ;
}

impl<T> Inspect for Option<T> {
    type InspectType = ();

    /// `None` is a failure that carries nothing.
    open spec fn failure(&self) -> Option<()> {
        match self {
            None => Some(()),
            Some(_) => None,
        }
    }

    fn inspect_fail<F>(self, f: F) -> (r: Self) where F: FnOnce(&()) {
        if self.is_none() {
            f(&());
        }
        self
    }
}

impl<T, E> Inspect for Result<T, E> {
    type InspectType = E;

    /// `Err` carries its error.
    open spec fn failure(&self) -> Option<E> {
        match self {
            Err(e) => Some(*e),
            Ok(_) => None,
        }
    }

    fn inspect_fail<F>(self, f: F) -> (r: Self) where F: FnOnce(&E) {
        if let Err(err) = &self {
            f(err);
        }
        self
    }
}

} // verus!

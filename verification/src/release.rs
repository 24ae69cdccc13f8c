use vstd::prelude::*;

use crate::generic_event::{EventArgs, GenericEvent, RELEASE_KIND};

verus! {

/// The button payload of `e` under the release view: `Some` exactly when
/// `e` is tagged as a release and carries a button.
pub open spec fn release_payload<T: GenericEvent>(e: T) -> Option<u64> {
    if e.kind_of() == RELEASE_KIND {
        match e.args_of() {
            EventArgs::Button(b) => Some(b),
            EventArgs::Size(_, _) => None,
        }
    } else {
        None
    }
}

/// The release of a button: a semantic view over any generic event
/// representation.
pub trait ReleaseEvent: GenericEvent {
    /// Creates a release event carrying `button`; `None` (never a fault)
    /// when the representation does not support the release view.
    fn from_button(button: u64) -> (r: Option<Self>)
        ensures
            Self::supported(RELEASE_KIND) ==> (r matches Some(e) && release_payload(e) == Some(
                button,
            )),
            !Self::supported(RELEASE_KIND) ==> r is None,
    ;

    /// Calls the closure on the carried button if this is a release
    /// event; `None` otherwise.
    fn release<U, F: FnOnce(u64) -> U>(&self, f: F) -> (r: Option<U>)
        requires
            release_payload(*self) matches Some(b) ==> call_requires(f, (b,)),
        ensures
            release_payload(*self) is None ==> r is None,
            release_payload(*self) matches Some(b) ==> (r matches Some(u) && call_ensures(
                f,
                (b,),
                u,
            )),
    ;

    /// Returns the release arguments.
    fn release_args(&self) -> (r: Option<u64>)
        ensures
            r == release_payload(*self),
    ;
}

impl<T: GenericEvent> ReleaseEvent for T {
    fn from_button(button: u64) -> (r: Option<T>) {
        T::from_event(RELEASE_KIND, EventArgs::Button(button))
    }

    fn release<U, F: FnOnce(u64) -> U>(&self, f: F) -> (r: Option<U>) {
        match self.with_event(RELEASE_KIND) {
            Some(args) => match args {
                EventArgs::Button(b) => Some(f(b)),
                EventArgs::Size(_, _) => None,
            },
            None => None,
        }
    }

    fn release_args(&self) -> (r: Option<u64>) {
        match self.with_event(RELEASE_KIND) {
            Some(args) => match args {
                EventArgs::Button(b) => Some(b),
                EventArgs::Size(_, _) => None,
            },
            None => None,
        }
    }
}

} // verus!

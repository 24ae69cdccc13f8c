use vstd::prelude::*;

use crate::generic_event::{EventArgs, GenericEvent, RESIZE_KIND};
use crate::release::release_payload;

verus! {

/// The width and height payload of `e` under the resize view: `Some`
/// exactly when `e` is tagged as a resize and carries a size.
pub open spec fn resize_payload<T: GenericEvent>(e: T) -> Option<(u32, u32)> {
    if e.kind_of() == RESIZE_KIND {
        match e.args_of() {
            EventArgs::Size(w, h) => Some((w, h)),
            EventArgs::Button(_) => None,
        }
    } else {
        None
    }
}

/// The resize of a window: a semantic view over any generic event
/// representation.
pub trait ResizeEvent: GenericEvent {
    /// Creates a resize event carrying `w` and `h`; `None` (never a
    /// fault) when the representation does not support the resize view.
    fn from_width_height(w: u32, h: u32) -> (r: Option<Self>)
        ensures
            Self::supported(RESIZE_KIND) ==> (r matches Some(e) && resize_payload(e) == Some(
                (w, h),
            )),
            !Self::supported(RESIZE_KIND) ==> r is None,
    ;

    /// Calls the closure on the carried width and height if this is a
    /// resize event; `None` otherwise.
    fn resize<U, F: FnOnce(u32, u32) -> U>(&self, f: F) -> (r: Option<U>)
        requires
            resize_payload(*self) matches Some(p) ==> call_requires(f, p),
        ensures
            resize_payload(*self) is None ==> r is None,
            resize_payload(*self) matches Some(p) ==> (r matches Some(u) && call_ensures(f, p, u)),
    ;

    /// Returns the resize arguments.
    fn resize_args(&self) -> (r: Option<[u32; 2]>)
        ensures
            resize_payload(*self) is None ==> r is None,
            resize_payload(*self) matches Some(p) ==> (r matches Some(a) && a[0] == p.0 && a[1]
                == p.1),
    ;
}

impl<T: GenericEvent> ResizeEvent for T {
    fn from_width_height(w: u32, h: u32) -> (r: Option<T>) {
        T::from_event(RESIZE_KIND, EventArgs::Size(w, h))
    }

    fn resize<U, F: FnOnce(u32, u32) -> U>(&self, f: F) -> (r: Option<U>) {
        match self.with_event(RESIZE_KIND) {
            Some(args) => match args {
                EventArgs::Size(w, h) => Some(f(w, h)),
                EventArgs::Button(_) => None,
            },
            None => None,
        }
    }

    fn resize_args(&self) -> (r: Option<[u32; 2]>) {
        match self.with_event(RESIZE_KIND) {
            Some(args) => match args {
                EventArgs::Size(w, h) => Some([w, h]),
                EventArgs::Button(_) => None,
            },
            None => None,
        }
    }
}

/// A release event answers `None` to the resize view: the two kind tags
/// differ, and extraction is an exact tag match.
pub proof fn lemma_release_excludes_resize<T: GenericEvent>(e: T, button: u64)
    requires
        release_payload(e) == Some(button),
    ensures
        resize_payload::<T>(e) is None,
{
}

/// A resize event answers `None` to the release view.
pub proof fn lemma_resize_excludes_release<T: GenericEvent>(e: T, w: u32, h: u32)
    requires
        resize_payload(e) == Some((w, h)),
    ensures
        release_payload::<T>(e) is None,
{
}

} // verus!

use vstd::prelude::*;

verus! {

/// A callback registered beside an observer: it runs against the host
/// application state whenever the observer's trigger condition holds.
///
/// An implementor describes what a run may do through its `effect`
/// relation over the command's own state and the application state; `call`
/// is bound to that description.
pub trait Command: Sized {
    /// The host application state the command mutates.
    type App;

    /// How one invocation relates the command and application states
    /// before the call to those after it.
    spec fn effect(pre: Self, pre_app: Self::App, post: Self, post_app: Self::App) -> bool;

    /// Run the command against the host application state.
    fn call(&mut self, app: &mut Self::App)
        ensures
            Self::effect(*old(self), *old(app), *final(self), *final(app)),
    ;
}

} // verus!

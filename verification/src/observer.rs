use vstd::prelude::*;

verus! {

/// The capability a watcher must offer to be registered with an event
/// center: react to raw events, advance by per-tick deltas, report whether
/// its trigger condition holds, and reset itself after its command has run.
///
/// Each implementor describes its own behaviour through the three step
/// relations and the `ready` predicate; the methods are then bound to those
/// descriptions, so the scheduler's contracts can speak about what happened
/// to every observer it touched without knowing the concrete type.
pub trait Observer: Sized {
    /// The raw event representation this observer reacts to.
    type Ev;

    /// How a delivered event may change the observer's state.
    spec fn event_step(pre: Self, e: Self::Ev, post: Self) -> bool;

    /// How one tick of `dt` time units may change the observer's state.
    spec fn tick_step(pre: Self, dt: u64, post: Self) -> bool;

    /// The trigger condition: a pure predicate of the current state.
    spec fn ready(self) -> bool;

    /// How the state may change right after the associated command has run.
    spec fn reset_step(pre: Self, post: Self) -> bool;

    /// React to a raw event (e.g. update internal counters).
    fn on_event(&mut self, e: &Self::Ev)
        ensures
            Self::event_step(*old(self), *e, *final(self)),
    ;

    /// Advance internal state by the tick delta.
    fn update(&mut self, dt: u64)
        ensures
            Self::tick_step(*old(self), dt, *final(self)),
    ;

    /// Decide whether the registered command should fire this tick.
    fn can_trigger(&self) -> (r: bool)
        ensures
            r == self.ready(),
    ;

    /// Hook run immediately after the command fires, typically resetting
    /// internal state so that `can_trigger` turns false again.
    fn after_trigger(&mut self)
        ensures
            Self::reset_step(*old(self), *final(self)),
    ;
}

} // verus!

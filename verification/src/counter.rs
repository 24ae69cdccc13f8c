use vstd::prelude::*;

use crate::command::Command;
use crate::event_center::reg_tick;
use crate::generic_event::InputEvent;
use crate::observer::Observer;

verus! {

/// `a + d`, capped at the largest representable value.
pub open spec fn sat_add(a: u64, d: u64) -> u64 {
    if a + d > u64::MAX {
        u64::MAX
    } else {
        (a + d) as u64
    }
}

/// A concrete watcher: counts delivered events and elapsed time into one
/// counter, triggers whenever the counter has reached its threshold, and
/// clears the counter right after each firing.
pub struct TickObserver {
    /// Events seen and time elapsed since the last firing.
    pub count: u64,
    /// The counter value at which the trigger condition turns true.
    pub threshold: u64,
}

impl TickObserver {
    /// Returns a watcher with threshold `threshold` and a cleared
    /// counter.
    pub fn new(threshold: u64) -> (r: TickObserver)
        ensures
            r.count == 0,
            r.threshold == threshold,
    {
        TickObserver { count: 0, threshold }
    }
}

impl Observer for TickObserver {
    type Ev = InputEvent;

    open spec fn event_step(pre: TickObserver, e: InputEvent, post: TickObserver) -> bool {
        post.count == sat_add(pre.count, 1) && post.threshold == pre.threshold
    }

    open spec fn tick_step(pre: TickObserver, dt: u64, post: TickObserver) -> bool {
        post.count == sat_add(pre.count, dt) && post.threshold == pre.threshold
    }

    open spec fn ready(self) -> bool {
        self.count >= self.threshold
    }

    open spec fn reset_step(pre: TickObserver, post: TickObserver) -> bool {
        post.count == 0 && post.threshold == pre.threshold
    }

    fn on_event(&mut self, e: &InputEvent) {
        if self.count > u64::MAX - 1 {
            self.count = u64::MAX;
        } else {
            self.count = self.count + 1;
        }
    }

    fn update(&mut self, dt: u64) {
        if self.count > u64::MAX - dt {
            self.count = u64::MAX;
        } else {
            self.count = self.count + dt;
        }
    }

    fn can_trigger(&self) -> (r: bool) {
        self.count >= self.threshold
    }

    fn after_trigger(&mut self) {
        self.count = 0;
    }
}

/// A concrete command over a plain counter as the host application
/// state: each run raises the counter by one, capped at the largest
/// representable value.
pub struct BumpCommand {}

impl Command for BumpCommand {
    type App = u64;

    open spec fn effect(pre: BumpCommand, pre_app: u64, post: BumpCommand, post_app: u64) -> bool {
        post_app == sat_add(pre_app, 1)
    }

    fn call(&mut self, app: &mut u64) {
        if *app > u64::MAX - 1 {
            *app = u64::MAX;
        } else {
            *app = *app + 1;
        }
    }
}

/// For this concrete watcher and command the scheduler's tick relation is
/// deterministic: on a tick where the registration is visited, the
/// command fires exactly when the counter advanced by `dt` reaches the
/// threshold; a firing raises the host counter by one and clears the
/// watcher's counter before the next tick, and a silent tick changes
/// neither the host counter nor the command.
pub proof fn lemma_tick_observer_run(
    pre: TickObserver,
    cmd: BumpCommand,
    a0: u64,
    dt: u64,
    post: TickObserver,
    post_cmd: BumpCommand,
    a1: u64,
    fired: bool,
)
    requires
        reg_tick(pre, cmd, a0, dt, post, post_cmd, a1, fired),
    ensures
        fired == (sat_add(pre.count, dt) >= pre.threshold),
        post.threshold == pre.threshold,
        fired ==> post.count == 0 && a1 == sat_add(a0, 1),
        !fired ==> post.count == sat_add(pre.count, dt) && a1 == a0,
{
}

} // verus!

//! In-process event notification for a tick-driven application loop.
//!
//! Two cooperating mechanisms:
//! - an observer dispatch scheduler ([`event_center::EventCenter`]) that
//!   tracks registered watchers, feeds them per-tick time deltas, and runs
//!   an associated command when a watcher's own trigger condition holds;
//! - a generic event extraction protocol ([`generic_event::GenericEvent`]
//!   with the semantic views [`release::ReleaseEvent`] and
//!   [`resize::ResizeEvent`]) that layers independent semantic views over
//!   one concrete event representation.

pub mod command;
pub mod counter;
pub mod event_center;
pub mod generic_event;
pub mod observer;
pub mod release;
pub mod resize;

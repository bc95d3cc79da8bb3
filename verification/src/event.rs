//! Event payloads handed to the scheduler.
//!
//! The scheduler treats the payload as opaque: it orders work by time alone,
//! and the driver loop interprets what each event means.

use vstd::prelude::*;

verus! {

/// A unit of scheduled work. The kinds are opaque to the scheduler; the
/// driver decides what each one means when it is popped.
#[derive(Clone, Copy, PartialEq, Eq, Debug)]
pub enum Event {
    Foo,
    Bar,
    Test(i32),
}

/// An event paired with the simulated time at which it becomes due.
#[derive(Clone, Copy, Debug)]
pub struct EventWrapper {
    pub time: u32,
    pub event: Event,
}

impl EventWrapper {
    pub fn new(time: u32, event: Event) -> (w: Self)
        ensures
            w.time == time,
            w.event == event,
    {
        Self { time, event }
    }
}

} // verus!

//! A named timer for measuring how long a piece of work takes.
use vstd::prelude::*;
use std::time::Instant;

verus! {

/// Notes when it was made; whoever holds it reports the elapsed time.
pub struct Tracer {
    name: &'static str,
    start_time: Instant,
}

impl Tracer {
    pub closed spec fn spec_name(&self) -> &'static str {
        self.name
    }

    /// A timer named `name`, started now.
    pub fn new(name: &'static str) -> (r: Tracer)
        ensures
            r.spec_name() == name,
    {
        Tracer { name, start_time: Instant::now() }
    }

    /// The timer's name.
    pub fn name(&self) -> (r: &'static str)
        ensures
            r == self.spec_name(),
    {
        self.name
    }

    /// Whole milliseconds since the timer was made.
    pub fn elapsed_millis(&self) -> u128 {
        self.start_time.elapsed().as_millis()
    }
}

} // verus!

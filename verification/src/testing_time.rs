//! A time that a test sets by hand.
use vstd::prelude::*;

use crate::time::FrameworkTime;

verus! {

#[derive(Debug)]
pub struct TimeSource(pub FrameworkTime);

impl TimeSource {
    pub fn new(time: FrameworkTime) -> (r: Self)
        ensures
            r.0 == time,
    {
        TimeSource(time)
    }

    pub fn get(&self) -> (r: FrameworkTime)
        ensures
            r == self.0,
    {
        self.0
    }

    pub fn set(&mut self, time: FrameworkTime)
        ensures
            final(self).0 == time,
    {
        self.0 = time;
    }
}

impl crate::executor::TimeSource for TimeSource {
    fn now(&self) -> (r: FrameworkTime)
        ensures
            r == self.0,
    {
        self.0
    }
}

} // verus!

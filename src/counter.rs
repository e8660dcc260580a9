//! A counter that yields 1 to 5, one number per call.
use vstd::prelude::*;

verus! {

pub struct Counter {
    count: u32,
}

impl Counter {
    /// How many numbers have been yielded so far.
    pub closed spec fn count(&self) -> u32 {
        self.count
    }

    /// A counter that has yielded nothing yet.
    pub fn new() -> (r: Counter)
        ensures
            r.count() == 0,
    {
        Counter { count: 0 }
    }

    /// The next number, or `None` once 5 has been yielded.
    pub fn next(&mut self) -> (r: Option<u32>)
        ensures
            old(self).count() < 5 ==> r == Some((old(self).count() + 1) as u32)
                && final(self).count() == old(self).count() + 1,
            old(self).count() >= 5 ==> r is None && final(self).count() == old(self).count(),
    {
        if self.count < 5 {
            self.count = self.count + 1;
            Some(self.count)
        } else {
            None
        }
    }
}

} // verus!

use vstd::prelude::*;

verus! {

/// A coarse tick counter.
pub type Timestamp = u32;

/// A monotonic clock: every reading is one tick past the last.
pub struct Clock {
    time: Timestamp,
}

impl Clock {
    pub closed spec fn spec_time(&self) -> u32 {
        self.time
    }

    pub fn new() -> (c: Clock)
        ensures
            c.spec_time() == 0,
    {
        Clock { time: 0 }
    }

    pub fn now(&mut self) -> (t: Timestamp)
        requires
            old(self).spec_time() < u32::MAX,
        ensures
            final(self).spec_time() == old(self).spec_time() + 1,
            t == final(self).spec_time(),
    {
        self.time = self.time + 1;
        self.time
    }
}

} // verus!

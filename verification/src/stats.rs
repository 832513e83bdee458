//! Typing speed: how many keys were pressed, and over how much time.

use vstd::prelude::*;

verus! {

/// Key presses counted, with the time that passed between them. Times are
/// in nanoseconds, measured from an origin that the caller chooses.
#[derive(Clone, Copy, Debug)]
pub struct Stats {
    duration_sum: u64,
    last_key: Option<u64>,
    count: u32,
}

/// The mathematical state of `Stats`.
pub struct Tally {
    /// Sum of the times between one key and the next.
    pub duration_sum: nat,
    /// Time of the last key, if there was one.
    pub last_key: Option<nat>,
    /// Number of keys.
    pub count: nat,
}

impl Tally {
    /// Time between the last key and a key at `ts`: zero for the first key,
    /// and for a key that is not later than the last one.
    pub open spec fn gap(self, ts: nat) -> nat {
        match self.last_key {
            Some(last) => if ts >= last {
                (ts - last) as nat
            } else {
                0
            },
            None => 0,
        }
    }

    /// The state after a key at `ts`.
    pub open spec fn add(self, ts: nat) -> Tally {
        Tally {
            duration_sum: self.duration_sum + self.gap(ts),
            last_key: Some(ts),
            count: self.count + 1,
        }
    }

    /// Whether a key at `ts` can be counted without leaving the range of
    /// the counters.
    pub open spec fn admits(self, ts: nat) -> bool {
        self.count < u32::MAX && self.duration_sum + self.gap(ts) <= u64::MAX
    }
}

impl View for Stats {
    type V = Tally;

    closed spec fn view(&self) -> Tally {
        Tally {
            duration_sum: self.duration_sum as nat,
            last_key: match self.last_key {
                Some(last) => Some(last as nat),
                None => None,
            },
            count: self.count as nat,
        }
    }
}

impl Stats {
    /// Nothing counted yet.
    pub fn new() -> (stats: Stats)
        ensures
            stats@ == (Tally { duration_sum: 0, last_key: None, count: 0 }),
    {
        Stats { duration_sum: 0, last_key: None, count: 0 }
    }

    /// Decides `admits`.
    pub fn accepts(&self, ts: u64) -> (ok: bool)
        ensures
            ok == self@.admits(ts as nat),
    {
        let gap = match self.last_key {
            Some(last) => if ts >= last {
                ts - last
            } else {
                0
            },
            None => 0,
        };
        self.count < u32::MAX && gap <= u64::MAX - self.duration_sum
    }

    /// Counts a key pressed at `ts`.
    pub fn add(&mut self, ts: u64)
        requires
            old(self)@.admits(ts as nat),
        ensures
            final(self)@ == old(self)@.add(ts as nat),
    {
        let gap = match self.last_key {
            Some(last) => if ts >= last {
                ts - last
            } else {
                0
            },
            None => 0,
        };
        self.count = self.count + 1;
        self.duration_sum = self.duration_sum + gap;
        self.last_key = Some(ts);
    }

    /// Number of keys counted.
    pub fn count(&self) -> (count: u32)
        ensures
            count == self@.count,
    {
        self.count
    }

    /// Sum of the times between one key and the next, in nanoseconds.
    pub fn duration_sum(&self) -> (sum: u64)
        ensures
            sum == self@.duration_sum,
    {
        self.duration_sum
    }
}

} // verus!

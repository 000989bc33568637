use vstd::prelude::*;

use crate::observation::Observation;

verus! {

/// The rolling window that results from appending one observation to a
/// history of the given capacity: the oldest entry is evicted exactly when
/// the window is at capacity.
pub open spec fn appended(window: Seq<Observation>, cap: int, obs: Observation) -> Seq<Observation> {
    if window.len() < cap {
        window.push(obs)
    } else {
        window.remove(0).push(obs)
    }
}

/// In-memory model of the fixed-capacity circular observation history.
/// Entries are kept in chronological order, oldest first; the head index
/// advances modulo the capacity with every append, and the count of live
/// entries grows until the buffer wraps for the first time.
pub struct ObservationBuffer {
    window: Vec<Observation>,
    capacity: u32,
    total: u64,
}

impl ObservationBuffer {
    /// The live entries, oldest first.
    pub closed spec fn window(self) -> Seq<Observation> {
        self.window@
    }

    /// The fixed capacity, set at pool initialization.
    pub closed spec fn cap(self) -> int {
        self.capacity as int
    }

    /// How many observations have ever been appended.
    pub closed spec fn total_count(self) -> int {
        self.total as int
    }

    /// Well-formedness: the window holds the last `total` appends, capped at
    /// the capacity.
    pub open spec fn wf(self) -> bool {
        &&& self.cap() >= 1
        &&& self.cap() <= u32::MAX as int
        &&& self.window().len() <= self.cap()
        &&& (self.total_count() <= self.cap() ==> self.window().len() == self.total_count())
        &&& (self.total_count() > self.cap() ==> self.window().len() == self.cap())
    }

    /// Creates an empty history of the given capacity.
    pub fn new(capacity: u32) -> (r: ObservationBuffer)
        requires
            capacity >= 1,
        ensures
            r.wf(),
            r.cap() == capacity,
            r.total_count() == 0,
            r.window() == Seq::<Observation>::empty(),
    {
        ObservationBuffer { window: Vec::new(), capacity, total: 0 }
    }

    /// The fixed capacity.
    pub fn capacity(&self) -> (r: u32)
        ensures
            r as int == self.cap(),
    {
        self.capacity
    }

    /// Number of live entries.
    pub fn count(&self) -> (r: u32)
        requires
            self.wf(),
        ensures
            r as int == self.window().len(),
    {
        self.window.len() as u32
    }

    /// Whether the window is at capacity, so that the next append evicts the
    /// oldest entry.
    pub fn is_full(&self) -> (r: bool)
        requires
            self.wf(),
        ensures
            r == (self.window().len() == self.cap()),
    {
        self.window.len() == self.capacity as usize
    }

    /// The head index: where the most recent append went, advancing modulo
    /// the capacity.
    pub fn head(&self) -> (r: u32)
        requires
            self.wf(),
        ensures
            r as int == self.total_count() % self.cap(),
    {
        (self.total % (self.capacity as u64)) as u32
    }

    /// How many observations have ever been appended.
    pub fn total(&self) -> (r: u64)
        ensures
            r as int == self.total_count(),
    {
        self.total
    }

    /// The most recently appended observation, if any.
    pub fn read_last(&self) -> (r: Option<Observation>)
        ensures
            r == (if self.window().len() == 0 {
                None::<Observation>
            } else {
                Some(self.window().last())
            }),
    {
        if self.window.len() == 0 {
            None
        } else {
            Some(self.window[self.window.len() - 1])
        }
    }

    /// The oldest live observation, if any: the one the next append evicts
    /// when the window is at capacity.
    pub fn read_oldest(&self) -> (r: Option<Observation>)
        ensures
            r == (if self.window().len() == 0 {
                None::<Observation>
            } else {
                Some(self.window()[0])
            }),
    {
        if self.window.len() == 0 {
            None
        } else {
            Some(self.window[0])
        }
    }

    /// Appends an observation, evicting the oldest entry when the window is
    /// at capacity.
    pub fn push(&mut self, obs: Observation)
        requires
            old(self).wf(),
            old(self).total_count() < u64::MAX,
        ensures
            final(self).wf(),
            final(self).cap() == old(self).cap(),
            final(self).total_count() == old(self).total_count() + 1,
            final(self).window() == appended(old(self).window(), old(self).cap(), obs),
    {
        if self.window.len() == self.capacity as usize {
            self.window.remove(0);
        }
        self.window.push(obs);
        self.total = self.total + 1;
    }
}

} // verus!

//! Reading the same clock the child reads. A fixed correspondence between this
//! process's monotonic readings and the shared counter converts the one into
//! the other.
use vstd::prelude::*;

verus! {

/// One pair of readings taken back to back, in nanoseconds.
#[derive(Clone, Copy, Debug)]
pub struct Anchor {
    instant: u64,
    ns: u64,
}

impl Anchor {
    /// The process's own reading of the pair.
    pub closed spec fn own(&self) -> u64 {
        self.instant
    }

    /// The shared counter's reading of the pair.
    pub closed spec fn shared(&self) -> u64 {
        self.ns
    }

    /// What the shared counter read when the process's clock read `at`, capped
    /// at both ends.
    pub open spec fn converted(&self, at: u64) -> u64 {
        let exact = self.shared() + at - self.own();
        if exact < 0 {
            0
        } else if exact > u64::MAX {
            u64::MAX
        } else {
            exact as u64
        }
    }

    /// Pair the two clocks.
    pub fn take(instant: u64, ns: u64) -> (a: Self)
        ensures
            a.own() == instant,
            a.shared() == ns,
    {
        Anchor { instant, ns }
    }

    /// What the shared counter read at `at`, also for readings from before the
    /// pair was taken.
    pub fn ns_at(&self, at: u64) -> (ns: u64)
        ensures
            ns == self.converted(at),
    {
        if at >= self.instant {
            self.ns.saturating_add(at - self.instant)
        } else {
            self.ns.saturating_sub(self.instant - at)
        }
    }
}

/// Conversion keeps order, and away from the caps it keeps every interval.
pub proof fn law_conversion_keeps_intervals(a: Anchor, x: u64, y: u64)
    requires
        x <= y,
    ensures
        a.converted(x) <= a.converted(y),
        a.converted(a.own()) == a.shared(),
        0 < a.converted(x) && a.converted(y) < u64::MAX ==> a.converted(y) - a.converted(x) == y
            - x,
{
}

} // verus!

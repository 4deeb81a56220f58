//! Whether the app can reach the network, as one answer for the whole app: it goes offline on
//! the first failure that reads as a lost connection, checks with growing pauses whether the
//! network is back, and comes back when something reaches it.

use vstd::prelude::*;

verus! {

/// How long to wait before check `tried` of whether the network is back, counting from zero,
/// in milliseconds: three seconds, then five, then ten, then thirty for as long as it stays
/// gone.
pub open spec fn probe_spec(tried: int) -> u64 {
    if tried <= 0 {
        3000
    } else if tried == 1 {
        5000
    } else if tried == 2 {
        10_000
    } else {
        30_000
    }
}

/// How long to wait before check `tried` of whether the network is back, in milliseconds.
pub fn probe_wait(tried: u64) -> (r: u64)
    ensures
        r == probe_spec(tried as int),
{
    if tried == 0 {
        3000
    } else if tried == 1 {
        5000
    } else if tried == 2 {
        10_000
    } else {
        30_000
    }
}

/// The pauses between checks never shrink, and the last one repeats.
pub proof fn lemma_probes_never_shrink(tried: int, later: int)
    requires
        0 <= tried <= later,
    ensures
        probe_spec(tried) <= probe_spec(later),
        later >= 3 ==> probe_spec(later) == 30_000,
{
}

/// Whether the network is gone.
pub struct Network {
    pub lost: bool,
}

impl Network {
    /// Online, until a failure says otherwise.
    pub fn new() -> (r: Network)
        ensures
            !r.lost,
    {
        Network { lost: false }
    }

    /// Notes a failed call, and whether its reason reads as a lost connection. Only such a
    /// failure puts the app offline, and only the first: answers whether the app just went
    /// offline, in which case the checks start.
    pub fn failed(&mut self, offline: bool) -> (r: bool)
        ensures
            r == (offline && !old(self).lost),
            final(self).lost == (old(self).lost || offline),
    {
        if !offline || self.lost {
            return false;
        }
        self.lost = true;
        true
    }

    /// Notes that something reached the network: answers whether the app just came back
    /// online, in which case the checks stop and the screens that gave up load again.
    pub fn found(&mut self) -> (r: bool)
        ensures
            r == old(self).lost,
            !final(self).lost,
    {
        if !self.lost {
            return false;
        }
        self.lost = false;
        true
    }
}

} // verus!

//! The local library's scan as the settings page follows it: whether one runs, and how long the
//! last one the user asked for took, kept until the page has shown it and been left.

use vstd::prelude::*;

verus! {

/// The scan as the page follows it: whether one runs and since when, whether the next is one
/// the user asked for, how long the last such one took, and whether the page has shown that.
pub struct Scan {
    pub running: bool,
    pub started: Option<u64>,
    pub asked: bool,
    pub done: Option<u64>,
    pub seen: bool,
}

impl Scan {
    /// No scan followed yet.
    pub fn new() -> (r: Scan)
        ensures
            !r.running && r.started is None && !r.asked && r.done is None && !r.seen,
    {
        Scan { running: false, started: None, asked: false, done: None, seen: false }
    }

    /// The next scan is one the user asked for, so its time is worth reporting.
    pub fn ask(&mut self)
        ensures
            *final(self) == (Scan { asked: true, ..*old(self) }),
    {
        self.asked = true;
    }

    /// The settings page came into view, or left it. Arriving marks a finished scan as shown;
    /// leaving after that forgets it.
    pub fn viewing_settings(&mut self, viewing: bool) -> (changed: bool)
        ensures
            viewing ==> *final(self) == (Scan { seen: old(self).done is Some, ..*old(self) }) && !changed,
            !viewing && old(self).seen ==> *final(self) == (Scan { done: None, seen: false, ..*old(self) })
                && changed,
            !viewing && !old(self).seen ==> *final(self) == *old(self) && !changed,
    {
        if viewing {
            self.seen = self.done.is_some();
            return false;
        }
        if self.seen {
            self.done = None;
            self.seen = false;
            return true;
        }
        false
    }

    /// A scan started or ended, at `now` milliseconds; `interrupted` says whether one that ended
    /// was cut short. A scan the user asked for that ran to its end leaves how long it took.
    /// Answers whether anything changed.
    pub fn follow(&mut self, scanning: bool, now: u64, interrupted: bool) -> (changed: bool)
        ensures
            changed == (scanning != old(self).running),
            !changed ==> *final(self) == *old(self),
            changed && scanning ==> *final(self) == (Scan {
                running: true,
                started: Some(now),
                done: None,
                seen: false,
                ..*old(self)
            }),
            changed && !scanning ==> *final(self) == (Scan {
                running: false,
                started: None,
                asked: false,
                done: if old(self).asked && !interrupted {
                    match old(self).started {
                        Some(started) => Some(
                            if now >= started {
                                (now - started) as u64
                            } else {
                                0
                            },
                        ),
                        None => None,
                    }
                } else {
                    old(self).done
                },
                ..*old(self)
            }),
    {
        if scanning == self.running {
            return false;
        }
        self.running = scanning;
        if scanning {
            self.started = Some(now);
            self.done = None;
            self.seen = false;
        } else {
            let took = match self.started {
                Some(started) => Some(now.saturating_sub(started)),
                None => None,
            };
            self.started = None;
            if self.asked && !interrupted {
                self.done = took;
            }
            self.asked = false;
        }
        true
    }
}

} // verus!

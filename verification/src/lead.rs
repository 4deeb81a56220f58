//! How far ahead of the host's clock every listener plays: the largest buffer any listener
//! says it needs, held between a floor and a ceiling, raised at once and lowered only after the
//! need has stayed lower for a while.

use vstd::prelude::*;

verus! {

/// The largest lead, in milliseconds, that any need can ask for.
pub const CEILING: u32 = 1_000;

/// The grain of every lead and need, in milliseconds.
pub const STEP: u32 = 20;
/// How long, in milliseconds, a lower need has to hold before the lead drops to it.
pub const HOLD: u64 = 30_000;

/// The lead a host keeps, and what each listener needs.
pub struct Lead {
    needs: Vec<(String, u32)>,
    floor: u32,
    lead: u32,
    eased: Option<u64>,
}

/// `value` rounded up to a whole number of steps, saturating at `u32::MAX`.
pub open spec fn stepped_spec(value: u32) -> u32 {
    let steps: int = (value as int) / (STEP as int) + if (value as int) % (STEP as int) == 0 {
        0int
    } else {
        1int
    };
    if steps * STEP > u32::MAX {
        u32::MAX
    } else {
        (steps * STEP) as u32
    }
}

/// What a need of `need` is kept as: stepped and held under the ceiling.
pub open spec fn kept_need(need: u32) -> u32 {
    let stepped = stepped_spec(need);
    if stepped < CEILING {
        stepped
    } else {
        CEILING
    }
}

/// The listeners' needs, as the pairs held.
pub open spec fn needs_of(pairs: Seq<(String, u32)>) -> Map<Seq<char>, u32> {
    Map::new(
        |at: Seq<char>| exists|i: int| 0 <= i < pairs.len() && pairs[i].0@ == at,
        |at: Seq<char>| pairs[choose|i: int| 0 <= i < pairs.len() && pairs[i].0@ == at].1,
    )
}

/// No listener is named twice.
pub open spec fn distinct(pairs: Seq<(String, u32)>) -> bool {
    forall|i: int, j: int|
        0 <= i < pairs.len() && 0 <= j < pairs.len() && i != j ==> pairs[i].0@ != pairs[j].0@
}

/// `top` is one of the needs, and none is larger.
pub open spec fn is_loudest(needs: Map<Seq<char>, u32>, top: u32) -> bool {
    &&& exists|at: Seq<char>| needs.dom().contains(at) && needs[at] == top
    &&& forall|at: Seq<char>| #[trigger] needs.dom().contains(at) ==> needs[at] <= top
}

/// The largest need in `needs`, nothing when there is none.
pub open spec fn loudest(needs: Map<Seq<char>, u32>) -> u32 {
    if needs.dom().is_empty() {
        0
    } else {
        choose|top: u32| #[trigger] is_loudest(needs, top)
    }
}

/// `value` held between `low` and `high`.
pub open spec fn clamped(value: u32, low: u32, high: u32) -> u32 {
    if value < low {
        low
    } else if value > high {
        high
    } else {
        value
    }
}

/// The state a lead is in, as a plain value: the needs, the floor, the lead itself, and the
/// moment a lower need was first seen.
pub struct LeadState {
    pub needs: Map<Seq<char>, u32>,
    pub floor: u32,
    pub lead: u32,
    pub eased: Option<u64>,
}

/// What `settle(now)` gives back and leaves behind.
pub open spec fn settled(state: LeadState, now: u64) -> (Option<u32>, LeadState) {
    let want = clamped(loudest(state.needs), state.floor, CEILING);
    if want > state.lead {
        (Some(want), LeadState { lead: want, eased: None, ..state })
    } else if want == state.lead {
        (None, LeadState { eased: None, ..state })
    } else {
        let since = match state.eased {
            Some(since) => since,
            None => now,
        };
        let waited = if now >= since {
            now - since
        } else {
            0
        };
        if waited < HOLD {
            (None, LeadState { eased: Some(since), ..state })
        } else {
            (Some(want), LeadState { lead: want, eased: None, ..state })
        }
    }
}

pub fn stepped(value: u32) -> (r: u32)
    ensures
        r == stepped_spec(value),
{
    let steps: u32 = value / STEP + if value % STEP == 0 {
        0
    } else {
        1
    };
    match steps.checked_mul(STEP) {
        Some(product) => product,
        None => u32::MAX,
    }
}

proof fn lemma_needs_after_set(pairs: Seq<(String, u32)>, i: int, key: String, value: u32)
    requires
        distinct(pairs),
        0 <= i < pairs.len(),
        pairs[i].0@ == key@,
    ensures
        distinct(pairs.update(i, (key, value))),
        needs_of(pairs.update(i, (key, value))) =~= needs_of(pairs).insert(key@, value),
{
    let after = pairs.update(i, (key, value));
    assert forall|at: Seq<char>| #[trigger]
        needs_of(after).dom().contains(at) implies needs_of(after)[at] == needs_of(pairs).insert(
        key@,
        value,
    )[at] by {
        let j = choose|j: int| 0 <= j < after.len() && after[j].0@ == at;
        if at == key@ {
            assert(j == i);
        } else {
            assert(pairs[j].0@ == at);
            let k = choose|k: int| 0 <= k < pairs.len() && pairs[k].0@ == at;
            assert(k == j);
        }
    }
    assert forall|at: Seq<char>| #[trigger]
        needs_of(pairs).insert(key@, value).dom().contains(at) implies needs_of(
        after,
    ).dom().contains(at) by {
        if at != key@ {
            let k = choose|k: int| 0 <= k < pairs.len() && pairs[k].0@ == at;
            assert(after[k].0@ == at);
        } else {
            assert(after[i].0@ == at);
        }
    }
}

proof fn lemma_needs_after_push(pairs: Seq<(String, u32)>, key: String, value: u32)
    requires
        distinct(pairs),
        !needs_of(pairs).dom().contains(key@),
    ensures
        distinct(pairs.push((key, value))),
        needs_of(pairs.push((key, value))) =~= needs_of(pairs).insert(key@, value),
{
    let after = pairs.push((key, value));
    assert forall|i: int, j: int|
        0 <= i < after.len() && 0 <= j < after.len() && i != j implies after[i].0@
        != after[j].0@ by {
        if i == pairs.len() as int {
            assert(!(pairs[j].0@ == key@));
        } else if j == pairs.len() as int {
            assert(!(pairs[i].0@ == key@));
        }
    }
    assert forall|at: Seq<char>| #[trigger]
        needs_of(after).dom().contains(at) implies needs_of(after)[at] == needs_of(pairs).insert(
        key@,
        value,
    )[at] by {
        let j = choose|j: int| 0 <= j < after.len() && after[j].0@ == at;
        if at == key@ {
            assert(j == pairs.len() as int);
        } else {
            assert(pairs[j].0@ == at);
            let k = choose|k: int| 0 <= k < pairs.len() && pairs[k].0@ == at;
            assert(k == j);
        }
    }
    assert forall|at: Seq<char>| #[trigger]
        needs_of(pairs).insert(key@, value).dom().contains(at) implies needs_of(
        after,
    ).dom().contains(at) by {
        if at != key@ {
            let k = choose|k: int| 0 <= k < pairs.len() && pairs[k].0@ == at;
            assert(after[k].0@ == at);
        } else {
            assert(after[pairs.len() as int].0@ == at);
        }
    }
}

proof fn lemma_needs_after_remove(pairs: Seq<(String, u32)>, i: int)
    requires
        distinct(pairs),
        0 <= i < pairs.len(),
    ensures
        distinct(pairs.remove(i)),
        needs_of(pairs.remove(i)) =~= needs_of(pairs).remove(pairs[i].0@),
{
    let after = pairs.remove(i);
    let key = pairs[i].0@;
    assert forall|a: int, b: int|
        0 <= a < after.len() && 0 <= b < after.len() && a != b implies after[a].0@
        != after[b].0@ by {
        let a2 = if a < i {
            a
        } else {
            a + 1
        };
        let b2 = if b < i {
            b
        } else {
            b + 1
        };
        assert(after[a] == pairs[a2]);
        assert(after[b] == pairs[b2]);
    }
    assert forall|at: Seq<char>| #[trigger]
        needs_of(after).dom().contains(at) implies needs_of(pairs).remove(key).dom().contains(at)
        && needs_of(after)[at] == needs_of(pairs).remove(key)[at] by {
        let j = choose|j: int| 0 <= j < after.len() && after[j].0@ == at;
        let j2 = if j < i {
            j
        } else {
            j + 1
        };
        assert(after[j] == pairs[j2]);
        assert(j2 != i);
        let k = choose|k: int| 0 <= k < pairs.len() && pairs[k].0@ == at;
        assert(k == j2);
    }
    assert forall|at: Seq<char>| #[trigger]
        needs_of(pairs).remove(key).dom().contains(at) implies needs_of(after).dom().contains(
        at,
    ) by {
        let k = choose|k: int| 0 <= k < pairs.len() && pairs[k].0@ == at;
        assert(k != i);
        let k2 = if k < i {
            k
        } else {
            k - 1
        };
        assert(after[k2] == pairs[k]);
    }
}

/// Where `at` is among the pairs, if it is.
fn position(pairs: &Vec<(String, u32)>, at: &String) -> (r: Option<usize>)
    requires
        distinct(pairs@),
    ensures
        r matches Some(i) ==> i < pairs@.len() && pairs@[i as int].0@ == at@,
        r is None ==> !needs_of(pairs@).dom().contains(at@),
{
    let mut i: usize = 0;
    while i < pairs.len()
        invariant
            i <= pairs@.len(),
            forall|j: int| 0 <= j < i ==> pairs@[j].0@ != at@,
        decreases pairs@.len() - i,
    {
        if pairs[i].0 == *at {
            return Some(i);
        }
        i = i + 1;
    }
    None
}

impl Lead {
    #[verifier::type_invariant]
    spec fn held(self) -> bool {
        &&& distinct(self.needs@)
        &&& self.floor <= self.lead <= CEILING
    }

    /// The lead as a plain value.
    pub closed spec fn state(self) -> LeadState {
        LeadState {
            needs: needs_of(self.needs@),
            floor: self.floor,
            lead: self.lead,
            eased: self.eased,
        }
    }

    /// A lead that starts at its floor: `floor` stepped and held under the ceiling.
    pub fn new(floor: u32) -> (r: Self)
        ensures
            r.state().needs.is_empty(),
            r.state().floor == kept_need(floor),
            r.state().lead == kept_need(floor),
            r.state().eased is None,
    {
        let stepped = stepped(floor);
        let floor: u32 = if stepped < CEILING {
            stepped
        } else {
            CEILING
        };
        let r = Lead { needs: Vec::new(), floor, lead: floor, eased: None };
        assert(needs_of(r.needs@) =~= Map::empty());
        r
    }

    /// Records what the listener at `at` needs, stepped and held under the ceiling, and says
    /// whether that changed anything.
    pub fn note(&mut self, at: &str, need: u32) -> (changed: bool)
        ensures
            final(self).state() == (LeadState {
                needs: old(self).state().needs.insert(at@, kept_need(need)),
                ..old(self).state()
            }),
            changed == !(old(self).state().needs.dom().contains(at@) && old(self).state().needs[at@]
                == kept_need(need)),
    {
        proof {
            use_type_invariant(&*self);
        }
        let stepped = stepped(need);
        let need: u32 = if stepped < CEILING {
            stepped
        } else {
            CEILING
        };
        let key = at.to_owned();
        let mut needs: Vec<(String, u32)> = Vec::new();
        std::mem::swap(&mut needs, &mut self.needs);
        let ghost before = needs@;
        let changed = match position(&needs, &key) {
            Some(i) => {
                let was = needs[i].1;
                proof {
                    let k = choose|k: int| 0 <= k < before.len() && before[k].0@ == at@;
                    assert(k == i);
                    lemma_needs_after_set(before, i as int, key, need);
                }
                needs.set(i, (key, need));
                was != need
            },
            None => {
                proof {
                    lemma_needs_after_push(before, key, need);
                }
                needs.push((key, need));
                true
            },
        };
        self.needs = needs;
        changed
    }

    /// Forgets the listener at `at`.
    pub fn forget(&mut self, at: &str)
        ensures
            final(self).state() == (LeadState {
                needs: old(self).state().needs.remove(at@),
                ..old(self).state()
            }),
    {
        proof {
            use_type_invariant(&*self);
        }
        let key = at.to_owned();
        let mut needs: Vec<(String, u32)> = Vec::new();
        std::mem::swap(&mut needs, &mut self.needs);
        let ghost before = needs@;
        match position(&needs, &key) {
            Some(i) => {
                proof {
                    lemma_needs_after_remove(before, i as int);
                }
                needs.remove(i);
            },
            None => {
                assert(needs_of(before).remove(at@) =~= needs_of(before));
            },
        }
        self.needs = needs;
    }

    /// The lead every listener plays at now.
    pub fn lead(&self) -> (r: u32)
        ensures
            r == self.state().lead,
            self.state().floor <= r <= CEILING,
    {
        proof {
            use_type_invariant(self);
        }
        self.lead
    }

    /// What every listener needs, each listener once, in no promised order.
    pub fn needs(&self) -> (r: Vec<(String, u32)>)
        ensures
            needs_of(r@) == self.state().needs,
            distinct(r@),
    {
        proof {
            use_type_invariant(self);
        }
        let mut r: Vec<(String, u32)> = Vec::new();
        let mut i: usize = 0;
        while i < self.needs.len()
            invariant
                i <= self.needs@.len(),
                r@.len() == i,
                forall|j: int| 0 <= j < i ==> #[trigger] r@[j].0@ == self.needs@[j].0@ && r@[j].1
                    == self.needs@[j].1,
            decreases self.needs@.len() - i,
        {
            let at = self.needs[i].0.clone();
            r.push((at, self.needs[i].1));
            i = i + 1;
        }
        assert(needs_of(r@) =~= needs_of(self.needs@)) by {
            assert forall|at: Seq<char>| #[trigger]
                needs_of(r@).dom().contains(at) implies needs_of(self.needs@).dom().contains(at)
                && needs_of(r@)[at] == needs_of(self.needs@)[at] by {
                let j = choose|j: int| 0 <= j < r@.len() && r@[j].0@ == at;
                assert(self.needs@[j].0@ == at);
                let k = choose|k: int| 0 <= k < self.needs@.len() && self.needs@[k].0@ == at;
                assert(k == j);
            }
            assert forall|at: Seq<char>| #[trigger]
                needs_of(self.needs@).dom().contains(at) implies needs_of(r@).dom().contains(at) by {
                let k = choose|k: int| 0 <= k < self.needs@.len() && self.needs@[k].0@ == at;
                assert(r@[k].0@ == at);
            }
        }
        r
    }

    /// The largest need held, nothing when no listener needs anything.
    fn loudest(&self) -> (r: u32)
        ensures
            r == loudest(self.state().needs),
    {
        proof {
            use_type_invariant(self);
        }
        let ghost needs = needs_of(self.needs@);
        let mut top: u32 = 0;
        let mut i: usize = 0;
        while i < self.needs.len()
            invariant
                i <= self.needs@.len(),
                forall|j: int| 0 <= j < i ==> #[trigger] self.needs@[j].1 <= top,
                i > 0 ==> exists|j: int| 0 <= j < i && self.needs@[j].1 == top,
                i == 0 ==> top == 0,
            decreases self.needs@.len() - i,
        {
            if self.needs[i].1 > top || i == 0 {
                top = self.needs[i].1;
            }
            i = i + 1;
        }
        proof {
            if self.needs@.len() == 0 {
                assert(needs.dom() =~= Set::empty());
            } else {
                let j = choose|j: int| 0 <= j < self.needs@.len() && self.needs@[j].1 == top;
                let at = self.needs@[j].0@;
                assert(needs.dom().contains(at));
                let k = choose|k: int| 0 <= k < self.needs@.len() && self.needs@[k].0@ == at;
                assert(k == j);
                assert(!needs.dom().is_empty()) by {
                    assert(needs.dom().contains(at));
                }
                assert forall|a: Seq<char>| #[trigger] needs.dom().contains(a) implies needs[a]
                    <= top by {
                    let m = choose|m: int| 0 <= m < self.needs@.len() && self.needs@[m].0@ == a;
                    assert(self.needs@[m].1 <= top);
                }
                assert(is_loudest(needs, top));
                let chosen = loudest(needs);
                assert(is_loudest(needs, chosen));
                let b = choose|a: Seq<char>| needs.dom().contains(a) && needs[a] == chosen;
                assert(needs[b] <= top);
                assert(needs[at] <= chosen);
            }
        }
        top
    }

    /// Moves the lead toward what the listeners need at `now`: up at once, down only once the
    /// lower need has held for `HOLD`. Gives back the new lead when it moved.
    pub fn settle(&mut self, now: u64) -> (r: Option<u32>)
        ensures
            (r, final(self).state()) == settled(old(self).state(), now),
    {
        proof {
            use_type_invariant(&*self);
        }
        let loudest = self.loudest();
        let want: u32 = if loudest < self.floor {
            self.floor
        } else if loudest > CEILING {
            CEILING
        } else {
            loudest
        };
        if want > self.lead {
            self.lead = want;
            self.eased = None;
            return Some(want);
        }
        if want == self.lead {
            self.eased = None;
            return None;
        }
        let since = match self.eased {
            Some(since) => since,
            None => now,
        };
        self.eased = Some(since);
        if now.saturating_sub(since) < HOLD {
            return None;
        }
        self.lead = want;
        self.eased = None;
        Some(want)
    }
}

/// The lead never leaves the range between its floor and the ceiling, whatever `settle` is
/// asked at whatever time.
pub proof fn lemma_lead_stays_in_range(state: LeadState, now: u64)
    requires
        state.floor <= state.lead <= CEILING,
    ensures
        state.floor <= settled(state, now).1.lead <= CEILING,
        settled(state, now).1.floor == state.floor,
        settled(state, now).1.needs == state.needs,
{
}

/// A need above the lead raises it in the same call; the lead falls only to what is needed,
/// and only once a lower need has been seen `HOLD` milliseconds before.
pub proof fn lemma_raised_at_once_lowered_after_hold(state: LeadState, now: u64)
    requires
        state.floor <= state.lead <= CEILING,
    ensures
        ({
            let want = clamped(loudest(state.needs), state.floor, CEILING);
            &&& want > state.lead ==> settled(state, now).0 == Some(want)
            &&& settled(state, now).1.lead < state.lead ==> settled(state, now).1.lead == want
                && (state.eased matches Some(since) && now >= since && now - since >= HOLD)
            &&& settled(state, now).0 is Some <==> settled(state, now).1.lead != state.lead
        }),
{
}

} // verus!

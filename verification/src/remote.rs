//! The system's media controls as decisions: where a seek from them lands, when the playing
//! track and its state are told to them again, and what they are told.

use vstd::prelude::*;

use crate::track::text_of;

verus! {

/// Where a seek of `step` milliseconds from `at` lands, forward or back: never before the
/// start, and never past the end of a track of `duration` milliseconds when one plays.
pub open spec fn shift_spec(at: u64, step: u64, forward: bool, duration: Option<u64>) -> u64 {
    let target: int = if forward {
        if at + step > u64::MAX {
            u64::MAX as int
        } else {
            at + step
        }
    } else if at >= step {
        at - step
    } else {
        0
    };
    match duration {
        Some(end) => if target < end {
            target as u64
        } else {
            end
        },
        None => target as u64,
    }
}

/// A seek moves by exactly its step inside the track: forward from `at` lands at `at + step`,
/// back lands at `at - step`; one that would pass the end stops at the end, and one that
/// would pass the start stops at the start; a seek never goes the wrong way; and a seek forward then back by the same step, or back then forward, comes back
/// to where it began.
pub proof fn lemma_seeks_move_by_their_step(at: u64, step: u64, end: u64)
    ensures
        at + step < end ==> shift_spec(at, step, true, Some(end)) == at + step,
        at + step <= u64::MAX ==> shift_spec(at, step, true, None) == at + step,
        step <= at && at - step < end ==> shift_spec(at, step, false, Some(end)) == at - step,
        step <= at ==> shift_spec(at, step, false, None) == at - step,
        step > at ==> shift_spec(at, step, false, None) == 0,
        at + step >= end ==> shift_spec(at, step, true, Some(end)) == end,
        at + step > u64::MAX ==> shift_spec(at, step, true, None) == u64::MAX,
        step <= at && at - step >= end ==> shift_spec(at, step, false, Some(end)) == end,
        step > at ==> shift_spec(at, step, false, Some(end)) == 0,
        shift_spec(at, step, false, None) <= at,
        shift_spec(at, step, true, None) >= at,
        at + step < end ==> shift_spec(shift_spec(at, step, true, Some(end)), step, false, Some(end))
            == at,
        step <= at && at < end ==> shift_spec(
            shift_spec(at, step, false, Some(end)),
            step,
            true,
            Some(end),
        ) == at,
{
}

/// Where a seek of `step` milliseconds from `at` lands.
pub fn shift(at: u64, step: u64, forward: bool, duration: Option<u64>) -> (r: u64)
    ensures
        r == shift_spec(at, step, forward, duration),
{
    let target = if forward {
        at.saturating_add(step)
    } else {
        at.saturating_sub(step)
    };
    match duration {
        Some(end) => if target < end {
            target
        } else {
            end
        },
        None => target,
    }
}

/// Whether a cover is fetched from the network rather than read from a file.
pub open spec fn remote_spec(cover: Seq<char>) -> bool {
    let http = seq!['h', 't', 't', 'p', ':', '/', '/'];
    let https = seq!['h', 't', 't', 'p', 's', ':', '/', '/'];
    (cover.len() >= http.len() && cover.take(http.len() as int) == http) || (cover.len()
        >= https.len() && cover.take(https.len() as int) == https)
}

/// Whether `text` begins with `prefix`, character for character.
fn begins(text: &Vec<char>, prefix: &Vec<char>) -> (r: bool)
    ensures
        r == (prefix@.len() <= text@.len() && text@.take(prefix@.len() as int) == prefix@),
{
    if prefix.len() > text.len() {
        return false;
    }
    let mut i: usize = 0;
    while i < prefix.len()
        invariant
            i <= prefix@.len(),
            prefix@.len() <= text@.len(),
            forall|j: int| 0 <= j < i ==> text@[j] == prefix@[j],
        decreases prefix@.len() - i,
    {
        if text[i] != prefix[i] {
            assert(text@.take(prefix@.len() as int)[i as int] != prefix@[i as int]);
            return false;
        }
        i = i + 1;
    }
    assert(text@.take(prefix@.len() as int) =~= prefix@);
    true
}

/// Whether a cover is fetched from the network rather than read from a file.
pub fn is_remote(cover: &str) -> (r: bool)
    ensures
        r == remote_spec(cover@),
{
    let chars = crate::text::chars_of(cover);
    let http = vec!['h', 't', 't', 'p', ':', '/', '/'];
    let https = vec!['h', 't', 't', 'p', 's', ':', '/', '/'];
    assert(http@ =~= seq!['h', 't', 't', 'p', ':', '/', '/']);
    assert(https@ =~= seq!['h', 't', 't', 'p', 's', ':', '/', '/']);
    begins(&chars, &http) || begins(&chars, &https)
}

/// What the player is doing.
#[derive(Clone, Copy, Debug, PartialEq, Eq, Structural)]
pub enum PlayState {
    Idle,
    Loading,
    Playing,
    Paused,
    Failed,
}

/// What the media controls are told the player does, with where in the track it is.
#[derive(Clone, Copy, Debug, PartialEq, Eq, Structural)]
pub enum Told {
    Playing(u64),
    Paused(u64),
    Stopped,
}

/// What the media controls are told of a state at `at` milliseconds: loading counts as
/// playing, and idle or failed as stopped.
pub open spec fn told_spec(state: PlayState, at: u64) -> Told {
    match state {
        PlayState::Playing | PlayState::Loading => Told::Playing(at),
        PlayState::Paused => Told::Paused(at),
        PlayState::Idle | PlayState::Failed => Told::Stopped,
    }
}

/// What the media controls were last told: the id of the track shown, the state, and the
/// position in whole seconds.
pub struct Remote {
    pub shown: Option<String>,
    pub reported: Option<PlayState>,
    pub at_secs: u64,
}

/// What the controls are to be told after the player changed: whether the track shown changed
/// (then its details go out again, and its artwork is fetched when it is remote), and the
/// state to tell, unless the state and the second are the ones told last.
pub struct Publish {
    pub track_changed: bool,
    pub told: Option<Told>,
}

impl Remote {
    /// Nothing told yet.
    pub fn new() -> (r: Remote)
        ensures
            r.shown is None && r.reported is None && r.at_secs == 0,
    {
        Remote { shown: None, reported: None, at_secs: 0 }
    }

    /// The player now plays the track of id `id`, in `state`, at `at` milliseconds.
    pub fn publish(&mut self, id: Option<String>, state: PlayState, at: u64) -> (r: Publish)
        ensures
            r.track_changed == (text_of(id) != text_of(old(self).shown)),
            text_of(final(self).shown) == text_of(id),
            old(self).reported == Some(state) && old(self).at_secs == at / 1000 ==> r.told is None
                && final(self).reported == old(self).reported && final(self).at_secs
                == old(self).at_secs,
            !(old(self).reported == Some(state) && old(self).at_secs == at / 1000) ==> r.told
                == Some(told_spec(state, at)) && final(self).reported == Some(state)
                && final(self).at_secs == at / 1000,
    {
        let track_changed = !crate::track::same_optional(&id, &self.shown);
        if track_changed {
            self.shown = id;
        }
        let second = at / 1000;
        let same = match self.reported {
            Some(reported) => reported == state && self.at_secs == second,
            None => false,
        };
        if same {
            return Publish { track_changed, told: None };
        }
        self.reported = Some(state);
        self.at_secs = second;
        let told = match state {
            PlayState::Playing | PlayState::Loading => Told::Playing(at),
            PlayState::Paused => Told::Paused(at),
            PlayState::Idle | PlayState::Failed => Told::Stopped,
        };
        Publish { track_changed, told: Some(told) }
    }
}

} // verus!

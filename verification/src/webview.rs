//! What the native sign-in windows share: how one cookie round trip is driven, and how the host
//! is read off the url a webview reports as its source.

use vstd::prelude::*;

use crate::text::{chars_of, string_of};

verus! {

/// The state of one cookie round trip.
pub enum Fetch<T> {
    Idle,
    InFlight,
    Done(Vec<T>),
}

/// What a backend should do about the read `poll` just asked for.
pub enum Reading<T> {
    /// A read finished; this is what it found.
    Done(Vec<T>),
    /// A read is already out. Wait for it.
    Waiting,
    /// Nothing is out, and the slot is now claimed. Start one, and give the slot back with
    /// `Fetch::Idle` if it cannot be started after all.
    Start,
}

impl<T> Fetch<T> {
    /// Answers a poll and claims the slot in the same move, so two polls cannot start two reads.
    pub fn take(&mut self) -> (r: Reading<T>)
        ensures
            match *old(self) {
                Fetch::Done(cookies) => r == Reading::Done(cookies) && *final(self) == Fetch::<T>::Idle,
                Fetch::InFlight => r == Reading::<T>::Waiting && *final(self) == Fetch::<T>::InFlight,
                Fetch::Idle => r == Reading::<T>::Start && *final(self) == Fetch::<T>::InFlight,
            },
    {
        let mut taken = Fetch::InFlight;
        std::mem::swap(self, &mut taken);
        match taken {
            Fetch::Done(cookies) => {
                *self = Fetch::Idle;
                Reading::Done(cookies)
            },
            Fetch::InFlight => Reading::Waiting,
            Fetch::Idle => Reading::Start,
        }
    }
}

/// Two polls in a row never both start a read: after a poll that says to start one, the next
/// says to wait.
pub proof fn lemma_one_read_at_a_time<T>(before: Fetch<T>, after: Fetch<T>, told: Reading<T>)
    requires
        match before {
            Fetch::Done(cookies) => told == Reading::Done(cookies) && after == Fetch::<T>::Idle,
            Fetch::InFlight => told == Reading::<T>::Waiting && after == Fetch::<T>::InFlight,
            Fetch::Idle => told == Reading::<T>::Start && after == Fetch::<T>::InFlight,
        },
        told is Start,
    ensures
        after is InFlight,
{
}

/// The first place from `from` on where `pattern` stands in `text`.
pub open spec fn find_from(text: Seq<char>, pattern: Seq<char>, from: int) -> Option<int>
    decreases text.len() + 1 - from,
{
    if from < 0 || from + pattern.len() > text.len() {
        None
    } else if text.subrange(from, from + pattern.len()) == pattern {
        Some(from)
    } else {
        find_from(text, pattern, from + 1)
    }
}

/// Whether `c` ends a url's authority.
pub open spec fn ends_authority(c: char) -> bool {
    c == '/' || c == '?' || c == '#'
}

/// Where the first character from `from` on that `stop` holds of is; the end when there is none.
pub open spec fn stop_at(text: Seq<char>, stop: spec_fn(char) -> bool, from: int) -> int
    decreases text.len() - from,
{
    if from < 0 || from >= text.len() {
        text.len() as int
    } else if stop(text[from]) {
        from
    } else {
        stop_at(text, stop, from + 1)
    }
}

/// Where the last `c` in `text` is.
pub open spec fn last_of(text: Seq<char>, c: char) -> Option<int>
    decreases text.len(),
{
    if text.len() == 0 {
        None
    } else if text.last() == c {
        Some(text.len() - 1)
    } else {
        last_of(text.drop_last(), c)
    }
}

/// ASCII letters folded to lower case, every other character kept, as
/// `str::to_ascii_lowercase` does.
pub open spec fn ascii_lower(text: Seq<char>) -> Seq<char> {
    text.map_values(|c: char| if 'A' <= c <= 'Z' { ((c as int) + 32) as char } else { c })
}

/// The host a url names: after the scheme's `://`, up to the path, query or fragment, after
/// any user information, and without the port; an IPv6 address without its brackets.
pub open spec fn host_spec(url: Seq<char>) -> Option<Seq<char>> {
    match find_from(url, seq![':', '/', '/'], 0) {
        None => None,
        Some(scheme) => {
            let rest = url.skip(scheme + 3);
            let authority = rest.take(stop_at(rest, |c: char| ends_authority(c), 0));
            let authority = match last_of(authority, '@') {
                Some(at) => authority.skip(at + 1),
                None => authority,
            };
            let bracketed = authority.len() > 0 && authority[0] == '[' && stop_at(
                authority,
                |c: char| c == ']',
                1,
            ) < authority.len();
            let host = if bracketed {
                authority.subrange(1, stop_at(authority, |c: char| c == ']', 1))
            } else {
                authority.take(stop_at(authority, |c: char| c == ':', 0))
            };
            if host.len() == 0 {
                None
            } else {
                Some(ascii_lower(host))
            }
        },
    }
}

/// Where the first character from `from` on is one the authority ends at.
fn authority_end(text: &Vec<char>, from: usize) -> (r: usize)
    requires
        from <= text@.len(),
    ensures
        r == stop_at(text@.skip(from as int), |c: char| ends_authority(c), 0) + from,
        from <= r <= text@.len(),
{
    let ghost rest = text@.skip(from as int);
    let mut i = from;
    while i < text.len()
        invariant
            from <= i <= text@.len(),
            rest == text@.skip(from as int),
            stop_at(rest, |c: char| ends_authority(c), 0) == stop_at(
                rest,
                |c: char| ends_authority(c),
                i - from,
            ),
        decreases text@.len() - i,
    {
        let c = text[i];
        assert(rest[i - from] == c);
        if c == '/' || c == '?' || c == '#' {
            return i;
        }
        i = i + 1;
    }
    i
}

/// Where the first `c` from `from` on is in `text[..to]`; `to` when there is none.
fn char_at(text: &Vec<char>, c: char, from: usize, to: usize) -> (r: usize)
    requires
        from <= to <= text@.len(),
    ensures
        r == stop_at(text@.subrange(0, to as int), |x: char| x == c, from as int),
        from <= r <= to,
{
    let ghost part = text@.subrange(0, to as int);
    let mut i = from;
    while i < to
        invariant
            from <= i <= to,
            to <= text@.len(),
            part == text@.subrange(0, to as int),
            stop_at(part, |x: char| x == c, from as int) == stop_at(part, |x: char| x == c, i as int),
        decreases to - i,
    {
        if text[i] == c {
            return i;
        }
        i = i + 1;
    }
    i
}

/// Where the first `://` in `text` is.
fn scheme_end(text: &Vec<char>) -> (r: Option<usize>)
    ensures
        match r {
            Some(at) => find_from(text@, seq![':', '/', '/'], 0) == Some(at as int) && at + 3
                <= text@.len(),
            None => find_from(text@, seq![':', '/', '/'], 0) is None,
        },
{
    let ghost marker = seq![':', '/', '/'];
    if text.len() < 3 {
        return None;
    }
    let length = text.len();
    let last = length - 3;
    let mut at: usize = 0;
    while at <= last
        invariant
            length == text@.len(),
            last + 3 == text@.len(),
            marker == seq![':', '/', '/'],
            at <= last + 1,
            find_from(text@, marker, 0) == find_from(text@, marker, at as int),
        decreases last + 1 - at,
    {
        if text[at] == ':' && text[at + 1] == '/' && text[at + 2] == '/' {
            assert(text@.subrange(at as int, at + 3) =~= marker);
            return Some(at);
        }
        assert(text@.subrange(at as int, at + 3)[0] == text@[at as int]);
        assert(text@.subrange(at as int, at + 3)[1] == text@[at + 1]);
        assert(text@.subrange(at as int, at + 3)[2] == text@[at + 2]);
        if at == last {
            assert(find_from(text@, marker, at + 1) is None);
            return None;
        }
        at = at + 1;
    }
    None
}

/// Where the authority `text[start..end]` goes on after its last `@`; `start` when it has none.
fn after_user(text: &Vec<char>, start: usize, end: usize) -> (r: usize)
    requires
        start <= end <= text@.len(),
    ensures
        start <= r <= end,
        r == match last_of(text@.subrange(start as int, end as int), '@') {
            Some(at) => start + at + 1,
            None => start as int,
        },
{
    let mut i = end;
    while i > start
        invariant
            start <= i <= end,
            end <= text@.len(),
            last_of(text@.subrange(start as int, end as int), '@') == last_of(
                text@.subrange(start as int, i as int),
                '@',
            ),
        decreases i,
    {
        assert(text@.subrange(start as int, i as int).drop_last() =~= text@.subrange(
            start as int,
            i - 1,
        ));
        if text[i - 1] == '@' {
            return i;
        }
        i = i - 1;
    }
    start
}

/// The host named by an absolute HTTP(S) url, in lower case; nothing when it names none.
pub fn host(url: &str) -> (r: Option<String>)
    ensures
        match r {
            Some(host) => host_spec(url@) == Some(host@),
            None => host_spec(url@) is None,
        },
{
    let text = chars_of(url);
    let _length = text.len();
    let scheme = match scheme_end(&text) {
        Some(scheme) => scheme,
        None => return None,
    };
    let start = scheme + 3;
    let ghost rest = text@.skip(start as int);
    let end = authority_end(&text, start);
    assert(rest.take(end - start) =~= text@.subrange(start as int, end as int));
    let from = after_user(&text, start, end);
    let ghost authority = text@.subrange(start as int, end as int);
    assert(match last_of(authority, '@') {
        Some(at) => authority.skip(at + 1) =~= text@.subrange(from as int, end as int),
        None => authority =~= text@.subrange(from as int, end as int),
    });
    let ghost bare = text@.subrange(from as int, end as int);
    let mut host: Vec<char> = Vec::new();
    let close = if from < end && text[from] == '[' {
        char_at(&text, ']', from + 1, end)
    } else {
        end
    };
    let (lo, hi) = if from < end && text[from] == '[' && close < end {
        (from + 1, close)
    } else {
        (from, char_at(&text, ':', from, end))
    };
    proof {
        lemma_stop_shift(text@.subrange(0, end as int), from as int, |c: char| c == ']', 1);
        lemma_stop_shift(text@.subrange(0, end as int), from as int, |c: char| c == ':', 0);
        assert(text@.subrange(0, end as int).skip(from as int) =~= bare);
    }
    let mut k = lo;
    while k < hi
        invariant
            lo <= k <= hi,
            hi <= text@.len(),
            host@ == ascii_lower(text@.subrange(lo as int, k as int)),
        decreases hi - k,
    {
        let c = text[k];
        let low = if 'A' <= c && c <= 'Z' {
            lower_ascii(c)
        } else {
            c
        };
        host.push(low);
        k = k + 1;
        assert(host@ =~= ascii_lower(text@.subrange(lo as int, k as int)));
    }
    if hi == lo {
        return None;
    }
    Some(string_of(&host))
}

/// An ASCII capital in lower case.
fn lower_ascii(c: char) -> (r: char)
    requires
        'A' <= c <= 'Z',
    ensures
        r == ((c as int) + 32) as char,
{
    ((c as u8) + 32) as char
}

/// Looking for a stop in the tail of a text is looking in the text, shifted.
pub proof fn lemma_stop_shift(text: Seq<char>, shift: int, stop: spec_fn(char) -> bool, from: int)
    requires
        0 <= shift <= text.len(),
        0 <= from,
    ensures
        stop_at(text.skip(shift), stop, from) + shift == stop_at(text, stop, from + shift),
    decreases text.len() - shift - from,
{
    if from + shift < text.len() {
        lemma_stop_shift(text, shift, stop, from + 1);
    }
}

} // verus!

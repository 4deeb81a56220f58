//! How a listener lines its playback up with the host's clock: round trips read as NTP-style
//! samples, the window of recent samples, and the nudge that an error in playback position asks
//! for.

use vstd::prelude::*;

verus! {

/// How many recent samples the clock keeps.
pub const SAMPLES: usize = 8;

/// An error this small, in milliseconds, is left alone.
pub const HELD: i64 = 2;
/// An error this large, in milliseconds, is fixed by starting over rather than by slewing.
pub const ANCHOR: i64 = 100;
/// How hard each millisecond of error slews, in parts per million.
pub const PPM_PER_MS: i64 = 20;
/// The strongest slew, in parts per million.
pub const MAX_PPM: i64 = 2_000;

/// One round trip: `t0` the listener sent, `t1` the host received, `t2` the host answered,
/// `t3` the listener received, each in its own clock's milliseconds.
#[derive(Clone, Copy, Debug, PartialEq, Eq, Structural)]
pub struct Sample {
    pub t0: u64,
    pub t1: u64,
    pub t2: u64,
    pub t3: u64,
}

/// What an error in playback position asks the output to do.
#[derive(Clone, Copy, Debug, PartialEq, Eq, Structural)]
pub enum Nudge {
    Hold,
    Slew(i32),
    Anchor,
}

/// The recent samples, oldest first.
pub struct Clock {
    samples: Vec<Sample>,
}

/// `x` pinned into the range of an `i64`, which is what saturating arithmetic gives.
pub open spec fn saturated(x: int) -> int {
    if x > i64::MAX {
        i64::MAX as int
    } else if x < i64::MIN {
        i64::MIN as int
    } else {
        x
    }
}

/// `x` pinned into the range of a `u64`.
pub open spec fn saturated_u64(x: int) -> int {
    if x > u64::MAX {
        u64::MAX as int
    } else if x < 0 {
        0
    } else {
        x
    }
}

/// Division by two that rounds toward zero, as Rust's does.
pub open spec fn halved(x: int) -> int {
    if x >= 0 {
        x / 2
    } else {
        -((-x) / 2)
    }
}

/// The host clock's lead over ours that a sample reads: the mean of the two one-way
/// differences, each taken on the timestamps read as signed numbers.
pub open spec fn offset_of(s: Sample) -> int {
    let forward = saturated((s.t1 as i64) - (s.t0 as i64));
    let back = saturated((s.t2 as i64) - (s.t3 as i64));
    halved(saturated(forward + back))
}

/// The time a sample spent on the wire: the whole round trip less the host's own delay, each
/// step saturating at zero.
pub open spec fn rtt_of(s: Sample) -> int {
    saturated_u64(saturated_u64(s.t3 - s.t0) - saturated_u64(s.t2 - s.t1))
}

/// The sample the clock trusts: the one with the shortest round trip, the earliest of those
/// on a tie.
pub open spec fn best_of(samples: Seq<Sample>) -> Option<Sample>
    decreases samples.len(),
{
    if samples.len() == 0 {
        None
    } else {
        let last = samples.last();
        match best_of(samples.drop_last()) {
            None => Some(last),
            Some(best) => if rtt_of(last) < rtt_of(best) {
                Some(last)
            } else {
                Some(best)
            },
        }
    }
}

/// The window after a sample arrives: the newest `SAMPLES` of what was there and the sample.
pub open spec fn window(samples: Seq<Sample>, sample: Sample) -> Seq<Sample> {
    let all = samples.push(sample);
    if all.len() > SAMPLES {
        all.subrange(all.len() - SAMPLES, all.len() as int)
    } else {
        all
    }
}

/// When the sample at `first_sample` plays, in host milliseconds.
pub open spec fn play_time(origin: u64, first_sample: u64, rate: u32, lead: u32) -> int {
    let rate = if rate == 0 {
        1
    } else {
        rate as int
    };
    let elapsed = saturated_u64(first_sample * 1_000) / rate;
    saturated_u64(saturated_u64(origin + elapsed) + lead)
}

/// The magnitude of an error, as `i64::abs` gives it for every value but `i64::MIN`.
pub open spec fn magnitude(error: i64) -> int {
    if error < 0 {
        -error
    } else {
        error as int
    }
}

/// What an error of `error` milliseconds asks for.
pub open spec fn nudge_for(error: i64) -> Nudge {
    if magnitude(error) <= HELD {
        Nudge::Hold
    } else if magnitude(error) >= ANCHOR {
        Nudge::Anchor
    } else {
        let ppm: int = error * PPM_PER_MS;
        let clamped: int = if ppm < -MAX_PPM {
            -MAX_PPM as int
        } else if ppm > MAX_PPM {
            MAX_PPM as int
        } else {
            ppm
        };
        Nudge::Slew(clamped as i32)
    }
}

/// How playback that is `error` milliseconds off the host's schedule is corrected: within
/// `HELD` either way it is held; `ANCHOR` or more either way it starts over; in between it is
/// slewed toward the host, `PPM_PER_MS` parts per million for each millisecond, at most
/// `MAX_PPM` either way. So every error past the held margin and short of the anchor is
/// slewed, in its own direction, and one twice as large is slewed twice as hard until the cap.
pub proof fn lemma_correction_bands(error: i64)
    ensures
        -HELD <= error <= HELD ==> nudge_for(error) == Nudge::Hold,
        error >= ANCHOR || error <= -ANCHOR ==> nudge_for(error) == Nudge::Anchor,
        HELD < error < ANCHOR ==> nudge_for(error) == Nudge::Slew(
            if error * 20 > 2000 {
                2000i32
            } else {
                (error * 20) as i32
            },
        ),
        -ANCHOR < error < -HELD ==> nudge_for(error) == Nudge::Slew(
            if error * 20 < -2000 {
                -2000i32
            } else {
                (error * 20) as i32
            },
        ),
{
}

fn saturating_sub_signed(a: i64, b: i64) -> (r: i64)
    ensures
        r == saturated(a - b),
{
    let wide: i128 = a as i128 - b as i128;
    if wide > i64::MAX as i128 {
        i64::MAX
    } else if wide < i64::MIN as i128 {
        i64::MIN
    } else {
        wide as i64
    }
}

fn saturating_add_signed(a: i64, b: i64) -> (r: i64)
    ensures
        r == saturated(a + b),
{
    let wide: i128 = a as i128 + b as i128;
    if wide > i64::MAX as i128 {
        i64::MAX
    } else if wide < i64::MIN as i128 {
        i64::MIN
    } else {
        wide as i64
    }
}

fn saturating_mul_unsigned(a: u64, b: u64) -> (r: u64)
    ensures
        r == saturated_u64(a * b),
{
    match a.checked_mul(b) {
        Some(product) => product,
        None => u64::MAX,
    }
}

impl Sample {
    pub fn offset(&self) -> (r: i64)
        ensures
            r == offset_of(*self),
    {
        let forward = saturating_sub_signed(self.t1 as i64, self.t0 as i64);
        let back = saturating_sub_signed(self.t2 as i64, self.t3 as i64);
        let sum = saturating_add_signed(forward, back);
        if sum >= 0 {
            sum / 2
        } else {
            -((-(sum as i128)) / 2) as i64
        }
    }

    pub fn rtt(&self) -> (r: u64)
        ensures
            r == rtt_of(*self),
    {
        self.t3.saturating_sub(self.t0).saturating_sub(self.t2.saturating_sub(self.t1))
    }
}

impl Clock {
    #[verifier::type_invariant]
    spec fn bounded(self) -> bool {
        self.samples.len() <= SAMPLES
    }

    /// The samples held, oldest first.
    pub closed spec fn samples(self) -> Seq<Sample> {
        self.samples@
    }

    pub fn new() -> (clock: Self)
        ensures
            clock.samples() == Seq::<Sample>::empty(),
    {
        Clock { samples: Vec::new() }
    }

    /// Takes in a sample, dropping the oldest ones beyond `SAMPLES`.
    pub fn push(&mut self, sample: Sample)
        ensures
            final(self).samples() == window(old(self).samples(), sample),
    {
        proof {
            use_type_invariant(&*self);
        }
        let ghost before = self.samples@;
        let mut samples: Vec<Sample> = Vec::new();
        std::mem::swap(&mut samples, &mut self.samples);
        samples.push(sample);
        if samples.len() > SAMPLES {
            samples.remove(0);
            assert(samples@ =~= window(before, sample));
        } else {
            assert(samples@ =~= window(before, sample));
        }
        self.samples = samples;
    }

    /// The sample with the shortest round trip, the earliest of those on a tie.
    pub fn best(&self) -> (r: Option<Sample>)
        ensures
            r == best_of(self.samples()),
            r is None <==> self.samples().len() == 0,
            r matches Some(best) ==> self.samples().contains(best) && forall|i: int|
                0 <= i < self.samples().len() ==> rtt_of(best) <= rtt_of(
                    #[trigger] self.samples()[i],
                ),
    {
        let mut best: Option<Sample> = None;
        let mut i: usize = 0;
        while i < self.samples.len()
            invariant
                i <= self.samples@.len(),
                best == best_of(self.samples@.subrange(0, i as int)),
            decreases self.samples@.len() - i,
        {
            let sample = self.samples[i];
            assert(self.samples@.subrange(0, i + 1).drop_last() =~= self.samples@.subrange(
                0,
                i as int,
            ));
            best = match best {
                None => Some(sample),
                Some(held) => if sample.rtt() < held.rtt() {
                    Some(sample)
                } else {
                    Some(held)
                },
            };
            i = i + 1;
        }
        assert(self.samples@.subrange(0, i as int) =~= self.samples@);
        proof {
            lemma_best_is_least(self.samples@);
        }
        best
    }

    /// The host clock's lead over ours by the best sample, nothing before the first.
    pub fn offset(&self) -> (r: i64)
        ensures
            r == match best_of(self.samples()) {
                Some(best) => offset_of(best),
                None => 0,
            },
    {
        match self.best() {
            Some(sample) => sample.offset(),
            None => 0,
        }
    }

    /// The round trip of the best sample, nothing before the first.
    pub fn rtt(&self) -> (r: u64)
        ensures
            r == match best_of(self.samples()) {
                Some(best) => rtt_of(best),
                None => 0,
            },
    {
        match self.best() {
            Some(sample) => sample.rtt(),
            None => 0,
        }
    }

    pub fn len(&self) -> (r: usize)
        ensures
            r == self.samples().len(),
            r <= SAMPLES,
    {
        proof {
            use_type_invariant(self);
        }
        self.samples.len()
    }
}

/// The best of a window is one of its samples, and no sample in it has a shorter round trip.
pub proof fn lemma_best_is_least(samples: Seq<Sample>)
    ensures
        best_of(samples) is None <==> samples.len() == 0,
        best_of(samples) matches Some(best) ==> samples.contains(best) && forall|i: int|
            0 <= i < samples.len() ==> rtt_of(best) <= rtt_of(#[trigger] samples[i]),
    decreases samples.len(),
{
    if samples.len() > 0 {
        let rest = samples.drop_last();
        lemma_best_is_least(rest);
        let best = best_of(samples)->0;
        assert(samples.contains(best)) by {
            if best == samples.last() {
                assert(samples[samples.len() - 1] == best);
            } else {
                let j = choose|j: int| 0 <= j < rest.len() && rest[j] == best;
                assert(samples[j] == best);
            }
        }
        assert forall|i: int| 0 <= i < samples.len() implies rtt_of(best) <= rtt_of(
            #[trigger] samples[i],
        ) by {
            if i < samples.len() - 1 {
                assert(samples[i] == rest[i]);
            }
        }
    }
}

/// The clock never holds more than `SAMPLES` samples, and what it holds are the newest ones
/// pushed, in the order they came.
pub proof fn lemma_window_keeps_the_newest(samples: Seq<Sample>, sample: Sample)
    requires
        samples.len() <= SAMPLES,
    ensures
        window(samples, sample).len() <= SAMPLES,
        window(samples, sample).last() == sample,
        samples.len() < SAMPLES ==> window(samples, sample) == samples.push(sample),
        samples.len() == SAMPLES ==> window(samples, sample) == samples.drop_first().push(sample),
{
    if samples.len() == SAMPLES {
        assert(window(samples, sample) =~= samples.drop_first().push(sample));
    }
}

/// When the sample at index `first_sample` of a stream at `rate` samples a second plays, given
/// the host's `origin` and the `lead` every listener buffers.
pub fn play_at(origin: u64, first_sample: u64, rate: u32, lead: u32) -> (r: u64)
    ensures
        r == play_time(origin, first_sample, rate, lead),
{
    let rate: u64 = if rate > 1 {
        rate as u64
    } else {
        1
    };
    let elapsed = saturating_mul_unsigned(first_sample, 1_000) / rate;
    origin.saturating_add(elapsed).saturating_add(lead as u64)
}

/// What an error of `error_ms` between where playback is and where the host says it should be
/// asks for: nothing when it is tiny, a slew toward the host in proportion when it is small, and
/// a fresh anchor when it is large.
pub fn correction(error_ms: i64) -> (r: Nudge)
    requires
        error_ms != i64::MIN,
    ensures
        r == nudge_for(error_ms),
        r matches Nudge::Slew(ppm) ==> (error_ms > 0 ==> ppm > 0) && (error_ms < 0 ==> ppm < 0)
            && -MAX_PPM <= ppm <= MAX_PPM,
{
    let size: i64 = if error_ms < 0 {
        -error_ms
    } else {
        error_ms
    };
    if size <= HELD {
        Nudge::Hold
    } else if size >= ANCHOR {
        Nudge::Anchor
    } else {
        let ppm: i64 = error_ms * PPM_PER_MS;
        let clamped: i64 = if ppm < -MAX_PPM {
            -MAX_PPM
        } else if ppm > MAX_PPM {
            MAX_PPM
        } else {
            ppm
        };
        Nudge::Slew(clamped as i32)
    }
}

} // verus!

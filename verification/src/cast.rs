//! How the host cuts what it plays into numbered chunks for the room, as decisions: each chunk
//! is numbered in turn and stamped with the sample it starts at; a switch of source starts the
//! count over with a cut; a source that runs dry is marked quiet once it has been dry long
//! enough, and the count goes on through the quiet; a chunk after a quiet stretch or after lost
//! samples is marked as a cut. The caller reads the samples, sleeps and sends.

use vstd::prelude::*;

use crate::wire::{Header, MarkKind};

verus! {

/// How long one chunk plays, in milliseconds.
pub const CHUNK_MS: u32 = 20;
/// How long a source has to run dry before the room is told it went quiet, in milliseconds.
pub const QUIET_AFTER_MS: u64 = 120;

/// What goes out to the room: a header, with a mark when the chunk carries one.
#[derive(Clone, Copy, Debug, PartialEq, Eq, Structural)]
pub struct Sent {
    pub header: Header,
    pub mark: Option<MarkKind>,
}

/// How long to wait before looking again.
#[derive(Clone, Copy, Debug, PartialEq, Eq, Structural)]
pub enum Wait {
    /// A moment: samples may come any time.
    Idle,
    /// A chunk's length: the source is quiet.
    Chunk,
}

/// The chunker's count: the sample the next chunk starts at, the next chunk's number, since
/// when the source has been dry (milliseconds), and whether it went quiet.
#[derive(Clone, Copy, Debug, PartialEq, Eq, Structural)]
pub struct Chunking {
    pub counter: u64,
    pub seq: u32,
    pub dry: Option<u64>,
    pub quiet: bool,
}

/// A header stamped with the next number and the current sample.
pub open spec fn stamped(state: Chunking) -> Header {
    Header { seq: state.seq, first_sample: state.counter }
}

/// The number after `seq`, wrapping around.
pub open spec fn next_seq(seq: u32) -> u32 {
    if seq == u32::MAX {
        0
    } else {
        (seq + 1) as u32
    }
}

/// A count of samples moved on by `frames`, saturating.
pub open spec fn moved(counter: u64, frames: u64) -> u64 {
    if counter + frames > u64::MAX {
        u64::MAX
    } else {
        (counter + frames) as u64
    }
}

impl Chunking {
    /// A count at the start.
    pub fn new() -> (r: Chunking)
        ensures
            r == (Chunking { counter: 0, seq: 0, dry: None, quiet: false }),
    {
        Chunking { counter: 0, seq: 0, dry: None, quiet: false }
    }

    /// The source switched: the count starts over, and a cut goes out as chunk 0.
    pub fn cut(&mut self) -> (r: Sent)
        ensures
            r == (Sent { header: Header { seq: 0, first_sample: 0 }, mark: Some(MarkKind::Cut) }),
            *final(self) == (Chunking { counter: 0, seq: 1, dry: None, quiet: false }),
    {
        self.counter = 0;
        self.seq = 0;
        self.quiet = false;
        self.dry = None;
        self.send(Some(MarkKind::Cut))
    }

    /// Numbers the next chunk.
    fn send(&mut self, mark: Option<MarkKind>) -> (r: Sent)
        ensures
            r == (Sent { header: stamped(*old(self)), mark }),
            *final(self) == (Chunking { seq: next_seq(old(self).seq), ..*old(self) }),
    {
        let header = Header { seq: self.seq, first_sample: self.counter };
        self.seq = self.seq.wrapping_add(1);
        Sent { header, mark }
    }

    /// The source gave less than a chunk at `now`: it has been dry since the first time it did,
    /// and once that is `QUIET_AFTER_MS` ago the room is told it is quiet. Through a quiet
    /// stretch the count goes on by `frames`, a chunk's worth, and the caller waits a chunk;
    /// otherwise it waits a moment.
    pub fn short(&mut self, now: u64, frames: u64) -> (r: (Option<Sent>, Wait))
        ensures
            ({
                let since = match old(self).dry {
                    Some(since) => since,
                    None => now,
                };
                let quieted = !old(self).quiet && now >= since && now - since >= QUIET_AFTER_MS;
                let after = Chunking {
                    dry: Some(since),
                    quiet: old(self).quiet || quieted,
                    seq: if quieted {
                        next_seq(old(self).seq)
                    } else {
                        old(self).seq
                    },
                    ..*old(self)
                };
                &&& r.0 == (if quieted {
                    Some(
                        Sent {
                            header: stamped(*old(self)),
                            mark: Some(MarkKind::Quiet),
                        },
                    )
                } else {
                    None
                })
                &&& if after.quiet {
                    r.1 == Wait::Chunk && *final(self) == (Chunking {
                        counter: moved(after.counter, frames),
                        ..after
                    })
                } else {
                    r.1 == Wait::Idle && *final(self) == after
                }
            }),
    {
        let since = match self.dry {
            Some(since) => since,
            None => now,
        };
        self.dry = Some(since);
        let mut told = None;
        if !self.quiet && now >= since && now - since >= QUIET_AFTER_MS {
            self.quiet = true;
            told = Some(self.send(Some(MarkKind::Quiet)));
        }
        if self.quiet {
            self.counter = self.counter.saturating_add(frames);
            (told, Wait::Chunk)
        } else {
            (told, Wait::Idle)
        }
    }

    /// A full chunk of `frames` frames came, after `lost` samples were dropped: it goes out
    /// marked as a cut when it ends a quiet stretch or samples were lost, and the count moves
    /// on past it.
    pub fn full(&mut self, lost: u64, frames: u64) -> (r: Sent)
        ensures
            r == (Sent {
                header: stamped(*old(self)),
                mark: if !old(self).quiet && lost == 0 {
                    None
                } else {
                    Some(MarkKind::Cut)
                },
            }),
            *final(self) == (Chunking {
                counter: moved(old(self).counter, frames),
                seq: next_seq(old(self).seq),
                dry: None,
                quiet: false,
            }),
    {
        let mark = if !self.quiet && lost == 0 {
            None
        } else {
            Some(MarkKind::Cut)
        };
        self.dry = None;
        self.quiet = false;
        let sent = self.send(mark);
        self.counter = self.counter.saturating_add(frames);
        sent
    }
}

} // verus!

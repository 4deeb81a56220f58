use sonora::cast::{Chunking, Sent, Wait, QUIET_AFTER_MS};
use sonora::wire::{Header, MarkKind};

fn header(seq: u32, first_sample: u64) -> Header {
    Header { seq, first_sample }
}

#[test]
fn full_chunks_are_numbered_and_stamped_in_turn() {
    let mut chunking = Chunking::new();
    assert_eq!(chunking.full(0, 882), Sent { header: header(0, 0), mark: None });
    assert_eq!(chunking.full(0, 882), Sent { header: header(1, 882), mark: None });
    assert_eq!(chunking.counter, 1_764);
}

#[test]
fn lost_samples_mark_the_next_chunk_as_a_cut() {
    let mut chunking = Chunking::new();
    chunking.full(0, 10);
    assert_eq!(
        chunking.full(3, 10),
        Sent { header: header(1, 10), mark: Some(MarkKind::Cut) }
    );
}

#[test]
fn a_dry_source_goes_quiet_after_a_while_and_the_count_goes_on() {
    let mut chunking = Chunking::new();
    chunking.full(0, 100);
    assert_eq!(chunking.short(1_000, 882), (None, Wait::Idle));
    assert_eq!(chunking.short(1_000 + QUIET_AFTER_MS - 1, 882), (None, Wait::Idle));
    assert_eq!(chunking.counter, 100);
    let (told, wait) = chunking.short(1_000 + QUIET_AFTER_MS, 882);
    assert_eq!(told, Some(Sent { header: header(1, 100), mark: Some(MarkKind::Quiet) }));
    assert_eq!(wait, Wait::Chunk);
    assert_eq!(chunking.counter, 982);
    assert_eq!(chunking.short(2_000, 882), (None, Wait::Chunk));
    assert_eq!(chunking.counter, 1_864);
    assert_eq!(
        chunking.full(0, 882),
        Sent { header: header(2, 1_864), mark: Some(MarkKind::Cut) }
    );
    assert!(!chunking.quiet);
    assert_eq!(chunking.dry, None);
}

#[test]
fn a_switch_of_source_starts_over_with_a_cut() {
    let mut chunking = Chunking::new();
    chunking.full(0, 500);
    chunking.full(0, 500);
    assert_eq!(
        chunking.cut(),
        Sent { header: header(0, 0), mark: Some(MarkKind::Cut) }
    );
    assert_eq!(chunking.full(0, 10), Sent { header: header(1, 0), mark: None });
}

#[test]
fn the_numbers_wrap_around() {
    let mut chunking = Chunking { counter: u64::MAX - 1, seq: u32::MAX, dry: None, quiet: false };
    assert_eq!(chunking.full(0, 5).header, header(u32::MAX, u64::MAX - 1));
    assert_eq!(chunking.seq, 0);
    assert_eq!(chunking.counter, u64::MAX);
}

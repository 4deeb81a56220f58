use sonora::lead::{stepped, Lead, CEILING, HOLD};

#[test]
fn a_floor_is_stepped_and_held_under_the_ceiling() {
    assert_eq!(Lead::new(0).lead(), 0);
    assert_eq!(Lead::new(1).lead(), 20);
    assert_eq!(Lead::new(250).lead(), 260);
    assert_eq!(Lead::new(5_000).lead(), CEILING);
}

#[test]
fn steps_round_up_and_saturate() {
    assert_eq!(stepped(0), 0);
    assert_eq!(stepped(20), 20);
    assert_eq!(stepped(21), 40);
    assert_eq!(stepped(u32::MAX), u32::MAX);
}

#[test]
fn noting_the_same_need_twice_changes_nothing() {
    let mut lead = Lead::new(0);
    assert!(lead.note("kitchen", 130));
    assert!(!lead.note("kitchen", 140));
    assert!(lead.note("kitchen", 141));
    assert_eq!(lead.needs(), vec![("kitchen".to_owned(), 160)]);
}

#[test]
fn a_larger_need_raises_the_lead_at_once() {
    let mut lead = Lead::new(100);
    lead.note("porch", 300);
    assert_eq!(lead.settle(0), Some(300));
    assert_eq!(lead.lead(), 300);
    assert_eq!(lead.settle(1), None);
}

#[test]
fn a_smaller_need_lowers_the_lead_only_after_it_held() {
    let mut lead = Lead::new(100);
    lead.note("porch", 300);
    lead.settle(0);
    lead.forget("porch");
    assert_eq!(lead.settle(1_000), None);
    assert_eq!(lead.settle(1_000 + HOLD - 1), None);
    assert_eq!(lead.lead(), 300);
    assert_eq!(lead.settle(1_000 + HOLD), Some(100));
    assert_eq!(lead.lead(), 100);
}

#[test]
fn a_need_back_at_the_lead_restarts_the_wait() {
    let mut lead = Lead::new(0);
    lead.note("a", 200);
    lead.settle(0);
    lead.note("a", 100);
    assert_eq!(lead.settle(10), None);
    lead.note("a", 200);
    assert_eq!(lead.settle(20), None);
    lead.note("a", 100);
    assert_eq!(lead.settle(HOLD + 15), None);
    assert_eq!(lead.settle(HOLD + 20 + HOLD), Some(100));
}

#[test]
fn the_loudest_listener_sets_the_lead_up_to_the_ceiling() {
    let mut lead = Lead::new(0);
    lead.note("a", 120);
    lead.note("b", 9_000);
    assert_eq!(lead.settle(0), Some(CEILING));
    let mut needs = lead.needs();
    needs.sort();
    assert_eq!(needs, vec![("a".to_owned(), 120), ("b".to_owned(), CEILING)]);
}

use sonora::scan::Scan;

#[test]
fn a_scan_the_user_asked_for_reports_how_long_it_took() {
    let mut scan = Scan::new();
    scan.ask();
    assert!(scan.follow(true, 1_000, false));
    assert!(!scan.follow(true, 1_500, false));
    assert!(scan.follow(false, 4_000, false));
    assert_eq!(scan.done, Some(3_000));
    assert!(!scan.asked);
}

#[test]
fn a_scan_at_startup_or_cut_short_reports_nothing() {
    let mut scan = Scan::new();
    scan.follow(true, 1_000, false);
    scan.follow(false, 4_000, false);
    assert_eq!(scan.done, None);

    scan.ask();
    scan.follow(true, 5_000, false);
    scan.follow(false, 6_000, true);
    assert_eq!(scan.done, None);
}

#[test]
fn the_report_stays_until_the_page_showed_it_and_was_left() {
    let mut scan = Scan::new();
    scan.ask();
    scan.follow(true, 0, false);
    scan.follow(false, 2_000, false);
    assert!(!scan.viewing_settings(false));
    assert_eq!(scan.done, Some(2_000));
    assert!(!scan.viewing_settings(true));
    assert!(scan.viewing_settings(false));
    assert_eq!(scan.done, None);
}

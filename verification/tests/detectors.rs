use bitswap_wantlist::detectors::{
    contains_cid, get_duplicate_entries_from_sliding_windows, mark_rows, smallest_matching_window,
};
use bitswap_wantlist::engine::sorted_windows;
use bitswap_wantlist::ledger::{Ledger, WantlistEntry};
use bitswap_wantlist::timestamp::Timestamp;
use bitswap_wantlist::wantlist::{CSVWantlistEntry, JSONWantlistEntry, JsonCID};

fn ts(seconds: i64) -> Timestamp {
    Timestamp::new(seconds, 0)
}

fn want(cid: &str) -> JSONWantlistEntry {
    JSONWantlistEntry {
        priority: 0,
        cancel: false,
        send_dont_have: false,
        cid: JsonCID { path: cid.to_string() },
        want_type: 0,
    }
}

fn held(cid: &str, seconds: i64) -> WantlistEntry {
    WantlistEntry { cid: cid.to_string(), ts: ts(seconds) }
}

fn row(cid: &str) -> CSVWantlistEntry {
    CSVWantlistEntry {
        message_id: 1,
        message_type: 1,
        timestamp_seconds: 0,
        timestamp_subsec_milliseconds: 0,
        peer_id: "peer".to_string(),
        address: String::new(),
        priority: 0,
        entry_type: 2,
        cid: cid.to_string(),
        duplicate_status: 0,
        sliding_window_smallest_match: 0,
    }
}

#[test]
fn sorted_windows_sorts() {
    assert_eq!(sorted_windows(&vec![]), Vec::<u32>::new());
    assert_eq!(sorted_windows(&vec![5]), vec![5]);
    assert_eq!(sorted_windows(&vec![300, 5, 60, 5, 0, u32::MAX]), vec![0, 5, 5, 60, 300, u32::MAX]);
}

#[test]
fn contains_cid_looks_through_the_wants() {
    let wants = vec![want("a"), want("b")];
    let refs: Vec<&JSONWantlistEntry> = wants.iter().collect();
    assert!(contains_cid(&refs, &"a".to_string()));
    assert!(contains_cid(&refs, &"b".to_string()));
    assert!(!contains_cid(&refs, &"c".to_string()));
    assert!(!contains_cid(&vec![], &"a".to_string()));
}

#[test]
fn smallest_matching_window_takes_the_first_that_matches() {
    let windows = vec![10, 60, 300];
    let now = ts(1000);
    assert_eq!(smallest_matching_window(&windows, &ts(995), &now), 10);
    assert_eq!(smallest_matching_window(&windows, &ts(991), &now), 10);
    assert_eq!(smallest_matching_window(&windows, &ts(990), &now), 60);
    assert_eq!(smallest_matching_window(&windows, &ts(940), &now), 300);
    assert_eq!(smallest_matching_window(&windows, &ts(701), &now), 300);
    assert_eq!(smallest_matching_window(&windows, &ts(700), &now), 0);
    assert_eq!(smallest_matching_window(&vec![], &ts(999), &now), 0);
    assert_eq!(smallest_matching_window(&windows, &Timestamp::new(990, 1), &now), 10);
}

#[test]
fn sliding_windows_report_recent_entries_that_are_wanted_again() {
    let mut ledger = Ledger::new(1, ts(0));
    let a = vec![want("a")];
    let b = vec![want("b")];
    let c = vec![want("c")];
    let d = vec![want("d")];
    ledger.apply_incremental(&a.iter().collect(), &vec![], ts(100));
    ledger.apply_incremental(&b.iter().collect(), &vec![], ts(950));
    ledger.apply_incremental(&c.iter().collect(), &vec![], ts(995));
    ledger.apply_incremental(&d.iter().collect(), &vec![], ts(999));

    let wants = vec![want("c"), want("a"), want("b"), want("x")];
    let refs: Vec<&JSONWantlistEntry> = wants.iter().collect();
    let windows = vec![10, 60];
    let found = get_duplicate_entries_from_sliding_windows(&windows, &ledger, ts(1000), &refs);
    assert_eq!(found, Some(vec![(held("b", 950), 60), (held("c", 995), 10)]));

    assert_eq!(get_duplicate_entries_from_sliding_windows(&vec![], &ledger, ts(1000), &refs), None);
    assert_eq!(
        get_duplicate_entries_from_sliding_windows(&windows, &ledger, ts(5000), &refs),
        None,
    );
    let other = vec![want("x")];
    assert_eq!(
        get_duplicate_entries_from_sliding_windows(
            &windows,
            &ledger,
            ts(1000),
            &other.iter().collect(),
        ),
        None
    );
}

#[test]
fn mark_rows_sets_one_bit_for_every_list() {
    let mut rows = vec![row("a"), row("b"), row("c"), row("d")];
    let full = Some(vec![held("a", 0), held("b", 0)]);
    let reconnect = Some(vec![held("b", 0), held("c", 0)]);
    let sliding = Some(vec![(held("a", 0), 30), (held("c", 0), 600)]);
    mark_rows(&mut rows, &full, &reconnect, &sliding);
    let marks: Vec<(u32, u32)> =
        rows.iter().map(|r| (r.duplicate_status, r.sliding_window_smallest_match)).collect();
    assert_eq!(marks, vec![(1 | 4, 30), (1 | 2, 0), (2 | 4, 600), (0, 0)]);
    assert_eq!(rows[0].cid, "a");
    assert_eq!(rows[0].peer_id, "peer");

    let mut rows = vec![row("a")];
    mark_rows(&mut rows, &None, &None, &None);
    assert_eq!(rows, vec![row("a")]);
}

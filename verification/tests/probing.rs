use bitswap_wantlist::monitoring::{
    BitswapMessage, ConnectionEvent, ConnectionEventType, EventType, PushedEvent,
};
use bitswap_wantlist::probing::{
    csv_header, forget, gateway_site, is_interesting, note_wantlist, probe_url, same_bytes,
    ProbingState, HASH_LABEL, HASH_MARKER, NO_REDIRECT_FRAGMENT, PROBE_DATA_BYTES,
    RETRY_PAUSE_SECONDS,
};
use bitswap_wantlist::timestamp::Timestamp;
use bitswap_wantlist::wantlist::{JSONMessage, JSONWantlistEntry, JsonCID};

const FIRST_FORM: &str = "QmdfTbBqBPQ7VNxZEYEj14VmRuZBkqFbiwReogJgS1zR1n";
const LATER_FORM: &str = "bafybeihdwdcefgh4dqkjv67uzcmw7ojee6xedzdetojuzjevtenxquvyku";

fn ts(seconds: i64) -> Timestamp {
    Timestamp::new(seconds, 7_000_000)
}

fn want(cid: &str) -> JSONWantlistEntry {
    JSONWantlistEntry {
        priority: 1,
        cancel: false,
        send_dont_have: false,
        cid: JsonCID { path: cid.to_string() },
        want_type: 0,
    }
}

fn bitswap(peer: &str, cids: &[&str]) -> PushedEvent {
    PushedEvent {
        timestamp: ts(50),
        peer: peer.to_string(),
        inner: EventType::BitswapMessage(BitswapMessage {
            wantlist_entries: cids.iter().map(|c| want(c)).collect(),
            full_wantlist: false,
            blocks: vec![],
            block_presences: vec![],
            connected_addresses: vec![],
        }),
    }
}

fn probe(cid: &str) -> ProbingState {
    let mut state = ProbingState::new();
    state.cid_v1 = Some(cid.to_string());
    state
}

fn names(v: &[&str]) -> Vec<String> {
    v.iter().map(|s| s.to_string()).collect()
}

#[test]
fn probing_constants() {
    assert_eq!(HASH_MARKER, ":hash");
    assert_eq!(HASH_LABEL, ":hash.");
    assert_eq!(NO_REDIRECT_FRAGMENT, "x-ipfs-companion-no-redirect");
    assert_eq!(PROBE_DATA_BYTES, 1024);
    assert_eq!(RETRY_PAUSE_SECONDS, 3);
}

#[test]
fn new_probe_knows_nothing() {
    let state = ProbingState::new();
    assert_eq!(state, ProbingState::default());
    assert!(state.data.is_none() && state.cid_v0.is_none() && state.cid_v1.is_none());
    assert!(state.http_request_timestamp.is_none() && state.http_requests_sent.is_none());
    assert!(state.http_request_remote.is_none() && state.http_success_timestamp.is_none());
    assert!(state.http_error_message.is_none() && state.wantlist_message.is_none());
}

#[test]
fn note_added_keeps_both_forms() {
    let mut state = ProbingState::new();
    assert!(state.note_added(FIRST_FORM.to_string()));
    assert_eq!(state.cid_v0.as_deref(), Some(FIRST_FORM));
    assert_eq!(state.cid_v1.as_deref(), Some(LATER_FORM));

    let read = cid::Cid::try_from(FIRST_FORM).unwrap();
    let later = cid::Cid::new_v1(read.codec(), *read.hash());
    assert_eq!(state.cid_v1, Some(later.to_string()));

    // An identifier in its later form stays as it is.
    let mut state = ProbingState::new();
    assert!(state.note_added(LATER_FORM.to_string()));
    assert_eq!(state.cid_v1.as_deref(), Some(LATER_FORM));
}

#[test]
fn note_identifiers_keeps_what_it_is_given() {
    let mut state = ProbingState::new();
    state.data = Some(vec![1]);
    state.note_identifiers("first".to_string(), "later".to_string());
    assert_eq!(state.cid_v0.as_deref(), Some("first"));
    assert_eq!(state.cid_v1.as_deref(), Some("later"));
    assert_eq!(state.data, Some(vec![1]));
}

#[test]
fn note_added_refuses_what_is_no_identifier() {
    let mut state = probe("kept");
    assert!(!state.note_added("no identifier".to_string()));
    assert!(!state.note_added(String::new()));
    assert_eq!(state, probe("kept"));
}

#[test]
fn requests_are_counted_and_timed() {
    let mut state = ProbingState::new();
    state.begin_requests(ts(1));
    assert_eq!(state.http_request_timestamp, Some(ts(1)));
    state.note_request_sent(0);
    assert_eq!(state.http_requests_sent, Some(1));
    state.note_request_sent(4);
    assert_eq!(state.http_requests_sent, Some(5));
    state.note_request_sent(u32::MAX - 1);
    assert_eq!(state.http_requests_sent, Some(u32::MAX));
}

#[test]
fn right_answer_is_timed() {
    let mut state = ProbingState::new();
    state.data = Some(vec![1, 2, 3]);
    let verdict = state.note_response(Some("1.2.3.4:443".to_string()), &[1, 2, 3], ts(9));
    assert_eq!(verdict, None);
    assert_eq!(state.http_success_timestamp, Some(ts(9)));
    assert_eq!(state.http_request_remote.as_deref(), Some("1.2.3.4:443"));
    assert!(state.http_error_message.is_none());
}

#[test]
fn wrong_answer_is_described() {
    let mut state = ProbingState::new();
    state.data = Some(vec![0; 1024]);
    let verdict = state.note_response(None, &[1, 2, 3], ts(9));
    assert_eq!(
        verdict.as_deref(),
        Some("data mismatch, expected 1024 bytes, got 3 bytes (and maybe different ones)")
    );
    assert!(state.http_success_timestamp.is_none());
    assert!(state.http_request_remote.is_none());

    state.data = Some(vec![1, 2, 3]);
    let verdict = state.note_response(Some("r".to_string()), &[1, 2, 4], ts(9));
    assert_eq!(
        verdict.as_deref(),
        Some("data mismatch, expected 3 bytes, got 3 bytes (and maybe different ones)")
    );
    assert_eq!(state.http_request_remote.as_deref(), Some("r"));
}

#[test]
fn giving_up_keeps_the_last_error() {
    let mut state = ProbingState::new();
    state.note_gave_up(10, None);
    assert!(state.http_error_message.is_none());
    state.note_gave_up(10, Some("timed out".to_string()));
    assert_eq!(
        state.http_error_message.as_deref(),
        Some("did not get a correct response after 10 tries, last error: timed out")
    );
    state.note_gave_up(0, Some(String::new()));
    assert_eq!(
        state.http_error_message.as_deref(),
        Some("did not get a correct response after 0 tries, last error: ")
    );
}

#[test]
fn failure_is_noted_once() {
    let mut state = ProbingState::new();
    state.note_failure("first".to_string());
    state.note_failure("second".to_string());
    assert_eq!(state.http_error_message.as_deref(), Some("first"));
}

#[test]
fn same_bytes_compares_all_bytes() {
    assert!(same_bytes(&[], &[]));
    assert!(same_bytes(&[1, 2], &[1, 2]));
    assert!(!same_bytes(&[1, 2], &[1, 3]));
    assert!(!same_bytes(&[1, 2], &[1]));
    assert!(!same_bytes(&[], &[0]));
}

#[test]
fn header_names_fourteen_columns() {
    assert_eq!(
        csv_header(),
        names(&[
            "gateway",
            "gateway_url",
            "cid",
            "http_request_ts",
            "http_request_ts_subsec_millis",
            "http_error_message",
            "http_success_ts",
            "http_success_ts_subsec_millis",
            "http_requests_sent",
            "http_remote",
            "first_wl_ts",
            "first_wl_ts_subsec_millis",
            "first_wl_peer",
            "first_wl_address",
        ])
    );
}

#[test]
fn row_of_a_probe_without_results() {
    let state = ProbingState::new();
    let mut expected = names(&["gw.example", "https://:hash.gw.example/"]);
    expected.extend(std::iter::repeat(String::new()).take(12));
    assert_eq!(state.csv_row("gw.example", "https://:hash.gw.example/"), expected);
}

#[test]
fn row_of_a_probe_with_results() {
    let mut state = probe("bafy");
    state.http_request_timestamp = Some(Timestamp::new(100, 250_000_000));
    state.http_requests_sent = Some(3);
    state.http_request_remote = Some("1.2.3.4:443".to_string());
    state.http_success_timestamp = Some(Timestamp::new(101, 999_999_999));
    state.http_error_message = Some("none, really".to_string());
    state.wantlist_message = Some(JSONMessage {
        timestamp: Timestamp::new(102, 1_000_000),
        peer: "QmGateway".to_string(),
        address: Some("/ip4/1.2.3.4/tcp/4001".to_string()),
        received_entries: Some(vec![want("bafy")]),
        full_want_list: Some(false),
        peer_connected: None,
        peer_disconnected: None,
        connect_event_peer_found: None,
    });
    assert_eq!(
        state.csv_row("gw.example", "https://gw.example/ipfs/:hash"),
        names(&[
            "gw.example",
            "https://gw.example/ipfs/:hash",
            "bafy",
            "100",
            "250",
            "none, really",
            "101",
            "999",
            "3",
            "1.2.3.4:443",
            "102",
            "1",
            "QmGateway",
            "/ip4/1.2.3.4/tcp/4001",
        ])
    );
}

#[test]
fn probe_url_fills_in_the_identifier() {
    assert_eq!(probe_url("https://ipfs.io/ipfs/:hash", "bafy"), "https://ipfs.io/ipfs/bafy");
    assert_eq!(probe_url("https://:hash.ipfs.dweb.link", "bafy"), "https://bafy.ipfs.dweb.link");
    assert_eq!(probe_url("https://example.org/", "bafy"), "https://example.org/");
}

#[test]
fn gateway_site_drops_the_label() {
    assert_eq!(gateway_site("https://:hash.ipfs.dweb.link"), "https://ipfs.dweb.link");
    assert_eq!(gateway_site("https://ipfs.io/ipfs/:hash"), "https://ipfs.io/ipfs/:hash");
}

#[test]
fn interesting_identifiers_are_found_and_forgotten() {
    let mut cids = names(&["a", "b", "a", "c"]);
    assert!(is_interesting(&cids, "a"));
    assert!(!is_interesting(&cids, "d"));
    forget(&mut cids, "a");
    assert_eq!(cids, names(&["b", "c"]));
    forget(&mut cids, "zz");
    assert_eq!(cids, names(&["b", "c"]));
    forget(&mut cids, "c");
    forget(&mut cids, "b");
    assert!(cids.is_empty());
    assert!(!is_interesting(&cids, "b"));
}

#[test]
fn wantlist_goes_to_the_probe_that_waits_for_it() {
    let mut probes = vec![
        ("gw1".to_string(), probe("x")),
        ("gw2".to_string(), probe("y")),
        ("gw3".to_string(), probe("y")),
    ];
    let mut cids = names(&["x", "y"]);
    // The first entry that is interesting counts, and only that one.
    let event = bitswap("QmPeer", &["other", "y", "x"]);
    note_wantlist(&mut probes, &mut cids, &event);
    assert_eq!(cids, names(&["x"]));
    assert!(probes[0].1.wantlist_message.is_none());
    assert!(probes[2].1.wantlist_message.is_none());
    let message = probes[1].1.wantlist_message.clone().unwrap();
    assert_eq!(message, event.wantlist_message().unwrap());
    assert_eq!(message.peer, "QmPeer");
    assert_eq!(message.timestamp, ts(50));
    assert_eq!(message.received_entries.unwrap().len(), 3);
    assert_eq!(probes[1].1.cid_v1.as_deref(), Some("y"));
    assert_eq!(probes[1].0, "gw2");

    // The identifier is forgotten: the same message does nothing more for it.
    let before = probes.clone();
    note_wantlist(&mut probes, &mut cids, &bitswap("QmOther", &["y"]));
    assert_eq!(probes, before);
    assert_eq!(cids, names(&["x"]));
}

#[test]
fn wantlist_skips_probes_that_have_their_message() {
    let mut probes = vec![("gw1".to_string(), probe("y")), ("gw2".to_string(), probe("y"))];
    let mut cids = names(&["y"]);
    note_wantlist(&mut probes, &mut cids, &bitswap("first", &["y"]));
    cids.push("y".to_string());
    note_wantlist(&mut probes, &mut cids, &bitswap("second", &["y"]));
    assert_eq!(probes[0].1.wantlist_message.as_ref().unwrap().peer, "first");
    assert_eq!(probes[1].1.wantlist_message.as_ref().unwrap().peer, "second");
    assert!(cids.is_empty());
}

#[test]
fn wantlist_for_no_probe_is_forgotten_all_the_same() {
    let mut probes = vec![
        ("gw1".to_string(), probe("x")),
        ("gw2".to_string(), ProbingState::new()),
    ];
    let mut cids = names(&["stray", "x"]);
    let before = probes.clone();
    note_wantlist(&mut probes, &mut cids, &bitswap("peer", &["stray"]));
    assert_eq!(probes, before);
    assert_eq!(cids, names(&["x"]));
}

#[test]
fn other_events_change_nothing() {
    let mut probes = vec![("gw1".to_string(), probe("x"))];
    let mut cids = names(&["x"]);
    let before = probes.clone();
    note_wantlist(&mut probes, &mut cids, &bitswap("peer", &["a", "b"]));
    note_wantlist(&mut probes, &mut cids, &bitswap("peer", &[]));
    let event = PushedEvent {
        timestamp: ts(1),
        peer: "peer".to_string(),
        inner: EventType::ConnectionEvent(ConnectionEvent {
            remote: "x".to_string(),
            connection_event_type: ConnectionEventType::Connected,
        }),
    };
    note_wantlist(&mut probes, &mut cids, &event);
    assert_eq!(probes, before);
    assert_eq!(cids, names(&["x"]));
}

use bitswap_wantlist::engine::{EngineSimulation, EngineSimulationConfig, IngestResult};
use bitswap_wantlist::error::{EngineError, ErrorKind};
use bitswap_wantlist::ledger::WantlistEntry;
use bitswap_wantlist::timestamp::Timestamp;
use bitswap_wantlist::wantlist::{
    CSVConnectionEvent, CSVWantlistEntry, JSONMessage, JSONWantlistEntry, JsonCID,
    CSV_CONNECTION_EVENT_CONNECTED_FOUND, CSV_CONNECTION_EVENT_CONNECTED_NOT_FOUND,
    CSV_CONNECTION_EVENT_DISCONNECTED_FOUND, CSV_CONNECTION_EVENT_DISCONNECTED_NOT_FOUND,
    CSV_DUPLICATE_STATUS_DUP_FULL_WANTLIST, CSV_DUPLICATE_STATUS_DUP_RECONNECT,
    CSV_DUPLICATE_STATUS_DUP_SLIDING_WINDOW, CSV_ENTRY_TYPE_CANCEL, CSV_ENTRY_TYPE_WANT_BLOCK,
    CSV_ENTRY_TYPE_WANT_BLOCK_SEND_DONT_HAVE, CSV_ENTRY_TYPE_WANT_HAVE, CSV_MESSAGE_TYPE_FULL,
    CSV_MESSAGE_TYPE_INCREMENTAL, CSV_MESSAGE_TYPE_SYNTHETIC,
};

const BASE: i64 = 1_700_000_000;

fn ts(offset: i64) -> Timestamp {
    Timestamp::new(BASE + offset, 0)
}

fn config() -> EngineSimulationConfig {
    EngineSimulationConfig {
        allow_empty_full_wantlist: true,
        allow_empty_connection_event: false,
        insert_full_wantlist_synth_cancels: true,
        insert_disconnect_synth_cancels: true,
        insert_full_wantlist_duplicate_markers: true,
        insert_reconnect_duplicate_markers: true,
        reconnect_duplicate_duration_secs: 50,
        insert_sliding_window_duplicate_markers: true,
        sliding_window_lengths: vec![10, 100],
    }
}

fn entry(cid: &str, cancel: bool) -> JSONWantlistEntry {
    JSONWantlistEntry {
        priority: 1,
        cancel,
        send_dont_have: false,
        cid: JsonCID { path: cid.to_string() },
        want_type: 0,
    }
}

fn wants(peer: &str, offset: i64, full: Option<bool>, cids: &[&str]) -> JSONMessage {
    JSONMessage {
        timestamp: ts(offset),
        peer: peer.to_string(),
        address: None,
        received_entries: Some(cids.iter().map(|c| entry(c, false)).collect()),
        full_want_list: full,
        peer_connected: None,
        peer_disconnected: None,
        connect_event_peer_found: None,
    }
}

fn cancels(peer: &str, offset: i64, cids: &[&str]) -> JSONMessage {
    let mut message = wants(peer, offset, Some(false), &[]);
    message.received_entries = Some(cids.iter().map(|c| entry(c, true)).collect());
    message
}

fn event(peer: &str, offset: i64, connected: bool, found: bool) -> JSONMessage {
    JSONMessage {
        timestamp: ts(offset),
        peer: peer.to_string(),
        address: Some("/ip4/127.0.0.1/tcp/1".to_string()),
        received_entries: None,
        full_want_list: None,
        peer_connected: Some(connected),
        peer_disconnected: Some(!connected),
        connect_event_peer_found: Some(found),
    }
}

fn script() -> Vec<JSONMessage> {
    vec![
        event("anna", 0, true, false),
        wants("anna", 1, Some(true), &["c", "a", "b", "a"]),
        wants("bert", 2, Some(false), &["x"]),
        wants("anna", 5, Some(false), &["b", "d"]),
        cancels("anna", 6, &["a", "zz"]),
        wants("anna", 20, Some(true), &["d", "e"]),
        event("anna", 21, false, true),
        event("anna", 30, true, true),
        wants("anna", 31, Some(false), &["d", "q"]),
        wants("anna", 32, None, &["e"]),
        event("bert", 40, true, false),
        wants("bert", 41, Some(true), &["x", "y"]),
        event("bert", 42, false, true),
        event("bert", 43, false, true),
        wants("bert", 200, Some(true), &["y"]),
        wants("anna", 300, Some(false), &["e", "d"]),
    ]
}

fn run(cfg: EngineSimulationConfig) -> (EngineSimulation, Vec<IngestResult>) {
    let mut engine = EngineSimulation::new(cfg).unwrap();
    let mut results = Vec::new();
    for (i, message) in script().iter().enumerate() {
        results.push(engine.ingest(message, i as i64 + 1).unwrap());
    }
    (engine, results)
}

fn row_key(row: &CSVWantlistEntry) -> (
    i64,
    i32,
    i64,
    u32,
    String,
    String,
    i32,
    i32,
    String,
    u32,
    u32,
) {
    (
        row.message_id,
        row.message_type,
        row.timestamp_seconds,
        row.timestamp_subsec_milliseconds,
        row.peer_id.clone(),
        row.address.clone(),
        row.priority,
        row.entry_type,
        row.cid.clone(),
        row.duplicate_status,
        row.sliding_window_smallest_match,
    )
}

fn event_key(row: &CSVConnectionEvent) -> (i64, i64, u32, String, String, i32) {
    (
        row.message_id,
        row.timestamp_seconds,
        row.timestamp_subsec_millis,
        row.peer_id.clone(),
        row.address.clone(),
        row.event_type,
    )
}

fn state(engine: &EngineSimulation) -> Vec<(
    String,
    i32,
    Vec<(String, Timestamp)>,
    Option<Vec<String>>,
    Option<Timestamp>,
)> {
    engine
        .peers()
        .iter()
        .map(|p| {
            (
                p.peer.clone(),
                p.ledger.connection_count(),
                p.ledger.wanted_entries().iter().map(|e| (e.cid.clone(), e.ts)).collect(),
                p.ledger
                    .wanted_entries_before_disconnect()
                    .map(|v| v.iter().map(|e| e.cid.clone()).collect()),
                p.ledger.connected_ts(),
            )
        })
        .collect()
}

#[test]
fn ledgers_stay_sorted_and_counts_stay_non_negative() {
    let mut engine = EngineSimulation::new(config()).unwrap();
    for (i, message) in script().iter().enumerate() {
        engine.ingest(message, i as i64 + 1).unwrap();
        let peers = engine.peers();
        for pair in peers.windows(2) {
            assert!(pair[0].peer < pair[1].peer);
        }
        for peer in peers {
            assert!(peer.ledger.connection_count() >= 0);
            for pair in peer.ledger.wanted_entries().windows(2) {
                assert!(pair[0].cid < pair[1].cid);
            }
        }
    }
}

#[test]
fn script_ends_in_the_expected_state() {
    let (engine, _) = run(config());
    let ledgers = state(&engine);
    assert_eq!(ledgers.len(), 2);
    assert_eq!(ledgers[0].0, "anna");
    assert_eq!(ledgers[0].1, 1);
    assert_eq!(
        ledgers[0].2,
        vec![("d".to_string(), ts(300)), ("e".to_string(), ts(300)), ("q".to_string(), ts(31))]
    );
    assert_eq!(ledgers[0].4, Some(ts(30)));
    assert_eq!(ledgers[1].0, "bert");
    assert_eq!(ledgers[1].1, 1);
    assert_eq!(ledgers[1].2, vec![("y".to_string(), ts(200))]);
    assert_eq!(ledgers[1].3, Some(vec!["x".to_string()]));
    assert_eq!(ledgers[1].4, Some(ts(200)));
}

#[test]
fn full_wantlist_leaves_exactly_its_wants() {
    let mut engine = EngineSimulation::new(config()).unwrap();
    engine.ingest(&wants("p", 0, Some(false), &["a", "b", "c"]), 1).unwrap();
    engine.ingest(&wants("p", 1, Some(true), &["c", "d", "c"]), 2).unwrap();
    let wanted: Vec<(String, Timestamp)> = engine
        .ledger("p")
        .unwrap()
        .wanted_entries()
        .iter()
        .map(|e| (e.cid.clone(), e.ts))
        .collect();
    assert_eq!(wanted, vec![("c".to_string(), ts(1)), ("d".to_string(), ts(1))]);
    engine.ingest(&wants("p", 2, Some(true), &[]), 3).unwrap();
    assert!(engine.ledger("p").unwrap().wanted_entries().is_empty());
}

#[test]
fn marks_switch_independently() {
    let (engine_on, on) = run(config());
    let switches: [(u32, fn(&mut EngineSimulationConfig)); 3] = [
        (
            CSV_DUPLICATE_STATUS_DUP_FULL_WANTLIST,
            |c| c.insert_full_wantlist_duplicate_markers = false,
        ),
        (CSV_DUPLICATE_STATUS_DUP_RECONNECT, |c| c.insert_reconnect_duplicate_markers = false),
        (
            CSV_DUPLICATE_STATUS_DUP_SLIDING_WINDOW,
            |c| c.insert_sliding_window_duplicate_markers = false,
        ),
    ];
    let mut seen_bits = 0;
    for (bit, switch) in switches {
        let mut cfg = config();
        switch(&mut cfg);
        let (engine_off, off) = run(cfg);
        assert_eq!(state(&engine_off), state(&engine_on));
        assert_eq!(on.len(), off.len());
        for (a, b) in on.iter().zip(off.iter()) {
            assert_eq!(a.missing_ledger, b.missing_ledger);
            assert_eq!(
                a.connection_event.as_ref().map(event_key),
                b.connection_event.as_ref().map(event_key),
            );
            assert_eq!(a.wantlist_entries.is_some(), b.wantlist_entries.is_some());
            if let (Some(rows_on), Some(rows_off)) = (&a.wantlist_entries, &b.wantlist_entries) {
                assert_eq!(rows_on.len(), rows_off.len());
                for (x, y) in rows_on.iter().zip(rows_off.iter()) {
                    let mut masked = x.clone();
                    seen_bits |= masked.duplicate_status & bit;
                    masked.duplicate_status &= !bit;
                    if bit == CSV_DUPLICATE_STATUS_DUP_SLIDING_WINDOW {
                        masked.sliding_window_smallest_match = 0;
                    }
                    assert_eq!(row_key(&masked), row_key(y));
                }
            }
        }
    }
    // The script exercises every detector.
    assert_eq!(seen_bits, 7);
}

#[test]
fn window_bit_is_set_exactly_with_a_window() {
    let (engine, results) = run(config());
    let mut marked = 0;
    let flush = engine.generate_end_of_simulation_entries(ts(400), 100).unwrap();
    let written = results.iter().filter_map(|r| r.wantlist_entries.as_ref());
    for rows in written.chain(std::iter::once(&flush)) {
        for row in rows {
            let bit = row.duplicate_status & CSV_DUPLICATE_STATUS_DUP_SLIDING_WINDOW != 0;
            assert_eq!(row.sliding_window_smallest_match > 0, bit);
            if bit {
                marked += 1;
                let window = row.sliding_window_smallest_match;
                assert!(window == 10 || window == 100);
            }
        }
    }
    assert!(marked > 0);
}

#[test]
fn rows_carry_the_id_of_their_message() {
    let (_, results) = run(config());
    for (i, result) in results.iter().enumerate() {
        if let Some(rows) = &result.wantlist_entries {
            for row in rows {
                assert_eq!(row.message_id, i as i64 + 1);
            }
        }
        if let Some(event) = &result.connection_event {
            assert_eq!(event.message_id, i as i64 + 1);
        }
    }
}

#[test]
fn same_full_wantlist_twice_marks_everything() {
    let mut cfg = config();
    cfg.sliding_window_lengths = vec![];
    let mut engine = EngineSimulation::new(cfg).unwrap();
    engine.ingest(&wants("p", 0, Some(true), &["a", "b"]), 1).unwrap();
    let rows = engine.ingest(
        &wants("p", 1, Some(true), &["a", "b"]),
        2,
    ).unwrap().wantlist_entries.unwrap();
    assert_eq!(rows.len(), 2);
    for row in &rows {
        assert_eq!(row.duplicate_status, CSV_DUPLICATE_STATUS_DUP_FULL_WANTLIST);
        assert_eq!(row.message_type, CSV_MESSAGE_TYPE_FULL);
    }

    engine.ingest(&wants("q", 2, Some(true), &[]), 3).unwrap();
    let rows = engine.ingest(&wants("q", 3, Some(true), &[]), 4).unwrap().wantlist_entries.unwrap();
    assert!(rows.is_empty());
}

#[test]
fn no_window_no_window_duplicates() {
    let mut cfg = config();
    cfg.sliding_window_lengths = vec![];
    let (_, results) = run(cfg);
    for rows in results.iter().filter_map(|r| r.wantlist_entries.as_ref()) {
        for row in rows {
            assert_eq!(row.duplicate_status & CSV_DUPLICATE_STATUS_DUP_SLIDING_WINDOW, 0);
            assert_eq!(row.sliding_window_smallest_match, 0);
        }
    }
}

#[test]
fn disconnect_without_wants_sets_nothing_aside() {
    let mut engine = EngineSimulation::new(config()).unwrap();
    engine.ingest(&event("p", 0, true, false), 1).unwrap();
    let result = engine.ingest(&event("p", 1, false, true), 2).unwrap();
    assert!(result.wantlist_entries.is_none());
    let ledger = engine.ledger("p").unwrap();
    assert_eq!(ledger.connection_count(), 0);
    assert!(ledger.wanted_entries_before_disconnect().is_none());

    // What an earlier disconnect set aside stays as it is.
    engine.ingest(&event("q", 2, true, false), 3).unwrap();
    engine.ingest(&wants("q", 3, Some(true), &["a"]), 4).unwrap();
    engine.ingest(&event("q", 4, false, true), 5).unwrap();
    engine.ingest(&event("q", 5, true, true), 6).unwrap();
    engine.ingest(&event("q", 6, false, true), 7).unwrap();
    let aside = engine.ledger("q").unwrap().wanted_entries_before_disconnect().unwrap();
    assert_eq!(aside.len(), 1);
    assert_eq!(aside[0].cid, "a");
}

#[test]
fn disconnect_of_one_of_two_connections_keeps_the_wants() {
    let mut engine = EngineSimulation::new(config()).unwrap();
    engine.ingest(&event("p", 0, true, false), 1).unwrap();
    engine.ingest(&event("p", 1, true, true), 2).unwrap();
    engine.ingest(&wants("p", 2, Some(true), &["a"]), 3).unwrap();
    let result = engine.ingest(&event("p", 3, false, true), 4).unwrap();
    assert!(result.wantlist_entries.is_none());
    let ledger = engine.ledger("p").unwrap();
    assert_eq!(ledger.connection_count(), 1);
    assert_eq!(ledger.wanted_entries().len(), 1);
    assert!(ledger.wanted_entries_before_disconnect().is_none());
    assert_eq!(ledger.connected_ts(), Some(ts(0)));
}

#[test]
fn no_reconnect_duplicates_after_the_window() {
    let mut engine = EngineSimulation::new(config()).unwrap();
    engine.ingest(&event("p", 0, true, false), 1).unwrap();
    engine.ingest(&wants("p", 1, Some(true), &["a", "b"]), 2).unwrap();
    engine.ingest(&event("p", 2, false, true), 3).unwrap();
    engine.ingest(&event("p", 1000, true, true), 4).unwrap();
    // The window of 50 s ends at 1050 s: a message at that very time is late.
    let rows = engine.ingest(
        &wants("p", 1050, Some(true), &["a", "b"]),
        5,
    ).unwrap().wantlist_entries.unwrap();
    for row in &rows {
        assert_eq!(row.duplicate_status & CSV_DUPLICATE_STATUS_DUP_RECONNECT, 0);
    }
    assert!(engine.ledger("p").unwrap().wanted_entries_before_disconnect().is_none());
}

#[test]
fn reconnect_duplicates_just_within_the_window() {
    let mut cfg = config();
    cfg.sliding_window_lengths = vec![];
    let mut engine = EngineSimulation::new(cfg).unwrap();
    engine.ingest(&event("p", 0, true, false), 1).unwrap();
    engine.ingest(&wants("p", 1, Some(true), &["a", "b"]), 2).unwrap();
    engine.ingest(&event("p", 2, false, true), 3).unwrap();
    engine.ingest(&event("p", 1000, true, true), 4).unwrap();
    let mut late = wants("p", 1049, Some(false), &["b"]);
    late.timestamp = Timestamp::new(BASE + 1049, 999_999_999);
    let rows = engine.ingest(&late, 5).unwrap().wantlist_entries.unwrap();
    assert_eq!(rows[0].duplicate_status, CSV_DUPLICATE_STATUS_DUP_RECONNECT);
    let aside = engine.ledger("p").unwrap().wanted_entries_before_disconnect().unwrap();
    assert_eq!(aside.len(), 1);
    assert_eq!(aside[0].cid, "a");
    // The other entry is still a duplicate a moment later, and then nothing is left aside.
    let rows = engine.ingest(
        &wants("p", 1049, Some(false), &["a"]),
        6,
    ).unwrap().wantlist_entries.unwrap();
    assert_eq!(rows[0].duplicate_status, CSV_DUPLICATE_STATUS_DUP_RECONNECT);
    assert!(engine.ledger("p").unwrap().wanted_entries_before_disconnect().unwrap().is_empty());
}

#[test]
fn wantlist_without_connection_counts_as_reconnect() {
    let mut engine = EngineSimulation::new(config()).unwrap();
    engine.ingest(&wants("p", 0, Some(true), &["a"]), 1).unwrap();
    engine.ingest(&event("p", 1, false, true), 2).unwrap();
    assert_eq!(engine.ledger("p").unwrap().connection_count(), 0);
    let result = engine.ingest(&wants("p", 500, Some(false), &["a"]), 3).unwrap();
    assert!(!result.missing_ledger);
    let ledger = engine.ledger("p").unwrap();
    assert_eq!(ledger.connection_count(), 1);
    assert_eq!(ledger.connected_ts(), Some(ts(500)));
    assert_eq!(
        result.wantlist_entries.unwrap()[0].duplicate_status,
        CSV_DUPLICATE_STATUS_DUP_RECONNECT,
    );
}

#[test]
fn connect_of_an_unknown_peer_with_connections_sets_the_wants_aside() {
    let mut engine = EngineSimulation::new(config()).unwrap();
    engine.ingest(&event("p", 0, true, false), 1).unwrap();
    engine.ingest(&wants("p", 1, Some(true), &["a"]), 2).unwrap();
    let result = engine.ingest(&event("p", 2, true, false), 3).unwrap();
    assert!(!result.missing_ledger);
    assert!(result.wantlist_entries.is_none());
    assert_eq!(
        result.connection_event.unwrap().event_type,
        CSV_CONNECTION_EVENT_CONNECTED_NOT_FOUND,
    );
    let ledger = engine.ledger("p").unwrap();
    assert_eq!(ledger.connection_count(), 2);
    assert!(ledger.wanted_entries().is_empty());
    assert_eq!(ledger.wanted_entries_before_disconnect().unwrap().len(), 1);
    assert_eq!(ledger.connected_ts(), Some(ts(0)));
}

#[test]
fn connection_rows_name_what_happened() {
    let mut engine = EngineSimulation::new(config()).unwrap();
    let types: Vec<i32> = [
        event("p", 0, true, true),
        event("p", 1, true, false),
        event("p", 2, false, true),
        event("p", 3, false, false),
    ]
    .iter()
    .enumerate()
    .map(|(i, m)| engine.ingest(m, i as i64).unwrap().connection_event.unwrap().event_type)
    .collect();
    assert_eq!(
        types,
        vec![
            CSV_CONNECTION_EVENT_CONNECTED_FOUND,
            CSV_CONNECTION_EVENT_CONNECTED_NOT_FOUND,
            CSV_CONNECTION_EVENT_DISCONNECTED_FOUND,
            CSV_CONNECTION_EVENT_DISCONNECTED_NOT_FOUND
        ]
    );
    let row = engine.ingest(&event("p", 9, true, true), 77).unwrap().connection_event.unwrap();
    assert_eq!(
        event_key(&row),
        (
            77,
            BASE + 9,
            0,
            "p".to_string(),
            "/ip4/127.0.0.1/tcp/1".to_string(),
            CSV_CONNECTION_EVENT_CONNECTED_FOUND,
        )
    );
}

#[test]
fn disconnect_cancels_follow_the_option() {
    let mut cfg = config();
    cfg.insert_disconnect_synth_cancels = false;
    let mut engine = EngineSimulation::new(cfg).unwrap();
    engine.ingest(&wants("p", 0, Some(true), &["a"]), 1).unwrap();
    let result = engine.ingest(&event("p", 1, false, true), 2).unwrap();
    assert!(result.wantlist_entries.is_none());
    assert_eq!(engine.ledger("p").unwrap().wanted_entries_before_disconnect().unwrap().len(), 1);
}

#[test]
fn full_wantlist_cancels_follow_the_option() {
    let mut cfg = config();
    cfg.insert_full_wantlist_synth_cancels = false;
    let mut engine = EngineSimulation::new(cfg).unwrap();
    engine.ingest(&wants("p", 0, Some(true), &["a", "b"]), 1).unwrap();
    let rows = engine.ingest(
        &wants("p", 1000, Some(true), &["b"]),
        2,
    ).unwrap().wantlist_entries.unwrap();
    assert_eq!(rows.len(), 1);
    assert_eq!(rows[0].duplicate_status, CSV_DUPLICATE_STATUS_DUP_FULL_WANTLIST);
}

#[test]
fn empty_messages_follow_the_option() {
    let mut nothing = event("p", 0, true, true);
    nothing.peer_connected = None;
    nothing.peer_disconnected = None;
    nothing.connect_event_peer_found = None;

    let mut engine = EngineSimulation::new(config()).unwrap();
    let error = engine.ingest(&nothing, 1).err().unwrap();
    assert_eq!(error, EngineError::EmptyMessage);
    assert_eq!(error.kind(), ErrorKind::ParseError);

    let mut cfg = config();
    cfg.allow_empty_connection_event = true;
    let mut engine = EngineSimulation::new(cfg).unwrap();
    let result = engine.ingest(&nothing, 1).unwrap();
    assert!(!result.missing_ledger);
    assert!(result.wantlist_entries.is_none());
    assert!(result.connection_event.is_none());
    assert_eq!(engine.num_ledgers(), 0);
}

#[test]
fn malformed_connection_events_are_refused() {
    let mut engine = EngineSimulation::new(config()).unwrap();
    let mut no_found = event("p", 0, true, true);
    no_found.connect_event_peer_found = None;
    assert_eq!(engine.ingest(&no_found, 1).err(), Some(EngineError::MissingPeerFound));
    let mut both = event("p", 0, true, true);
    both.peer_disconnected = Some(true);
    assert_eq!(engine.ingest(&both, 1).err(), Some(EngineError::AmbiguousConnectionChange));
    assert_eq!(engine.num_ledgers(), 0);

    // One flag is enough where it is set.
    let mut only_connected = event("p", 0, true, true);
    only_connected.peer_disconnected = None;
    let row = engine.ingest(&only_connected, 1).unwrap().connection_event.unwrap();
    assert_eq!(row.event_type, CSV_CONNECTION_EVENT_CONNECTED_FOUND);
}

#[test]
fn rows_of_a_connection_event_need_all_flags() {
    let good = event("p", 3, false, true);
    let row = CSVConnectionEvent::from_json_message(good, 5).unwrap();
    assert_eq!(
        event_key(&row),
        (
            5,
            BASE + 3,
            0,
            "p".to_string(),
            "/ip4/127.0.0.1/tcp/1".to_string(),
            CSV_CONNECTION_EVENT_DISCONNECTED_FOUND,
        )
    );

    let mut m = event("p", 0, true, true);
    m.connect_event_peer_found = None;
    m.peer_connected = None;
    assert_eq!(
        CSVConnectionEvent::from_json_message(m, 1).err(),
        Some(EngineError::MissingPeerFound),
    );
    let mut m = event("p", 0, true, true);
    m.peer_disconnected = None;
    m.peer_connected = None;
    assert_eq!(
        CSVConnectionEvent::from_json_message(m, 1).err(),
        Some(EngineError::MissingPeerDisconnected),
    );
    let mut m = event("p", 0, true, true);
    m.peer_connected = None;
    assert_eq!(
        CSVConnectionEvent::from_json_message(m, 1).err(),
        Some(EngineError::MissingPeerConnected),
    );
    let mut m = event("p", 0, true, true);
    m.peer_connected = Some(false);
    assert_eq!(
        CSVConnectionEvent::from_json_message(m, 1).err(),
        Some(EngineError::NoConnectionChange),
    );
    let mut m = event("p", 0, true, true);
    m.peer_disconnected = Some(true);
    assert_eq!(
        CSVConnectionEvent::from_json_message(m, 1).err(),
        Some(EngineError::AmbiguousConnectionChange),
    );
}

#[test]
fn rows_of_a_wantlist_message() {
    let mut message = wants("p", 7, Some(true), &["a"]);
    message.timestamp = Timestamp::new(BASE + 7, 123_456_789);
    message.address = Some("/dns4/example.org".to_string());
    let mut entries = message.received_entries.take().unwrap();
    entries.push(entry("gone", true));
    let mut sdh = entry("b", false);
    sdh.send_dont_have = true;
    sdh.priority = -4;
    entries.push(sdh);
    let mut have = entry("c", false);
    have.want_type = 1;
    entries.push(have);
    message.received_entries = Some(entries);

    let rows = CSVWantlistEntry::from_json_message(message.clone(), 9).unwrap();
    let seen: Vec<(
        String,
        i32,
        i32,
    )> = rows.iter().map(|r| (r.cid.clone(), r.entry_type, r.priority)).collect();
    assert_eq!(
        seen,
        vec![
            ("a".to_string(), CSV_ENTRY_TYPE_WANT_BLOCK, 1),
            ("gone".to_string(), CSV_ENTRY_TYPE_CANCEL, 1),
            ("b".to_string(), CSV_ENTRY_TYPE_WANT_BLOCK_SEND_DONT_HAVE, -4),
            ("c".to_string(), CSV_ENTRY_TYPE_WANT_HAVE, 1),
        ]
    );
    for row in &rows {
        assert_eq!(row.message_id, 9);
        assert_eq!(row.message_type, CSV_MESSAGE_TYPE_FULL);
        assert_eq!(row.timestamp_seconds, BASE + 7);
        assert_eq!(row.timestamp_subsec_milliseconds, 123);
        assert_eq!(row.peer_id, "p");
        assert_eq!(row.address, "/dns4/example.org");
        assert_eq!(row.duplicate_status, 0);
        assert_eq!(row.sliding_window_smallest_match, 0);
    }

    message.full_want_list = None;
    assert_eq!(
        CSVWantlistEntry::from_json_message(message.clone(), 9).unwrap()[0].message_type,
        CSV_MESSAGE_TYPE_INCREMENTAL
    );
    // A cancel of an unknown want type is a cancel; a want of one is refused.
    let mut odd = entry("x", true);
    odd.want_type = 5;
    message.received_entries = Some(vec![odd.clone()]);
    assert_eq!(
        CSVWantlistEntry::from_json_message(message.clone(), 9).unwrap()[0].entry_type,
        CSV_ENTRY_TYPE_CANCEL,
    );
    odd.cancel = false;
    message.received_entries = Some(vec![entry("a", false), odd]);
    assert_eq!(
        CSVWantlistEntry::from_json_message(message.clone(), 9).err(),
        Some(EngineError::UnknownWantType)
    );
    message.received_entries = None;
    assert_eq!(
        CSVWantlistEntry::from_json_message(message, 9).err(),
        Some(EngineError::MissingEntries),
    );
}

#[test]
fn rows_of_ledger_entries() {
    let message = event("p", 3, true, true);
    let entries = vec![
        WantlistEntry { cid: "a".to_string(), ts: ts(0) },
        WantlistEntry { cid: "b".to_string(), ts: ts(1) },
    ];
    let rows = CSVWantlistEntry::from_wantlist_entries(entries, &message, 4, 3, 6, 2, 60);
    let keys: Vec<_> = rows.iter().map(row_key).collect();
    let expected = |cid: &str| {
        (
            4,
            CSV_MESSAGE_TYPE_SYNTHETIC,
            BASE + 3,
            0,
            "p".to_string(),
            "/ip4/127.0.0.1/tcp/1".to_string(),
            0,
            6,
            cid.to_string(),
            2,
            60,
        )
    };
    assert_eq!(keys, vec![expected("a"), expected("b")]);
}

#[test]
fn a_cancel_is_marked_like_the_wants_of_its_identifier() {
    let mut engine = EngineSimulation::new(config()).unwrap();
    engine.ingest(&wants("p", 0, Some(false), &["a"]), 1).unwrap();
    // The message cancels an identifier that it also asks for.
    let mut message = wants("p", 5, Some(false), &["a"]);
    message.received_entries.as_mut().unwrap().insert(0, entry("a", true));
    let rows = engine.ingest(&message, 2).unwrap().wantlist_entries.unwrap();
    assert_eq!(rows[0].entry_type, CSV_ENTRY_TYPE_CANCEL);
    assert_eq!(rows[0].duplicate_status, CSV_DUPLICATE_STATUS_DUP_SLIDING_WINDOW);
    assert_eq!(rows[0].sliding_window_smallest_match, 10);
    assert_eq!(rows[1].duplicate_status, CSV_DUPLICATE_STATUS_DUP_SLIDING_WINDOW);
    // A cancel alone is no duplicate.
    let rows = engine.ingest(&cancels("p", 6, &["a"]), 3).unwrap().wantlist_entries.unwrap();
    assert_eq!(rows[0].duplicate_status, 0);
}

#[test]
fn default_options_switch_everything_off() {
    let cfg = EngineSimulationConfig::default();
    assert!(!cfg.allow_empty_full_wantlist && !cfg.allow_empty_connection_event);
    assert!(!cfg.insert_full_wantlist_synth_cancels && !cfg.insert_disconnect_synth_cancels);
    assert!(!cfg.insert_full_wantlist_duplicate_markers && !cfg.insert_reconnect_duplicate_markers);
    assert!(!cfg.insert_sliding_window_duplicate_markers);
    assert_eq!(cfg.reconnect_duplicate_duration_secs, 0);
    assert!(cfg.sliding_window_lengths.is_empty());
    let result = IngestResult::default();
    assert!(!result.missing_ledger);
    assert!(result.wantlist_entries.is_none() && result.connection_event.is_none());
}

#[test]
fn rows_are_written_in_the_order_of_their_columns() {
    let row = CSVWantlistEntry {
        message_id: 12,
        message_type: 2,
        timestamp_seconds: -3,
        timestamp_subsec_milliseconds: 7,
        peer_id: "Qm,Peer".to_string(),
        address: "".to_string(),
        priority: -1,
        entry_type: 4,
        cid: "bafy".to_string(),
        duplicate_status: 5,
        sliding_window_smallest_match: 300,
    };
    assert_eq!(
        row.to_record(),
        vec!["12", "2", "-3", "7", "Qm,Peer", "", "-1", "4", "bafy", "5", "300"]
    );
    let event = CSVConnectionEvent {
        message_id: i64::MAX,
        timestamp_seconds: i64::MIN,
        timestamp_subsec_millis: 999,
        peer_id: "p".to_string(),
        address: "/ip4/1.1.1.1".to_string(),
        event_type: 3,
    };
    assert_eq!(
        event.to_record(),
        vec!["9223372036854775807", "-9223372036854775808", "999", "p", "/ip4/1.1.1.1", "3"]
    );
}

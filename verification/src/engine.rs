//! The engine simulation: one ledger for every peer that was seen, updated
//! message by message.

use vstd::prelude::*;
use crate::detectors::{
    get_duplicate_entries_from_sliding_windows,
    lemma_window_matches,
    listed,
    listed_window,
    mark_rows,
    sliding_window_duplicates,
};
use crate::error::EngineError;
use crate::ledger::{
    entries_view,
    get_duplicate_entries_and_synth_cancels_from_full_wantlist,
    split_wants_cancels,
    Ledger,
    LedgerView,
};
use crate::model::{
    after_connection_event,
    after_wantlist,
    connection_error,
    connection_outcome,
    connection_row,
    flush_rows,
    full_wantlist_dup,
    ingest_error,
    ingest_outcome,
    after_ingest,
    ledger_after_update,
    ledger_after_wantlist,
    ledger_flush_rows,
    ledger_for_connect,
    ledger_for_disconnect,
    ledger_for_wantlist,
    marked_entry_rows,
    reconnect_dup,
    sliding_window_dup,
    total_wanted,
    want_cids,
    wantlist_error,
    wantlist_outcome,
    wantlist_rows,
    windows_ascend,
    ConfigView,
    EngineView,
    IngestView,
};
use crate::sorted::{
    key_set,
    lemma_rank_bounds,
    lemma_restricted_has_key,
    lemma_selection_sorted,
    lemma_upsert_sorted,
    lemma_upsert_values,
    lookup,
    pairs,
    search,
    upsert,
    Keyed,
    Text,
};
use crate::timestamp::Timestamp;
use crate::wantlist::{
    address_of,
    entry_rows,
    message_entries_view,
    rows_view,
    CSVConnectionEvent,
    CSVWantlistEntry,
    JSONMessage,
    JSONWantlistEntry,
    CSV_CONNECTION_EVENT_CONNECTED_FOUND,
    CSV_CONNECTION_EVENT_CONNECTED_NOT_FOUND,
    CSV_CONNECTION_EVENT_DISCONNECTED_FOUND,
    CSV_CONNECTION_EVENT_DISCONNECTED_NOT_FOUND,
    CSV_DUPLICATE_STATUS_NO_DUP,
    CSV_ENTRY_TYPE_SYNTHETIC_CANCEL_DISCONNECT,
    CSV_ENTRY_TYPE_SYNTHETIC_CANCEL_FULL_WANTLIST,
    CSV_MESSAGE_TYPE_SYNTHETIC,
};

verus! {

/// The options of the engine.
#[derive(Clone, Debug)]
pub struct EngineSimulationConfig {
    /// Take a wantlist message that does not say whether it is full as an
    /// incremental one, rather than to refuse it.
    pub allow_empty_full_wantlist: bool,
    /// Let a message pass that has neither wantlist entries nor reports a
    /// connection event, rather than to refuse it.
    pub allow_empty_connection_event: bool,
    /// Write synthetic cancels for what a full wantlist no longer asks for.
    pub insert_full_wantlist_synth_cancels: bool,
    /// Write synthetic cancels for what a disconnect sets aside.
    pub insert_disconnect_synth_cancels: bool,
    /// Mark full wantlist duplicates.
    pub insert_full_wantlist_duplicate_markers: bool,
    /// Mark reconnect duplicates.
    pub insert_reconnect_duplicate_markers: bool,
    /// For how long after a reconnect wants from before the disconnect count
    /// as duplicates.
    pub reconnect_duplicate_duration_secs: u32,
    /// Mark sliding window duplicates.
    pub insert_sliding_window_duplicate_markers: bool,
    /// The lengths of the sliding windows, in seconds.
    pub sliding_window_lengths: Vec<u32>,
}

impl View for EngineSimulationConfig {
    type V = ConfigView;

    open spec fn view(&self) -> ConfigView {
        ConfigView {
            allow_empty_full_wantlist: self.allow_empty_full_wantlist,
            allow_empty_connection_event: self.allow_empty_connection_event,
            insert_full_wantlist_synth_cancels: self.insert_full_wantlist_synth_cancels,
            insert_disconnect_synth_cancels: self.insert_disconnect_synth_cancels,
            insert_full_wantlist_duplicate_markers: self.insert_full_wantlist_duplicate_markers,
            insert_reconnect_duplicate_markers: self.insert_reconnect_duplicate_markers,
            reconnect_duplicate_duration_secs: self.reconnect_duplicate_duration_secs,
            insert_sliding_window_duplicate_markers: self.insert_sliding_window_duplicate_markers,
            sliding_window_lengths: self.sliding_window_lengths@,
        }
    }
}

/// The options under which nothing is allowed, nothing is inserted, and
/// there is no window.
pub open spec fn default_options() -> ConfigView {
    ConfigView {
        allow_empty_full_wantlist: false,
        allow_empty_connection_event: false,
        insert_full_wantlist_synth_cancels: false,
        insert_disconnect_synth_cancels: false,
        insert_full_wantlist_duplicate_markers: false,
        insert_reconnect_duplicate_markers: false,
        reconnect_duplicate_duration_secs: 0,
        insert_sliding_window_duplicate_markers: false,
        sliding_window_lengths: Seq::empty(),
    }
}

impl Default for EngineSimulationConfig {
    /// Nothing is allowed, nothing is inserted, and there is no window.
    fn default() -> (r: EngineSimulationConfig)
        ensures
            r@ == default_options(),
    {
        EngineSimulationConfig {
            allow_empty_full_wantlist: false,
            allow_empty_connection_event: false,
            insert_full_wantlist_synth_cancels: false,
            insert_disconnect_synth_cancels: false,
            insert_full_wantlist_duplicate_markers: false,
            insert_reconnect_duplicate_markers: false,
            reconnect_duplicate_duration_secs: 0,
            insert_sliding_window_duplicate_markers: false,
            sliding_window_lengths: Vec::new(),
        }
    }
}

/// `other` is `cfg` with its windows in ascending order.
pub open spec fn with_sorted_windows(cfg: ConfigView, other: ConfigView) -> bool {
    &&& other.allow_empty_full_wantlist == cfg.allow_empty_full_wantlist
    &&& other.allow_empty_connection_event == cfg.allow_empty_connection_event
    &&& other.insert_full_wantlist_synth_cancels == cfg.insert_full_wantlist_synth_cancels
    &&& other.insert_disconnect_synth_cancels == cfg.insert_disconnect_synth_cancels
    &&& other.insert_full_wantlist_duplicate_markers == cfg.insert_full_wantlist_duplicate_markers
    &&& other.insert_reconnect_duplicate_markers == cfg.insert_reconnect_duplicate_markers
    &&& other.reconnect_duplicate_duration_secs == cfg.reconnect_duplicate_duration_secs
    &&& other.insert_sliding_window_duplicate_markers
        == cfg.insert_sliding_window_duplicate_markers
    &&& windows_ascend(other.sliding_window_lengths)
    &&& other.sliding_window_lengths.to_multiset() == cfg.sliding_window_lengths.to_multiset()
}

/// The window lengths in ascending order.
pub fn sorted_windows(windows: &Vec<u32>) -> (r: Vec<u32>)
    ensures
        windows_ascend(r@),
        r@.to_multiset() == windows@.to_multiset(),
{
    broadcast use vstd::seq_lib::group_to_multiset_ensures;

    let mut out: Vec<u32> = Vec::new();
    let mut i: usize = 0;
    assert(windows@.take(0) =~= Seq::<u32>::empty());
    while i < windows.len()
        invariant
            i <= windows.len(),
            windows_ascend(out@),
            out@.to_multiset() == windows@.take(i as int).to_multiset(),
        decreases windows.len() - i,
    {
        let x = windows[i];
        let mut at: usize = 0;
        while at < out.len() && out[at] <= x
            invariant
                at <= out.len(),
                forall|j: int| 0 <= j < at ==> out@[j] <= x,
            decreases out.len() - at,
        {
            at += 1;
        }
        let ghost before = out@;
        out.insert(at, x);
        proof {
            let after = out@;
            assert(after == before.insert(at as int, x));
            assert forall|a: int, b: int| 0 <= a <= b < after.len() implies after[a]
                <= after[b] by {
                let pa = if a < at {
                    a
                } else {
                    a - 1
                };
                let pb = if b < at {
                    b
                } else {
                    b - 1
                };
                if a != at && b != at {
                    assert(after[a] == before[pa] && after[b] == before[pb]);
                } else if a == at && b != at {
                    assert(after[b] == before[pb]);
                    assert(before[at as int] <= before[pb]);
                } else if b == at && a != at {
                    assert(after[a] == before[pa]);
                }
            }
            assert(after.remove(at as int) =~= before);
            assert(after[at as int] == x);
            vstd::seq_lib::to_multiset_remove(after, at as int);
            assert(before.to_multiset() =~= after.to_multiset().remove(x));
            assert(after.contains(x));
            after.to_multiset_ensures();
            assert(after.to_multiset().count(x) > 0);
            assert(after.to_multiset() =~= before.to_multiset().insert(x));
            assert(windows@.take(i + 1) =~= windows@.take(i as int).push(x));
            vstd::seq_lib::to_multiset_build(windows@.take(i as int), x);
        }
        i += 1;
    }
    assert(windows@.take(windows.len() as int) =~= windows@);
    out
}

/// A peer and its ledger.
#[derive(Clone, Debug)]
pub struct PeerLedger {
    pub peer: String,
    pub ledger: Ledger,
}

impl Keyed for PeerLedger {
    type Value = LedgerView;

    open spec fn pair(&self) -> (Text, LedgerView) {
        (self.peer@, self.ledger@)
    }

    fn key(&self) -> (k: &String) {
        &self.peer
    }
}

/// What the engine made of one message.
#[derive(Clone, Debug)]
pub struct IngestResult {
    /// The message was the first sign of its peer, although it was not a
    /// connect.
    pub missing_ledger: bool,
    /// The rows for the wantlist output.
    pub wantlist_entries: Option<Vec<CSVWantlistEntry>>,
    /// The row for the connection event output.
    pub connection_event: Option<CSVConnectionEvent>,
}

impl View for IngestResult {
    type V = IngestView;

    open spec fn view(&self) -> IngestView {
        IngestView {
            missing_ledger: self.missing_ledger,
            wantlist_entries: match self.wantlist_entries {
                Some(v) => Some(rows_view(v@)),
                None => None,
            },
            connection_event: match self.connection_event {
                Some(e) => Some(e@),
                None => None,
            },
        }
    }
}

impl Default for IngestResult {
    /// The outcome of a message that changes and reports nothing.
    fn default() -> (r: IngestResult)
        ensures
            r@ == (IngestView {
                missing_ledger: false,
                wantlist_entries: None,
                connection_event: None,
            }),
    {
        IngestResult { missing_ledger: false, wantlist_entries: None, connection_event: None }
    }
}

/// The simulation of the engine that answers the peers: it keeps, for every
/// peer, what the peer wants, as far as the monitored messages show it.
#[derive(Clone, Debug)]
pub struct EngineSimulation {
    peers: Vec<PeerLedger>,
    cfg: EngineSimulationConfig,
}

impl View for EngineSimulation {
    type V = EngineView;

    closed spec fn view(&self) -> EngineView {
        EngineView { peers: pairs(self.peers@), cfg: self.cfg@ }
    }
}

impl Default for EngineSimulation {
    /// An engine without ledgers, under the options that switch everything
    /// off.
    fn default() -> (r: EngineSimulation)
        ensures
            r.wf(),
            r@.peers.len() == 0,
            r@.cfg == default_options(),
    {
        EngineSimulation { peers: Vec::new(), cfg: EngineSimulationConfig::default() }
    }
}

/// The marks that the lists of the three detectors give are the marks that
/// the model names.
proof fn lemma_marks(cfg: ConfigView, l: LedgerView, m: crate::wantlist::MessageView, cid: Text)
    requires
        l.wf(),
        m.received_entries is Some,
    ensures
        listed(
            if cfg.insert_full_wantlist_duplicate_markers && crate::model::is_full(m) {
                crate::ledger::full_wantlist_duplicates(
                    l.wanted_entries,
                    ledger_after_update(l, m).wanted_entries,
                )
            } else {
                None
            },
            cid,
        ) == full_wantlist_dup(cfg, l, m, cid),
        listed(
            if cfg.insert_reconnect_duplicate_markers {
                ledger_after_update(l, m).reconnect_duplicates(
                    m.timestamp,
                    cfg.reconnect_duplicate_duration_secs,
                )
            } else {
                None
            },
            cid,
        ) == reconnect_dup(cfg, l, m, cid),
        listed_window(
            if cfg.insert_sliding_window_duplicate_markers {
                sliding_window_duplicates(
                    l.wanted_entries,
                    cfg.sliding_window_lengths,
                    m.timestamp,
                    want_cids(m).to_set(),
                )
            } else {
                None
            },
            cid,
        ) == sliding_window_dup(cfg, l, m, cid),
{
    let u = ledger_after_update(l, m);
    lemma_restricted_has_key(l.wanted_entries, key_set(u.wanted_entries), cid);
    if u.wanted_entries_before_disconnect is Some {
        lemma_restricted_has_key(
            u.wanted_entries_before_disconnect->0,
            key_set(u.wanted_entries),
            cid,
        );
    }
    if cfg.sliding_window_lengths.len() > 0 {
        lemma_window_matches(
            l.wanted_entries,
            cfg.sliding_window_lengths,
            m.timestamp,
            want_cids(m).to_set(),
            cid,
        );
        let matches = crate::detectors::window_matches(
            l.wanted_entries,
            cfg.sliding_window_lengths,
            m.timestamp,
            want_cids(m).to_set(),
        );
        if matches.len() == 0 {
            lemma_rank_bounds(matches, cid);
        }
    }
}

/// Applies a wantlist message to the ledger of its peer, and completes the
/// rows of its entries: the rows are marked as duplicates, and the synthetic
/// cancels of a full wantlist follow them.
fn apply_wantlist(
    cfg: &EngineSimulationConfig,
    ledger: &mut Ledger,
    msg: &JSONMessage,
    entries: &Vec<JSONWantlistEntry>,
    msg_id: i64,
    rows: Vec<CSVWantlistEntry>,
) -> (r: Vec<CSVWantlistEntry>)
    requires
        old(ledger).wf(),
        msg@.received_entries == Some(message_entries_view(entries@)),
        rows_view(rows@) == entry_rows(msg@, msg_id),
    ensures
        final(ledger).wf(),
        final(ledger)@ == ledger_after_wantlist(cfg@, old(ledger)@, msg@),
        rows_view(r@) == wantlist_rows(cfg@, old(ledger)@, msg@, msg_id),
{
    let ghost l = ledger@;
    let ghost m = msg@;
    let ts = msg.timestamp;
    let (wants, cancels) = split_wants_cancels(entries.as_slice());
    let sliding_window_dups = if cfg.insert_sliding_window_duplicate_markers {
        get_duplicate_entries_from_sliding_windows(&cfg.sliding_window_lengths, ledger, ts, &wants)
    } else {
        None
    };
    let full = match msg.full_want_list {
        Some(full) => full,
        None => false,
    };
    let (full_wl_dups, full_wl_synth_cancels) = if full {
        let old_wants = ledger.replace_full(&wants, ts);
        get_duplicate_entries_and_synth_cancels_from_full_wantlist(
            old_wants,
            ledger.wanted_entries(),
        )
    } else {
        ledger.apply_incremental(&wants, &cancels, ts);
        (None, None)
    };
    assert(ledger@ == ledger_after_update(l, m));
    let reconnect_dups = ledger.get_duplicate_entries_from_reconnect(
        ts,
        cfg.reconnect_duplicate_duration_secs,
    );
    let full_wl_dups = if cfg.insert_full_wantlist_duplicate_markers {
        full_wl_dups
    } else {
        None
    };
    let reconnect_dups = if cfg.insert_reconnect_duplicate_markers {
        reconnect_dups
    } else {
        None
    };
    proof {
        let u = ledger_after_update(l, m);
        lemma_selection_sorted(l.wanted_entries, key_set(u.wanted_entries));
        if u.wanted_entries_before_disconnect is Some {
            lemma_selection_sorted(
                u.wanted_entries_before_disconnect->0,
                key_set(u.wanted_entries),
            );
        }
        if cfg@.sliding_window_lengths.len() > 0 {
            lemma_window_matches(
                l.wanted_entries,
                cfg@.sliding_window_lengths,
                m.timestamp,
                want_cids(m).to_set(),
                Seq::empty(),
            );
        }
    }
    let mut rows = rows;
    let ghost plain = rows@;
    mark_rows(&mut rows, &full_wl_dups, &reconnect_dups, &sliding_window_dups);
    proof {
        let views = m.received_entries->0;
        assert(rows_view(plain).len() == entry_rows(m, msg_id).len());
        assert(rows.len() == views.len());
        assert forall|i: int| 0 <= i < rows.len() implies (#[trigger] rows@[i])@
            == marked_entry_rows(cfg@, l, m, msg_id)[i] by {
            assert(plain[i]@ == rows_view(plain)[i]);
            lemma_marks(cfg@, l, m, views[i].cid);
        }
        assert(rows_view(rows@) =~= marked_entry_rows(cfg@, l, m, msg_id));
    }
    if cfg.insert_full_wantlist_synth_cancels {
        match full_wl_synth_cancels {
            Some(cancels) => {
                let ghost marked_rows = rows_view(rows@);
                let mut synth_cancels = CSVWantlistEntry::from_wantlist_entries(
                    cancels,
                    msg,
                    msg_id,
                    CSV_MESSAGE_TYPE_SYNTHETIC,
                    CSV_ENTRY_TYPE_SYNTHETIC_CANCEL_FULL_WANTLIST,
                    CSV_DUPLICATE_STATUS_NO_DUP,
                    0,
                );
                let ghost synth_rows = rows_view(synth_cancels@);
                rows.append(&mut synth_cancels);
                assert(rows_view(rows@) =~= marked_rows + synth_rows);
            },
            None => {
                assert(rows_view(rows@) =~= rows_view(rows@) + Seq::empty());
            },
        }
    } else {
        assert(rows_view(rows@) =~= rows_view(rows@) + Seq::empty());
    }
    rows
}

impl EngineSimulation {
    /// The invariant of the engine.
    pub open spec fn wf(&self) -> bool {
        self@.wf()
    }

    /// An engine without ledgers. The windows are brought into ascending
    /// order; a window of length zero is refused.
    pub fn new(cfg: EngineSimulationConfig) -> (r: Result<EngineSimulation, EngineError>)
        ensures
            cfg@.sliding_window_lengths.contains(0u32) ==> r is Err && r->Err_0
                == EngineError::ZeroSlidingWindow,
            !cfg@.sliding_window_lengths.contains(0u32) ==> r is Ok && r->Ok_0.wf()
                && r->Ok_0@.peers.len() == 0 && with_sorted_windows(cfg@, r->Ok_0@.cfg),
    {
        broadcast use vstd::seq_lib::group_to_multiset_ensures;

        let windows = sorted_windows(&cfg.sliding_window_lengths);
        let ghost given = cfg@.sliding_window_lengths;
        proof {
            assert(forall|x: u32| given.contains(x) <==> windows@.contains(x)) by {
                assert forall|x: u32| given.contains(x) <==> windows@.contains(x) by {
                    assert(given.to_multiset().count(x) == windows@.to_multiset().count(x));
                }
            }
        }
        if windows.len() > 0 && windows[0] == 0 {
            assert(windows@.contains(0u32));
            return Err(EngineError::ZeroSlidingWindow);
        }
        proof {
            if windows@.contains(0u32) {
                let i = choose|i: int| 0 <= i < windows@.len() && windows@[i] == 0u32;
                assert(windows@[0] <= windows@[i]);
            }
        }
        let cfg = EngineSimulationConfig {
            allow_empty_full_wantlist: cfg.allow_empty_full_wantlist,
            allow_empty_connection_event: cfg.allow_empty_connection_event,
            insert_full_wantlist_synth_cancels: cfg.insert_full_wantlist_synth_cancels,
            insert_disconnect_synth_cancels: cfg.insert_disconnect_synth_cancels,
            insert_full_wantlist_duplicate_markers: cfg.insert_full_wantlist_duplicate_markers,
            insert_reconnect_duplicate_markers: cfg.insert_reconnect_duplicate_markers,
            reconnect_duplicate_duration_secs: cfg.reconnect_duplicate_duration_secs,
            insert_sliding_window_duplicate_markers: cfg.insert_sliding_window_duplicate_markers,
            sliding_window_lengths: windows,
        };
        Ok(EngineSimulation { peers: Vec::new(), cfg })
    }

    /// The number of peers that have a ledger.
    pub fn num_ledgers(&self) -> (r: usize)
        ensures
            r == self@.peers.len(),
    {
        self.peers.len()
    }

    /// The options of the engine, the windows in ascending order.
    pub fn config(&self) -> (r: &EngineSimulationConfig)
        ensures
            r@ == self@.cfg,
    {
        &self.cfg
    }

    /// The ledgers, sorted by the identifier of their peer.
    pub fn peers(&self) -> (r: &Vec<PeerLedger>)
        ensures
            pairs(r@) == self@.peers,
    {
        &self.peers
    }

    /// The ledger of `peer`, if the peer has one.
    pub fn ledger(&self, peer: &str) -> (r: Option<&Ledger>)
        requires
            self.wf(),
        ensures
            match r {
                Some(l) => lookup(self@.peers, peer@) == Some(l@),
                None => lookup(self@.peers, peer@) is None,
            },
    {
        let (at, present) = search(&self.peers, peer);
        if present {
            Some(&self.peers[at].ledger)
        } else {
            None
        }
    }

    /// Puts `ledger` in the place of the ledger at `at`, where the peer has
    /// one, and keeps what the engine's invariant needs.
    proof fn lemma_with_ledger(e: EngineView, peer: Text, ledger: LedgerView)
        requires
            e.wf(),
            ledger.wf(),
        ensures
            e.with_ledger(peer, ledger).wf(),
    {
        lemma_upsert_sorted(e.peers, peer, ledger);
        lemma_upsert_values(e.peers, peer, ledger, |l: LedgerView| l.wf());
    }

    /// Takes in a wantlist message.
    fn ingest_wantlist_message(&mut self, msg: &JSONMessage, msg_id: i64) -> (r: Result<
        IngestResult,
        EngineError,
    >)
        requires
            old(self).wf(),
            msg@.received_entries is Some,
        ensures
            final(self).wf(),
            match wantlist_error(old(self)@.cfg, msg@) {
                Some(e) => r == Err::<IngestResult, EngineError>(e) && final(self)@ == old(self)@,
                None => r is Ok && final(self)@ == after_wantlist(old(self)@, msg@) && r->Ok_0@
                    == wantlist_outcome(old(self)@, msg@, msg_id),
            },
    {
        let entries = match &msg.received_entries {
            Some(entries) => entries,
            None => {
                return Err(EngineError::MissingEntries);
            },
        };
        if msg.full_want_list.is_none() && !self.cfg.allow_empty_full_wantlist {
            return Err(EngineError::MissingFullFlag);
        }
        let rows = match CSVWantlistEntry::rows_of_message(msg, msg_id) {
            Ok(rows) => rows,
            Err(e) => {
                return Err(e);
            },
        };
        let ghost e0 = self@;
        let ghost l0 = ledger_for_wantlist(e0.peers, msg@.peer, msg@.timestamp);
        let (at, present) = search(&self.peers, msg.peer.as_str());
        if !present {
            self.peers.insert(
                at,
                PeerLedger { peer: msg.peer.clone(), ledger: Ledger::new(1, msg.timestamp) },
            );
        }
        let ghost base = pairs(self.peers@);
        proof {
            lemma_rank_bounds(e0.peers, msg@.peer);
            if present {
                assert(base == e0.peers);
                assert(e0.peers[at as int].1.wf());
            } else {
                assert(base =~= e0.peers.insert(
                    at as int,
                    (msg@.peer, LedgerView::fresh(1, msg@.timestamp)),
                ));
            }
        }
        self.peers[at].ledger.resume(msg.timestamp);
        assert(self.peers@[at as int].ledger@ == l0);
        let rows = apply_wantlist(
            &self.cfg,
            &mut self.peers[at].ledger,
            msg,
            entries,
            msg_id,
            rows,
        );
        proof {
            let done = ledger_after_wantlist(e0.cfg, l0, msg@);
            assert(pairs(self.peers@) =~= upsert(e0.peers, msg@.peer, done));
            Self::lemma_with_ledger(e0, msg@.peer, done);
        }
        Ok(
            IngestResult {
                missing_ledger: !present,
                wantlist_entries: Some(rows),
                connection_event: None,
            },
        )
    }

    /// Takes in a connection event.
    fn ingest_connection_event(&mut self, msg: &JSONMessage, msg_id: i64) -> (r: Result<
        IngestResult,
        EngineError,
    >)
        requires
            old(self).wf(),
        ensures
            final(self).wf(),
            match connection_error(old(self)@, msg@) {
                Some(e) => r == Err::<IngestResult, EngineError>(e) && final(self)@ == old(self)@,
                None => r is Ok && final(self)@ == after_connection_event(old(self)@, msg@)
                    && r->Ok_0@ == connection_outcome(old(self)@, msg@, msg_id),
            },
    {
        let connected = match msg.peer_connected {
            Some(connected) => connected,
            None => false,
        };
        let disconnected = match msg.peer_disconnected {
            Some(disconnected) => disconnected,
            None => false,
        };
        if !connected && !disconnected {
            if self.cfg.allow_empty_connection_event {
                return Ok(IngestResult::default());
            } else {
                return Err(EngineError::EmptyMessage);
            }
        }
        let found = match msg.connect_event_peer_found {
            Some(found) => found,
            None => {
                return Err(EngineError::MissingPeerFound);
            },
        };
        if connected && disconnected {
            return Err(EngineError::AmbiguousConnectionChange);
        }
        let ghost e0 = self@;
        let (at, present) = search(&self.peers, msg.peer.as_str());
        proof {
            lemma_rank_bounds(e0.peers, msg@.peer);
            if present {
                assert(e0.peers[at as int].1.wf());
            }
        }
        if disconnected {
            if present && self.peers[at].ledger.connection_count() == 0 {
                return Err(EngineError::ConnectionCountUnderflow);
            }
            let ghost l0 = ledger_for_disconnect(e0.peers, msg@.peer, msg@.timestamp);
            if !present {
                self.peers.insert(
                    at,
                    PeerLedger { peer: msg.peer.clone(), ledger: Ledger::new(1, msg.timestamp) },
                );
                assert(pairs(self.peers@) =~= e0.peers.insert(at as int, (msg@.peer, l0)));
            }
            assert(self.peers@[at as int].ledger@ == l0);
            let migrated = match self.peers[at].ledger.note_disconnect() {
                Ok(migrated) => migrated,
                Err(e) => {
                    return Err(e);
                },
            };
            proof {
                assert(pairs(self.peers@) =~= upsert(e0.peers, msg@.peer, l0.after_disconnect()));
                Self::lemma_with_ledger(e0, msg@.peer, l0.after_disconnect());
            }
            let wantlist_entries = if migrated && self.cfg.insert_disconnect_synth_cancels {
                match self.peers[at].ledger.wanted_entries_before_disconnect() {
                    Some(entries) => Some(
                        CSVWantlistEntry::rows_for_entries(
                            entries,
                            &msg.timestamp,
                            &msg.peer,
                            &address_of(msg),
                            msg_id,
                            CSV_MESSAGE_TYPE_SYNTHETIC,
                            CSV_ENTRY_TYPE_SYNTHETIC_CANCEL_DISCONNECT,
                            CSV_DUPLICATE_STATUS_NO_DUP,
                            0,
                        ),
                    ),
                    None => None,
                }
            } else {
                None
            };
            Ok(
                IngestResult {
                    missing_ledger: !present,
                    wantlist_entries,
                    connection_event: Some(connection_event_row(msg, msg_id, true, found)),
                },
            )
        } else {
            let ghost l0 = ledger_for_connect(e0.peers, msg@.peer, msg@.timestamp, found);
            if present {
                if self.peers[at].ledger.connection_count() == i32::MAX {
                    return Err(EngineError::ConnectionCountOverflow);
                }
                if !found && self.peers[at].ledger.connection_count() > 0 {
                    self.peers[at].ledger.set_aside();
                }
            } else {
                self.peers.insert(
                    at,
                    PeerLedger { peer: msg.peer.clone(), ledger: Ledger::new(0, msg.timestamp) },
                );
                assert(pairs(self.peers@) =~= e0.peers.insert(at as int, (msg@.peer, l0)));
            }
            assert(self.peers@[at as int].ledger@ == l0);
            match self.peers[at].ledger.note_connect(msg.timestamp) {
                Ok(()) => {},
                Err(e) => {
                    return Err(e);
                },
            }
            proof {
                assert(pairs(self.peers@) =~= upsert(
                    e0.peers,
                    msg@.peer,
                    l0.after_connect(msg@.timestamp),
                ));
                Self::lemma_with_ledger(e0, msg@.peer, l0.after_connect(msg@.timestamp));
            }
            Ok(
                IngestResult {
                    missing_ledger: false,
                    wantlist_entries: None,
                    connection_event: Some(connection_event_row(msg, msg_id, false, found)),
                },
            )
        }
    }

    /// Takes in one message. A message with wantlist entries updates the
    /// ledger of its peer and yields one row for each entry, marked as the
    /// duplicate that it is, and the synthetic cancels of a full wantlist.
    /// Any other message is a connection event: it changes the connection
    /// count of its peer and yields one connection row, and the synthetic
    /// cancels of a disconnect. A message that is refused changes nothing.
    pub fn ingest(&mut self, msg: &JSONMessage, msg_id: i64) -> (r: Result<
        IngestResult,
        EngineError,
    >)
        requires
            old(self).wf(),
        ensures
            final(self).wf(),
            match ingest_error(old(self)@, msg@) {
                Some(e) => r == Err::<IngestResult, EngineError>(e) && final(self)@ == old(self)@,
                None => r is Ok && final(self)@ == after_ingest(old(self)@, msg@) && r->Ok_0@
                    == ingest_outcome(old(self)@, msg@, msg_id),
            },
    {
        if msg.received_entries.is_some() {
            self.ingest_wantlist_message(msg, msg_id)
        } else {
            self.ingest_connection_event(msg, msg_id)
        }
    }

    /// The synthetic cancels that close the run: one row for every entry
    /// that is still wanted, ledger by ledger in the order of the peers, at
    /// the time `final_ts`. The first row has the id `start_id`, and every
    /// further row the id after that of the row before it. The rows are
    /// refused where the ids would leave the range of message ids.
    pub fn generate_end_of_simulation_entries(&self, final_ts: Timestamp, start_id: i64) -> (r:
        Result<Vec<CSVWantlistEntry>, EngineError>)
        ensures
            start_id + total_wanted(self@.peers) > i64::MAX + 1 ==> r is Err && r->Err_0
                == EngineError::MessageIdOverflow,
            start_id + total_wanted(self@.peers) <= i64::MAX + 1 ==> r is Ok && rows_view(
                r->Ok_0@,
            ) == flush_rows(self@.peers, final_ts, start_id as int),
    {
        let ghost all = pairs(self.peers@);
        let seconds = final_ts.timestamp();
        let millis = final_ts.timestamp_subsec_millis();
        let mut rows: Vec<CSVWantlistEntry> = Vec::new();
        let mut next_id: i64 = start_id;
        let mut exhausted = false;
        let mut p: usize = 0;
        assert(all.take(0) =~= Seq::empty());
        while p < self.peers.len()
            invariant
                p <= self.peers.len(),
                all == pairs(self.peers@),
                seconds == final_ts.seconds,
                millis == final_ts.subsec_millis(),
                rows.len() == total_wanted(all.take(p as int)),
                rows_view(rows@) == flush_rows(all.take(p as int), final_ts, start_id as int),
                !exhausted ==> next_id == start_id + rows.len(),
                exhausted ==> start_id + rows.len() == i64::MAX + 1,
            decreases self.peers.len() - p,
        {
            let peer = &self.peers[p].peer;
            let entries = self.peers[p].ledger.wanted_entries();
            let ghost wanted_entries = entries_view(entries@);
            let ghost base = rows_view(rows@);
            let ghost first_id = start_id + rows.len();
            let ghost block = ledger_flush_rows(peer@, wanted_entries, final_ts, first_id);
            proof {
                let next = all.take(p + 1);
                assert(next.drop_last() =~= all.take(p as int));
                assert(next.last() == (peer@, self.peers@[p as int].ledger@));
                lemma_total_prefix(all, p + 1);
            }
            let mut i: usize = 0;
            while i < entries.len()
                invariant
                    i <= entries.len(),
                    all == self@.peers,
                    wanted_entries == entries_view(entries@),
                    seconds == final_ts.seconds,
                    millis == final_ts.subsec_millis(),
                    block == ledger_flush_rows(peer@, wanted_entries, final_ts, first_id),
                    first_id + entries.len() <= start_id + total_wanted(all),
                    rows.len() == base.len() + i,
                    first_id == start_id + base.len(),
                    forall|j: int| 0 <= j < base.len() ==> (#[trigger] rows@[j])@ == base[j],
                    forall|j: int| 0 <= j < i ==> (#[trigger] rows@[base.len() + j])@ == block[j],
                    !exhausted ==> next_id == start_id + rows.len(),
                    exhausted ==> start_id + rows.len() == i64::MAX + 1,
                decreases entries.len() - i,
            {
                if exhausted {
                    return Err(EngineError::MessageIdOverflow);
                }
                rows.push(
                    CSVWantlistEntry {
                        message_id: next_id,
                        message_type: CSV_MESSAGE_TYPE_SYNTHETIC,
                        timestamp_seconds: seconds,
                        timestamp_subsec_milliseconds: millis,
                        peer_id: peer.clone(),
                        address: String::new(),
                        priority: 0,
                        entry_type: CSV_ENTRY_TYPE_SYNTHETIC_CANCEL_DISCONNECT,
                        cid: entries[i].cid.clone(),
                        duplicate_status: CSV_DUPLICATE_STATUS_NO_DUP,
                        sliding_window_smallest_match: 0,
                    },
                );
                if next_id == i64::MAX {
                    exhausted = true;
                } else {
                    next_id = next_id + 1;
                }
                i += 1;
            }
            proof {
                assert(block.len() == entries.len());
                assert forall|j: int| 0 <= j < rows.len() implies rows_view(rows@)[j] == (base
                    + block)[j] by {
                    if j >= base.len() {
                        assert(rows@[base.len() + (j - base.len())]@ == block[j - base.len()]);
                    }
                }
                assert(rows_view(rows@) =~= base + block);
            }
            p += 1;
        }
        assert(all.take(self.peers.len() as int) =~= all);
        Ok(rows)
    }
}

/// The row of a connection event.
fn connection_event_row(msg: &JSONMessage, msg_id: i64, disconnected: bool, found: bool) -> (r:
    CSVConnectionEvent)
    requires
        disconnected == crate::model::reports_disconnect(msg@),
        msg@.connect_event_peer_found == Some(found),
    ensures
        r@ == connection_row(msg@, msg_id),
{
    let event_type = if disconnected {
        if found {
            CSV_CONNECTION_EVENT_DISCONNECTED_FOUND
        } else {
            CSV_CONNECTION_EVENT_DISCONNECTED_NOT_FOUND
        }
    } else {
        if found {
            CSV_CONNECTION_EVENT_CONNECTED_FOUND
        } else {
            CSV_CONNECTION_EVENT_CONNECTED_NOT_FOUND
        }
    };
    CSVConnectionEvent {
        message_id: msg_id,
        timestamp_seconds: msg.timestamp.timestamp(),
        timestamp_subsec_millis: msg.timestamp.timestamp_subsec_millis(),
        peer_id: msg.peer.clone(),
        address: address_of(msg),
        event_type,
    }
}

/// The ledgers up to some point want no more than all ledgers do.
pub proof fn lemma_total_prefix(peers: Seq<(Text, LedgerView)>, k: int)
    requires
        0 <= k <= peers.len(),
    ensures
        total_wanted(peers.take(k)) <= total_wanted(peers),
    decreases peers.len() - k,
{
    if k == peers.len() {
        assert(peers.take(k) =~= peers);
    } else {
        lemma_total_prefix(peers, k + 1);
        assert(peers.take(k + 1).drop_last() =~= peers.take(k));
    }
}

} // verus!

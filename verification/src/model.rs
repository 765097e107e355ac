//! The engine as a function: what the ledgers are after a message, and which
//! rows are written for it, stated over the views of the state and of the
//! message.

use vstd::prelude::*;
use crate::error::EngineError;
use crate::ledger::{cancelled, cids_of, wanted, LedgerView};
use crate::sorted::{excluding, has_key, key_set, keys_sorted, lookup, upsert, Text};
use crate::timestamp::Timestamp;
use crate::wantlist::{
    address_column,
    entry_row,
    event_type_of,
    ledger_rows,
    want_types_known,
    EventRowView,
    MessageView,
    RowView,
    CSV_DUPLICATE_STATUS_DUP_FULL_WANTLIST,
    CSV_DUPLICATE_STATUS_DUP_RECONNECT,
    CSV_DUPLICATE_STATUS_DUP_SLIDING_WINDOW,
    CSV_DUPLICATE_STATUS_NO_DUP,
    CSV_ENTRY_TYPE_SYNTHETIC_CANCEL_DISCONNECT,
    CSV_ENTRY_TYPE_SYNTHETIC_CANCEL_FULL_WANTLIST,
    CSV_MESSAGE_TYPE_SYNTHETIC,
};

verus! {

/// The options of the engine as contracts see them.
pub struct ConfigView {
    pub allow_empty_full_wantlist: bool,
    pub allow_empty_connection_event: bool,
    pub insert_full_wantlist_synth_cancels: bool,
    pub insert_disconnect_synth_cancels: bool,
    pub insert_full_wantlist_duplicate_markers: bool,
    pub insert_reconnect_duplicate_markers: bool,
    pub reconnect_duplicate_duration_secs: u32,
    pub insert_sliding_window_duplicate_markers: bool,
    pub sliding_window_lengths: Seq<u32>,
}

/// The engine as contracts see it: the ledgers, sorted by the identifier of
/// their peer, and the options.
pub struct EngineView {
    pub peers: Seq<(Text, LedgerView)>,
    pub cfg: ConfigView,
}

/// The outcome of one message as contracts see it.
pub struct IngestView {
    pub missing_ledger: bool,
    pub wantlist_entries: Option<Seq<RowView>>,
    pub connection_event: Option<EventRowView>,
}

/// The window lengths ascend.
pub open spec fn windows_ascend(windows: Seq<u32>) -> bool {
    forall|i: int, j: int| 0 <= i <= j < windows.len() ==> windows[i] <= windows[j]
}

/// No window has length zero.
pub open spec fn windows_positive(windows: Seq<u32>) -> bool {
    forall|i: int| 0 <= i < windows.len() ==> windows[i] > 0
}

impl EngineView {
    /// The invariant of the engine: the ledgers are sorted by peer, each of
    /// them is well formed, and the windows ascend from a positive length.
    pub open spec fn wf(self) -> bool {
        &&& keys_sorted(self.peers)
        &&& forall|i: int| 0 <= i < self.peers.len() ==> (#[trigger] self.peers[i]).1.wf()
        &&& windows_ascend(self.cfg.sliding_window_lengths)
        &&& windows_positive(self.cfg.sliding_window_lengths)
    }

    /// The engine with another ledger for `peer`.
    pub open spec fn with_ledger(self, peer: Text, ledger: LedgerView) -> EngineView {
        EngineView { peers: upsert(self.peers, peer, ledger), cfg: self.cfg }
    }
}

/// An entry last seen at `entry_ts` lies within the window of `window`
/// seconds that ends at `msg_ts`.
pub open spec fn within_window(entry_ts: Timestamp, window: u32, msg_ts: Timestamp) -> bool {
    entry_ts.plus_seconds_after(window as int, msg_ts)
}

/// The first of `windows` within which an entry last seen at `entry_ts`
/// lies; where the windows ascend, the smallest. Zero where there is none.
pub open spec fn smallest_window(windows: Seq<u32>, entry_ts: Timestamp, msg_ts: Timestamp) -> u32
    decreases windows.len(),
{
    if windows.len() == 0 {
        0
    } else if within_window(entry_ts, windows[0], msg_ts) {
        windows[0]
    } else {
        smallest_window(windows.drop_first(), entry_ts, msg_ts)
    }
}

/// The sliding window duplicate for the identifier `cid`, if there is one:
/// `cid` is among the wants of the message, and the ledger holds it with a
/// time within the largest window. The result is the smallest window within
/// which that time lies.
pub open spec fn window_match(
    wanted_entries: Seq<(Text, Timestamp)>,
    windows: Seq<u32>,
    msg_ts: Timestamp,
    wants: Set<Text>,
    cid: Text,
) -> Option<u32> {
    if windows.len() > 0 && wants.contains(cid) && lookup(wanted_entries, cid) is Some
        && within_window(lookup(wanted_entries, cid)->0, windows.last(), msg_ts) {
        Some(smallest_window(windows, lookup(wanted_entries, cid)->0, msg_ts))
    } else {
        None
    }
}

/// The duplicate status of a row: one bit for each reason that holds.
pub open spec fn status_bits(full_wantlist: bool, reconnect: bool, sliding_window: bool) -> u32 {
    (if full_wantlist {
        CSV_DUPLICATE_STATUS_DUP_FULL_WANTLIST
    } else {
        CSV_DUPLICATE_STATUS_NO_DUP
    }) | (if reconnect {
        CSV_DUPLICATE_STATUS_DUP_RECONNECT
    } else {
        CSV_DUPLICATE_STATUS_NO_DUP
    }) | (if sliding_window {
        CSV_DUPLICATE_STATUS_DUP_SLIDING_WINDOW
    } else {
        CSV_DUPLICATE_STATUS_NO_DUP
    })
}

/// `row`, marked as a duplicate for the reasons given.
pub open spec fn marked(
    row: RowView,
    full_wantlist: bool,
    reconnect: bool,
    window: Option<u32>,
) -> RowView {
    RowView {
        message_id: row.message_id,
        message_type: row.message_type,
        timestamp_seconds: row.timestamp_seconds,
        timestamp_subsec_milliseconds: row.timestamp_subsec_milliseconds,
        peer_id: row.peer_id,
        address: row.address,
        priority: row.priority,
        entry_type: row.entry_type,
        cid: row.cid,
        duplicate_status: status_bits(full_wantlist, reconnect, window is Some),
        sliding_window_smallest_match: match window {
            Some(w) => w,
            None => 0,
        },
    }
}

/// The message replaces the wantset rather than changing it.
pub open spec fn is_full(m: MessageView) -> bool {
    m.full_want_list == Some(true)
}

/// The identifiers that the message asks for, in its order.
pub open spec fn want_cids(m: MessageView) -> Seq<Text> {
    cids_of(wanted(m.received_entries->0))
}

/// The identifiers that the message cancels, in its order.
pub open spec fn cancel_cids(m: MessageView) -> Seq<Text> {
    cids_of(cancelled(m.received_entries->0))
}

/// The ledger that a wantlist message of `peer` works on: the ledger of the
/// peer, connected if it was not, or a new ledger with one connection.
pub open spec fn ledger_for_wantlist(
    peers: Seq<(Text, LedgerView)>,
    peer: Text,
    ts: Timestamp,
) -> LedgerView {
    match lookup(peers, peer) {
        Some(l) => l.resumed(ts),
        None => LedgerView::fresh(1, ts),
    }
}

/// The ledger once the wants and cancels of the message are applied.
pub open spec fn ledger_after_update(l: LedgerView, m: MessageView) -> LedgerView {
    if is_full(m) {
        l.replaced(want_cids(m), m.timestamp)
    } else {
        l.updated(want_cids(m), cancel_cids(m), m.timestamp)
    }
}

/// The ledger once the message is dealt with.
pub open spec fn ledger_after_wantlist(
    cfg: ConfigView,
    l: LedgerView,
    m: MessageView,
) -> LedgerView {
    ledger_after_update(l, m).after_reconnect_check(
        m.timestamp,
        cfg.reconnect_duplicate_duration_secs,
    )
}

/// A row for `cid` is a full wantlist duplicate: the message is a full
/// wantlist, and `cid` was wanted before it and is wanted after it.
pub open spec fn full_wantlist_dup(
    cfg: ConfigView,
    l: LedgerView,
    m: MessageView,
    cid: Text,
) -> bool {
    &&& cfg.insert_full_wantlist_duplicate_markers
    &&& is_full(m)
    &&& has_key(l.wanted_entries, cid)
    &&& has_key(ledger_after_update(l, m).wanted_entries, cid)
}

/// A row for `cid` is a reconnect duplicate: the message comes within the
/// reconnect window, and `cid` was set aside at the last disconnect and is
/// wanted after the message.
pub open spec fn reconnect_dup(cfg: ConfigView, l: LedgerView, m: MessageView, cid: Text) -> bool {
    let u = ledger_after_update(l, m);
    &&& cfg.insert_reconnect_duplicate_markers
    &&& u.wanted_entries_before_disconnect is Some
    &&& u.reconnect_window_open(m.timestamp, cfg.reconnect_duplicate_duration_secs)
    &&& has_key(u.wanted_entries_before_disconnect->0, cid)
    &&& has_key(u.wanted_entries, cid)
}

/// The window for which a row for `cid` is a sliding window duplicate, if it
/// is one, judged by the ledger as it was before the message.
pub open spec fn sliding_window_dup(
    cfg: ConfigView,
    l: LedgerView,
    m: MessageView,
    cid: Text,
) -> Option<u32> {
    if cfg.insert_sliding_window_duplicate_markers {
        window_match(
            l.wanted_entries,
            cfg.sliding_window_lengths,
            m.timestamp,
            want_cids(m).to_set(),
            cid,
        )
    } else {
        None
    }
}

/// The rows for the entries of a wantlist message, in the order of the
/// entries, each marked as the duplicate that it is.
pub open spec fn marked_entry_rows(cfg: ConfigView, l: LedgerView, m: MessageView, id: i64) -> Seq<
    RowView,
> {
    let entries = m.received_entries->0;
    Seq::new(
        entries.len(),
        |i: int|
            marked(
                entry_row(m, id, entries[i]),
                full_wantlist_dup(cfg, l, m, entries[i].cid),
                reconnect_dup(cfg, l, m, entries[i].cid),
                sliding_window_dup(cfg, l, m, entries[i].cid),
            ),
    )
}

/// The synthetic cancels of a full wantlist: one row for every entry that
/// was wanted before the message and is not wanted after it, in the order of
/// the ledger.
pub open spec fn full_wantlist_cancel_rows(
    cfg: ConfigView,
    l: LedgerView,
    m: MessageView,
    id: i64,
) -> Seq<RowView> {
    if is_full(m) && cfg.insert_full_wantlist_synth_cancels {
        ledger_rows(
            excluding(l.wanted_entries, key_set(ledger_after_update(l, m).wanted_entries)),
            m.timestamp,
            m.peer,
            address_column(m.address),
            id,
            CSV_MESSAGE_TYPE_SYNTHETIC,
            CSV_ENTRY_TYPE_SYNTHETIC_CANCEL_FULL_WANTLIST,
            CSV_DUPLICATE_STATUS_NO_DUP,
            0,
        )
    } else {
        Seq::empty()
    }
}

/// All rows of a wantlist message: those of its entries, then the synthetic
/// cancels.
pub open spec fn wantlist_rows(cfg: ConfigView, l: LedgerView, m: MessageView, id: i64) -> Seq<
    RowView,
> {
    marked_entry_rows(cfg, l, m, id) + full_wantlist_cancel_rows(cfg, l, m, id)
}

/// Why a wantlist message is refused, if it is.
pub open spec fn wantlist_error(cfg: ConfigView, m: MessageView) -> Option<EngineError> {
    if m.full_want_list is None && !cfg.allow_empty_full_wantlist {
        Some(EngineError::MissingFullFlag)
    } else if !want_types_known(m.received_entries->0) {
        Some(EngineError::UnknownWantType)
    } else {
        None
    }
}

/// The engine after a wantlist message that is not refused.
pub open spec fn after_wantlist(e: EngineView, m: MessageView) -> EngineView {
    e.with_ledger(
        m.peer,
        ledger_after_wantlist(e.cfg, ledger_for_wantlist(e.peers, m.peer, m.timestamp), m),
    )
}

/// The outcome of a wantlist message that is not refused.
pub open spec fn wantlist_outcome(e: EngineView, m: MessageView, id: i64) -> IngestView {
    IngestView {
        missing_ledger: lookup(e.peers, m.peer) is None,
        wantlist_entries: Some(
            wantlist_rows(e.cfg, ledger_for_wantlist(e.peers, m.peer, m.timestamp), m, id),
        ),
        connection_event: None,
    }
}

/// The message reports that a connection was opened.
pub open spec fn reports_connect(m: MessageView) -> bool {
    m.peer_connected == Some(true)
}

/// The message reports that a connection went away.
pub open spec fn reports_disconnect(m: MessageView) -> bool {
    m.peer_disconnected == Some(true)
}

/// The ledger that a disconnect of `peer` works on: the ledger of the peer,
/// or a new ledger with the one connection that now goes away.
pub open spec fn ledger_for_disconnect(
    peers: Seq<(Text, LedgerView)>,
    peer: Text,
    ts: Timestamp,
) -> LedgerView {
    match lookup(peers, peer) {
        Some(l) => l,
        None => LedgerView::fresh(1, ts),
    }
}

/// The ledger that a connect of `peer` works on: the ledger of the peer, its
/// wantset set aside where the monitor did not know the peer although the
/// ledger counts connections; or a new ledger without connections.
pub open spec fn ledger_for_connect(
    peers: Seq<(Text, LedgerView)>,
    peer: Text,
    ts: Timestamp,
    found: bool,
) -> LedgerView {
    match lookup(peers, peer) {
        Some(l) => if !found && l.connection_count > 0 {
            l.set_aside()
        } else {
            l
        },
        None => LedgerView::fresh(0, ts),
    }
}

/// Why a connection event is refused, if it is.
pub open spec fn connection_error(e: EngineView, m: MessageView) -> Option<EngineError> {
    if !reports_connect(m) && !reports_disconnect(m) {
        if e.cfg.allow_empty_connection_event {
            None
        } else {
            Some(EngineError::EmptyMessage)
        }
    } else if m.connect_event_peer_found is None {
        Some(EngineError::MissingPeerFound)
    } else if reports_connect(m) && reports_disconnect(m) {
        Some(EngineError::AmbiguousConnectionChange)
    } else if reports_disconnect(m) {
        if ledger_for_disconnect(e.peers, m.peer, m.timestamp).connection_count == 0 {
            Some(EngineError::ConnectionCountUnderflow)
        } else {
            None
        }
    } else {
        if ledger_for_connect(
            e.peers,
            m.peer,
            m.timestamp,
            m.connect_event_peer_found->0,
        ).connection_count == i32::MAX {
            Some(EngineError::ConnectionCountOverflow)
        } else {
            None
        }
    }
}

/// The engine after a connection event that is not refused.
pub open spec fn after_connection_event(e: EngineView, m: MessageView) -> EngineView {
    if reports_disconnect(m) {
        e.with_ledger(
            m.peer,
            ledger_for_disconnect(e.peers, m.peer, m.timestamp).after_disconnect(),
        )
    } else if reports_connect(m) {
        e.with_ledger(
            m.peer,
            ledger_for_connect(
                e.peers,
                m.peer,
                m.timestamp,
                m.connect_event_peer_found->0,
            ).after_connect(m.timestamp),
        )
    } else {
        e
    }
}

/// The row of a connection event.
pub open spec fn connection_row(m: MessageView, id: i64) -> EventRowView {
    EventRowView {
        message_id: id,
        timestamp_seconds: m.timestamp.seconds,
        timestamp_subsec_millis: m.timestamp.subsec_millis(),
        peer_id: m.peer,
        address: address_column(m.address),
        event_type: event_type_of(reports_disconnect(m), m.connect_event_peer_found->0),
    }
}

/// The synthetic cancels of a disconnect: one row for every entry that the
/// disconnect sets aside, in the order of the ledger.
pub open spec fn disconnect_cancel_rows(e: EngineView, m: MessageView, id: i64) -> Option<
    Seq<RowView>,
> {
    let l = ledger_for_disconnect(e.peers, m.peer, m.timestamp);
    if reports_disconnect(m) && l.disconnect_migrates() && e.cfg.insert_disconnect_synth_cancels {
        Some(
            ledger_rows(
                l.wanted_entries,
                m.timestamp,
                m.peer,
                address_column(m.address),
                id,
                CSV_MESSAGE_TYPE_SYNTHETIC,
                CSV_ENTRY_TYPE_SYNTHETIC_CANCEL_DISCONNECT,
                CSV_DUPLICATE_STATUS_NO_DUP,
                0,
            ),
        )
    } else {
        None
    }
}

/// The outcome of a connection event that is not refused.
pub open spec fn connection_outcome(e: EngineView, m: MessageView, id: i64) -> IngestView {
    if reports_connect(m) || reports_disconnect(m) {
        IngestView {
            missing_ledger: reports_disconnect(m) && lookup(e.peers, m.peer) is None,
            wantlist_entries: disconnect_cancel_rows(e, m, id),
            connection_event: Some(connection_row(m, id)),
        }
    } else {
        IngestView { missing_ledger: false, wantlist_entries: None, connection_event: None }
    }
}

/// Why a message is refused, if it is. A message with wantlist entries is a
/// wantlist message, any other a connection event.
pub open spec fn ingest_error(e: EngineView, m: MessageView) -> Option<EngineError> {
    if m.received_entries is Some {
        wantlist_error(e.cfg, m)
    } else {
        connection_error(e, m)
    }
}

/// The engine after a message that is not refused.
pub open spec fn after_ingest(e: EngineView, m: MessageView) -> EngineView {
    if m.received_entries is Some {
        after_wantlist(e, m)
    } else {
        after_connection_event(e, m)
    }
}

/// The outcome of a message that is not refused.
pub open spec fn ingest_outcome(e: EngineView, m: MessageView, id: i64) -> IngestView {
    if m.received_entries is Some {
        wantlist_outcome(e, m, id)
    } else {
        connection_outcome(e, m, id)
    }
}

/// The number of entries that the ledgers want, all together.
pub open spec fn total_wanted(peers: Seq<(Text, LedgerView)>) -> nat
    decreases peers.len(),
{
    if peers.len() == 0 {
        0
    } else {
        total_wanted(peers.drop_last()) + peers.last().1.wanted_entries.len()
    }
}

/// The synthetic cancels that close one ledger at the end of a run: one row
/// for every entry that is still wanted, in the order of the ledger, with
/// the ids `first_id`, `first_id + 1`, and so on.
pub open spec fn ledger_flush_rows(
    peer: Text,
    wanted_entries: Seq<(Text, Timestamp)>,
    ts: Timestamp,
    first_id: int,
) -> Seq<RowView> {
    Seq::new(
        wanted_entries.len(),
        |i: int|
            RowView {
                message_id: (first_id + i) as i64,
                message_type: CSV_MESSAGE_TYPE_SYNTHETIC,
                timestamp_seconds: ts.seconds,
                timestamp_subsec_milliseconds: ts.subsec_millis(),
                peer_id: peer,
                address: Seq::empty(),
                priority: 0,
                entry_type: CSV_ENTRY_TYPE_SYNTHETIC_CANCEL_DISCONNECT,
                cid: wanted_entries[i].0,
                duplicate_status: CSV_DUPLICATE_STATUS_NO_DUP,
                sliding_window_smallest_match: 0,
            },
    )
}

/// The synthetic cancels that close all ledgers at the end of a run: those
/// of each ledger, the ledgers in the order of their peers, with ids that
/// count up from `start_id` by one for each row.
pub open spec fn flush_rows(peers: Seq<(Text, LedgerView)>, ts: Timestamp, start_id: int) -> Seq<
    RowView,
>
    decreases peers.len(),
{
    if peers.len() == 0 {
        Seq::empty()
    } else {
        flush_rows(peers.drop_last(), ts, start_id) + ledger_flush_rows(
            peers.last().0,
            peers.last().1.wanted_entries,
            ts,
            start_id + total_wanted(peers.drop_last()),
        )
    }
}

} // verus!

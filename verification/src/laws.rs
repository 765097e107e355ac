//! What holds of the engine whatever it is fed: theorems about the model of
//! `crate::model`, which is what `EngineSimulation::ingest` is proved to
//! compute.

use vstd::prelude::*;
use crate::ledger::{
    cancelled,
    cids_of,
    full_wantlist_duplicates,
    full_wantlist_synth_cancels,
    wanted,
    LedgerView,
};
use crate::model::{
    after_ingest,
    after_wantlist,
    disconnect_cancel_rows,
    flush_rows,
    full_wantlist_cancel_rows,
    full_wantlist_dup,
    ingest_error,
    ingest_outcome,
    is_full,
    ledger_after_update,
    ledger_after_wantlist,
    ledger_for_connect,
    ledger_for_disconnect,
    ledger_for_wantlist,
    marked,
    marked_entry_rows,
    reconnect_dup,
    reports_connect,
    reports_disconnect,
    sliding_window_dup,
    status_bits,
    total_wanted,
    want_cids,
    wantlist_rows,
    ConfigView,
    EngineView,
};
use crate::detectors::lemma_window_match_positive;
use crate::sorted::{
    excluding,
    has_key,
    key_set,
    keys_sorted,
    lemma_found_iff_has_key,
    lemma_excluding_has_key,
    lemma_key_index_unique,
    lemma_partition_len,
    lemma_rank_bounds,
    lemma_remove_all_lookup,
    lemma_remove_all_sorted,
    lemma_restricted_all_or_none,
    lemma_restricted_has_key,
    lemma_selection_sorted,
    lemma_sorted_unique,
    lemma_upsert_all_lookup,
    lemma_upsert_all_sorted,
    lemma_upsert_lookup,
    lemma_upsert_sorted,
    lemma_upsert_values,
    lemma_without_absent_key,
    lookup,
    remove_all,
    restricted_to,
    upsert_all,
    Text,
};
use crate::timestamp::Timestamp;
use crate::wantlist::{
    entry_type_of,
    EntryView,
    MessageView,
    RowView,
    CSV_DUPLICATE_STATUS_DUP_FULL_WANTLIST,
    CSV_DUPLICATE_STATUS_DUP_RECONNECT,
    CSV_DUPLICATE_STATUS_DUP_SLIDING_WINDOW,
    CSV_DUPLICATE_STATUS_NO_DUP,
    CSV_ENTRY_TYPE_CANCEL,
    CSV_ENTRY_TYPE_SYNTHETIC_CANCEL_DISCONNECT,
};

verus! {

/// Each reason for a duplicate has a bit of its own in the duplicate status:
/// the bit is set exactly when the reason holds.
pub proof fn lemma_status_bits(full_wantlist: bool, reconnect: bool, sliding_window: bool)
    ensures
        status_bits(false, false, false) == CSV_DUPLICATE_STATUS_NO_DUP,
        (status_bits(full_wantlist, reconnect, sliding_window)
            & CSV_DUPLICATE_STATUS_DUP_FULL_WANTLIST != 0) == full_wantlist,
        (status_bits(full_wantlist, reconnect, sliding_window) & CSV_DUPLICATE_STATUS_DUP_RECONNECT
            != 0) == reconnect,
        (status_bits(full_wantlist, reconnect, sliding_window)
            & CSV_DUPLICATE_STATUS_DUP_SLIDING_WINDOW != 0) == sliding_window,
        status_bits(full_wantlist, reconnect, sliding_window)
            & !CSV_DUPLICATE_STATUS_DUP_FULL_WANTLIST == status_bits(
            false,
            reconnect,
            sliding_window,
        ),
        status_bits(full_wantlist, reconnect, sliding_window) & !CSV_DUPLICATE_STATUS_DUP_RECONNECT
            == status_bits(full_wantlist, false, sliding_window),
        status_bits(full_wantlist, reconnect, sliding_window)
            & !CSV_DUPLICATE_STATUS_DUP_SLIDING_WINDOW == status_bits(
            full_wantlist,
            reconnect,
            false,
        ),
{
    let a: u32 = if full_wantlist {
        1
    } else {
        0
    };
    let b: u32 = if reconnect {
        2
    } else {
        0
    };
    let c: u32 = if sliding_window {
        4
    } else {
        0
    };
    assert(0u32 | 0u32 | 0u32 == 0u32) by (bit_vector);
    assert((a == 0 || a == 1) && (b == 0 || b == 2) && (c == 0 || c == 4) ==> (((a | b | c) & 1
        != 0) == (a == 1)) && (((a | b | c) & 2 != 0) == (b == 2)) && (((a | b | c) & 4 != 0) == (c
        == 4)) && ((a | b | c) & !1u32 == (0 | b | c)) && ((a | b | c) & !2u32 == (a | 0 | c)) && ((
    a | b | c) & !4u32 == (a | b | 0))) by (bit_vector);
}

/// An incremental update keeps a ledger well formed.
pub proof fn lemma_updated_wf(l: LedgerView, wants: Seq<Text>, cancels: Seq<Text>, ts: Timestamp)
    requires
        l.wf(),
    ensures
        l.updated(wants, cancels, ts).wf(),
{
    lemma_remove_all_sorted(l.wanted_entries, cancels);
    lemma_upsert_all_sorted(remove_all(l.wanted_entries, cancels), wants, ts);
}

/// A full wantlist keeps a ledger well formed.
pub proof fn lemma_replaced_wf(l: LedgerView, wants: Seq<Text>, ts: Timestamp)
    requires
        l.wf(),
    ensures
        l.replaced(wants, ts).wf(),
{
    lemma_upsert_all_sorted(Seq::<(Text, Timestamp)>::empty(), wants, ts);
}

/// A wantlist message keeps the ledger that it works on well formed.
pub proof fn lemma_ledger_after_wantlist_wf(cfg: ConfigView, l: LedgerView, m: MessageView)
    requires
        l.wf(),
    ensures
        ledger_after_update(l, m).wf(),
        ledger_after_wantlist(cfg, l, m).wf(),
{
    lemma_updated_wf(l, want_cids(m), crate::model::cancel_cids(m), m.timestamp);
    lemma_replaced_wf(l, want_cids(m), m.timestamp);
    let u = ledger_after_update(l, m);
    if u.wanted_entries_before_disconnect is Some {
        lemma_selection_sorted(u.wanted_entries_before_disconnect->0, key_set(u.wanted_entries));
    }
}

/// Whatever message the engine accepts, every ledger stays well formed: its
/// connection count is not negative, and its wantset is sorted strictly by
/// identifier, so that no identifier occurs twice in it.
pub proof fn lemma_ingest_keeps_ledgers_well_formed(e: EngineView, m: MessageView)
    requires
        e.wf(),
        ingest_error(e, m) is None,
    ensures
        after_ingest(e, m).wf(),
        forall|i: int|
            0 <= i < after_ingest(e, m).peers.len() ==> {
                let l = (#[trigger] after_ingest(e, m).peers[i]).1;
                &&& l.connection_count >= 0
                &&& keys_sorted(l.wanted_entries)
                &&& forall|a: int, b: int|
                    0 <= a < l.wanted_entries.len() && 0 <= b < l.wanted_entries.len()
                        && l.wanted_entries[a].0 == l.wanted_entries[b].0 ==> a == b
            },
{
    lemma_found_iff_has_key(e.peers, m.peer);
    lemma_rank_bounds(e.peers, m.peer);
    if lookup(e.peers, m.peer) is Some {
        assert(e.peers[crate::sorted::rank(e.peers, m.peer)].1.wf());
    }
    let next = if m.received_entries is Some {
        let l = ledger_for_wantlist(e.peers, m.peer, m.timestamp);
        lemma_ledger_after_wantlist_wf(e.cfg, l, m);
        ledger_after_wantlist(e.cfg, l, m)
    } else if reports_disconnect(m) {
        ledger_for_disconnect(e.peers, m.peer, m.timestamp).after_disconnect()
    } else {
        ledger_for_connect(
            e.peers,
            m.peer,
            m.timestamp,
            m.connect_event_peer_found->0,
        ).after_connect(m.timestamp)
    };
    if m.received_entries is Some || reports_disconnect(m) || reports_connect(m) {
        assert(next.wf());
        lemma_upsert_sorted(e.peers, m.peer, next);
        lemma_upsert_values(e.peers, m.peer, next, |l: LedgerView| l.wf());
    }
    let after = after_ingest(e, m);
    assert forall|i: int| 0 <= i < after.peers.len() implies {
        let l = (#[trigger] after.peers[i]).1;
        &&& l.connection_count >= 0
        &&& keys_sorted(l.wanted_entries)
        &&& forall|a: int, b: int|
            0 <= a < l.wanted_entries.len() && 0 <= b < l.wanted_entries.len()
                && l.wanted_entries[a].0 == l.wanted_entries[b].0 ==> a == b
    } by {
        let l = after.peers[i].1;
        assert(l.wf());
        assert forall|a: int, b: int|
            0 <= a < l.wanted_entries.len() && 0 <= b < l.wanted_entries.len()
                && l.wanted_entries[a].0 == l.wanted_entries[b].0 implies a == b by {
            lemma_key_index_unique(l.wanted_entries, a, b);
        }
    }
}

/// A message changes the ledger of its own peer and no other, and no ledger
/// is ever given up.
pub proof fn lemma_other_ledgers_untouched(e: EngineView, m: MessageView, peer: Text)
    requires
        e.wf(),
    ensures
        peer != m.peer ==> lookup(after_ingest(e, m).peers, peer) == lookup(e.peers, peer),
        lookup(e.peers, peer) is Some ==> lookup(after_ingest(e, m).peers, peer) is Some,
        after_ingest(e, m).cfg == e.cfg,
{
    let l = if m.received_entries is Some {
        ledger_after_wantlist(e.cfg, ledger_for_wantlist(e.peers, m.peer, m.timestamp), m)
    } else if reports_disconnect(m) {
        ledger_for_disconnect(e.peers, m.peer, m.timestamp).after_disconnect()
    } else {
        ledger_for_connect(
            e.peers,
            m.peer,
            m.timestamp,
            m.connect_event_peer_found->0,
        ).after_connect(m.timestamp)
    };
    lemma_upsert_lookup(e.peers, m.peer, l, peer);
}

/// The engine after a run of messages, as long as none of them is refused.
pub open spec fn after_all(e: EngineView, messages: Seq<MessageView>) -> Option<EngineView>
    decreases messages.len(),
{
    if messages.len() == 0 {
        Some(e)
    } else {
        match after_all(e, messages.drop_last()) {
            Some(before) => if ingest_error(before, messages.last()) is None {
                Some(after_ingest(before, messages.last()))
            } else {
                None
            },
            None => None,
        }
    }
}

/// After any run of messages that the engine accepts, every ledger is well
/// formed.
pub proof fn lemma_every_run_keeps_ledgers_well_formed(e: EngineView, messages: Seq<MessageView>)
    requires
        e.wf(),
        after_all(e, messages) is Some,
    ensures
        after_all(e, messages)->0.wf(),
    decreases messages.len(),
{
    if messages.len() > 0 {
        lemma_every_run_keeps_ledgers_well_formed(e, messages.drop_last());
        lemma_ingest_keeps_ledgers_well_formed(
            after_all(e, messages.drop_last())->0,
            messages.last(),
        );
    }
}

/// After a full wantlist the peer wants exactly what the message asks for,
/// each of it since the time of the message: nothing from before survives
/// unless the message names it.
pub proof fn lemma_full_wantlist_replaces(e: EngineView, m: MessageView, cid: Text)
    requires
        e.wf(),
        m.received_entries is Some,
        is_full(m),
    ensures
        lookup(after_wantlist(e, m).peers, m.peer) is Some,
        has_key(lookup(after_wantlist(e, m).peers, m.peer)->0.wanted_entries, cid)
            <==> want_cids(m).contains(cid),
        lookup(lookup(after_wantlist(e, m).peers, m.peer)->0.wanted_entries, cid) == if want_cids(
            m,
        ).contains(cid) {
            Some(m.timestamp)
        } else {
            None
        },
{
    let l = ledger_for_wantlist(e.peers, m.peer, m.timestamp);
    let done = ledger_after_wantlist(e.cfg, l, m);
    lemma_upsert_lookup(e.peers, m.peer, done, m.peer);
    let none = Seq::<(Text, Timestamp)>::empty();
    lemma_upsert_all_lookup(none, want_cids(m), m.timestamp, cid);
    lemma_rank_bounds(none, cid);
    lemma_upsert_all_sorted(none, want_cids(m), m.timestamp);
    lemma_found_iff_has_key(done.wanted_entries, cid);
}

/// After an incremental update the peer wants what the message asks for,
/// since the time of the message, and what it wanted before and the message
/// does not cancel, since the time since which it wanted it. An identifier
/// that the message both cancels and asks for is wanted.
pub proof fn lemma_incremental_update_result(
    l: LedgerView,
    wants: Seq<Text>,
    cancels: Seq<Text>,
    ts: Timestamp,
    cid: Text,
)
    requires
        l.wf(),
    ensures
        lookup(l.updated(wants, cancels, ts).wanted_entries, cid) == if wants.contains(cid) {
            Some(ts)
        } else if cancels.contains(cid) {
            None
        } else {
            lookup(l.wanted_entries, cid)
        },
{
    lemma_remove_all_sorted(l.wanted_entries, cancels);
    lemma_remove_all_lookup(l.wanted_entries, cancels, cid);
    lemma_upsert_all_lookup(remove_all(l.wanted_entries, cancels), wants, ts, cid);
}

/// What an incremental update leaves wanted is decided by the rule of
/// `lemma_incremental_update_result`: the wantset after the update is the
/// only sorted sequence that yields, for every identifier, what the rule
/// says.
pub proof fn lemma_incremental_update_is_decided(
    l: LedgerView,
    wants: Seq<Text>,
    cancels: Seq<Text>,
    ts: Timestamp,
    other: Seq<(Text, Timestamp)>,
)
    requires
        l.wf(),
        keys_sorted(other),
        forall|cid: Text|
            lookup(other, cid) == if wants.contains(cid) {
                Some(ts)
            } else if cancels.contains(cid) {
                None
            } else {
                lookup(l.wanted_entries, cid)
            },
    ensures
        other == l.updated(wants, cancels, ts).wanted_entries,
{
    let after = l.updated(wants, cancels, ts).wanted_entries;
    lemma_updated_wf(l, wants, cancels, ts);
    assert forall|cid: Text| lookup(other, cid) == lookup(after, cid) by {
        lemma_incremental_update_result(l, wants, cancels, ts, cid);
    }
    lemma_sorted_unique(other, after);
}

/// A full wantlist parts what was wanted before it in two: the duplicates,
/// which are wanted after it too, and the synthetic cancels, which are not.
/// Every entry from before is in one of the two. Where nothing was wanted
/// before, there are neither; where all of it is wanted again, there are no
/// synthetic cancels; where none of it is, there are no duplicates.
pub proof fn lemma_full_wantlist_parts_the_old_entries(
    old_entries: Seq<(Text, Timestamp)>,
    new_entries: Seq<(Text, Timestamp)>,
    cid: Text,
)
    ensures
        has_key(restricted_to(old_entries, key_set(new_entries)), cid) <==> (has_key(
            old_entries,
            cid,
        ) && has_key(new_entries, cid)),
        has_key(excluding(old_entries, key_set(new_entries)), cid) <==> (has_key(old_entries, cid)
            && !has_key(new_entries, cid)),
        restricted_to(old_entries, key_set(new_entries)).len() + excluding(
            old_entries,
            key_set(new_entries),
        ).len() == old_entries.len(),
        old_entries.len() == 0 ==> full_wantlist_duplicates(old_entries, new_entries) is None
            && full_wantlist_synth_cancels(old_entries, new_entries) is None,
        (forall|i: int|
            0 <= i < old_entries.len() ==> has_key(new_entries, (#[trigger] old_entries[i]).0))
            ==> full_wantlist_synth_cancels(old_entries, new_entries) is None,
        (forall|i: int|
            0 <= i < old_entries.len() ==> !has_key(new_entries, (#[trigger] old_entries[i]).0))
            ==> full_wantlist_duplicates(old_entries, new_entries) is None,
{
    lemma_restricted_has_key(old_entries, key_set(new_entries), cid);
    lemma_excluding_has_key(old_entries, key_set(new_entries), cid);
    lemma_partition_len(old_entries, key_set(new_entries));
    lemma_restricted_all_or_none(old_entries, key_set(new_entries));
}

/// An incremental update without entries leaves the ledger as it is.
pub proof fn lemma_empty_update_changes_nothing(l: LedgerView, ts: Timestamp)
    ensures
        l.updated(Seq::empty(), Seq::empty(), ts) == l,
{
}

/// A cancel for an identifier that the peer does not want leaves the ledger
/// as it is, and its row is a cancel row.
pub proof fn lemma_cancel_of_unknown_changes_nothing(l: LedgerView, entry: EntryView, ts: Timestamp)
    requires
        l.wf(),
        entry.cancel,
        !has_key(l.wanted_entries, entry.cid),
    ensures
        cids_of(wanted(seq![entry])).len() == 0,
        cids_of(cancelled(seq![entry])) == seq![entry.cid],
        l.updated(cids_of(wanted(seq![entry])), cids_of(cancelled(seq![entry])), ts) == l,
        entry_type_of(entry) == Some(CSV_ENTRY_TYPE_CANCEL),
{
    let only = seq![entry];
    let nothing = Seq::<EntryView>::empty();
    assert(only.drop_last() =~= nothing);
    assert(only.last() == entry);
    assert(wanted(nothing) == nothing);
    assert(cancelled(nothing) == nothing);
    assert(wanted(only) =~= nothing);
    assert(cancelled(only) =~= seq![entry]);
    let keys = cids_of(cancelled(only));
    assert(keys =~= seq![entry.cid]);
    assert(keys.drop_last() =~= Seq::<Text>::empty());
    assert(keys.last() == entry.cid);
    assert(remove_all(l.wanted_entries, keys.drop_last()) == l.wanted_entries);
    lemma_without_absent_key(l.wanted_entries, entry.cid);
    assert(cids_of(wanted(only)).len() == 0);
}

/// The same full wantlist twice in a row: the second time every entry of it
/// is a full wantlist duplicate, and there is no synthetic cancel. There are
/// no duplicates exactly when the wantlist is empty.
pub proof fn lemma_same_full_wantlist_twice(
    l: LedgerView,
    wants: Seq<Text>,
    first: Timestamp,
    second: Timestamp,
)
    requires
        l.wf(),
    ensures
        full_wantlist_synth_cancels(
            l.replaced(wants, first).wanted_entries,
            l.replaced(wants, first).replaced(wants, second).wanted_entries,
        ) is None,
        full_wantlist_duplicates(
            l.replaced(wants, first).wanted_entries,
            l.replaced(wants, first).replaced(wants, second).wanted_entries,
        ) is None <==> wants.len() == 0,
        wants.len() > 0 ==> full_wantlist_duplicates(
            l.replaced(wants, first).wanted_entries,
            l.replaced(wants, first).replaced(wants, second).wanted_entries,
        ) == Some(l.replaced(wants, first).wanted_entries),
        forall|i: int|
            0 <= i < wants.len() ==> has_key(
                l.replaced(wants, first).wanted_entries,
                #[trigger] wants[i],
            ) && has_key(l.replaced(wants, first).replaced(wants, second).wanted_entries, wants[i]),
{
    let none = Seq::<(Text, Timestamp)>::empty();
    let old_entries = upsert_all(none, wants, first);
    let new_entries = upsert_all(none, wants, second);
    let keys = key_set(new_entries);
    assert forall|i: int| 0 <= i < old_entries.len() implies keys.contains(
        (#[trigger] old_entries[i]).0,
    ) by {
        let cid = old_entries[i].0;
        lemma_upsert_all_lookup(none, wants, first, cid);
        lemma_upsert_all_lookup(none, wants, second, cid);
    }
    lemma_restricted_all_or_none(old_entries, keys);
    assert forall|i: int| 0 <= i < wants.len() implies has_key(old_entries, #[trigger] wants[i])
        && has_key(new_entries, wants[i]) by {
        lemma_upsert_all_lookup(none, wants, first, wants[i]);
        lemma_upsert_all_lookup(none, wants, second, wants[i]);
    }
    if wants.len() > 0 {
        lemma_upsert_all_lookup(none, wants, first, wants[0]);
        assert(has_key(old_entries, wants[0]));
    } else {
        assert(old_entries == none);
    }
}

/// A disconnect that takes the last connection from a peer that wants
/// nothing sets nothing aside: what was set aside before stays as it is.
pub proof fn lemma_disconnect_without_wants_sets_nothing_aside(l: LedgerView)
    requires
        l.connection_count == 1,
        l.wanted_entries.len() == 0,
    ensures
        l.after_disconnect().connection_count == 0,
        l.after_disconnect().wanted_entries_before_disconnect
            == l.wanted_entries_before_disconnect,
        l.after_disconnect().wanted_entries == l.wanted_entries,
{
}

/// The rows of a wantlist message, one by one: first the rows of the
/// entries, marked; then the synthetic cancels, unmarked.
pub proof fn lemma_wantlist_row(cfg: ConfigView, l: LedgerView, m: MessageView, id: i64, i: int)
    requires
        m.received_entries is Some,
        0 <= i < wantlist_rows(cfg, l, m, id).len(),
    ensures
        i < m.received_entries->0.len() ==> wantlist_rows(cfg, l, m, id)[i] == marked(
            crate::wantlist::entry_row(m, id, m.received_entries->0[i]),
            full_wantlist_dup(cfg, l, m, m.received_entries->0[i].cid),
            reconnect_dup(cfg, l, m, m.received_entries->0[i].cid),
            sliding_window_dup(cfg, l, m, m.received_entries->0[i].cid),
        ),
        i >= m.received_entries->0.len() ==> wantlist_rows(cfg, l, m, id)[i]
            == full_wantlist_cancel_rows(cfg, l, m, id)[i - m.received_entries->0.len()]
            && wantlist_rows(cfg, l, m, id)[i].duplicate_status == CSV_DUPLICATE_STATUS_NO_DUP
            && wantlist_rows(cfg, l, m, id)[i].sliding_window_smallest_match == 0,
{
    let head = marked_entry_rows(cfg, l, m, id);
    let tail = full_wantlist_cancel_rows(cfg, l, m, id);
    assert(head.len() == m.received_entries->0.len());
    if i < head.len() {
        assert((head + tail)[i] == head[i]);
    } else {
        assert((head + tail)[i] == tail[i - head.len()]);
    }
}

/// Every row of a wantlist message carries the sliding window bit exactly
/// when it names a window, and the window it names is positive.
pub proof fn lemma_window_bit_iff_window(
    cfg: ConfigView,
    l: LedgerView,
    m: MessageView,
    id: i64,
    i: int,
)
    requires
        crate::model::windows_positive(cfg.sliding_window_lengths),
        m.received_entries is Some,
        0 <= i < wantlist_rows(cfg, l, m, id).len(),
    ensures
        (wantlist_rows(cfg, l, m, id)[i].sliding_window_smallest_match > 0) == (wantlist_rows(
            cfg,
            l,
            m,
            id,
        )[i].duplicate_status & CSV_DUPLICATE_STATUS_DUP_SLIDING_WINDOW != 0),
{
    let entries = m.received_entries->0;
    lemma_wantlist_row(cfg, l, m, id, i);
    if i < entries.len() {
        let cid = entries[i].cid;
        lemma_status_bits(
            full_wantlist_dup(cfg, l, m, cid),
            reconnect_dup(cfg, l, m, cid),
            sliding_window_dup(cfg, l, m, cid) is Some,
        );
        lemma_window_match_positive(
            l.wanted_entries,
            cfg.sliding_window_lengths,
            m.timestamp,
            want_cids(m).to_set(),
            cid,
        );
    } else {
        lemma_status_bits(false, false, false);
    }
}

/// The rows that are written without a message to mark, the synthetic
/// cancels of a disconnect and of the end of a run, carry no bit and name no
/// window.
pub proof fn lemma_synthetic_rows_are_unmarked(
    e: EngineView,
    m: MessageView,
    id: i64,
    ts: Timestamp,
    start_id: int,
    i: int,
)
    ensures
        disconnect_cancel_rows(e, m, id) is Some && 0 <= i < disconnect_cancel_rows(
            e,
            m,
            id,
        )->0.len() ==> disconnect_cancel_rows(e, m, id)->0[i].duplicate_status
            == CSV_DUPLICATE_STATUS_NO_DUP && disconnect_cancel_rows(
            e,
            m,
            id,
        )->0[i].sliding_window_smallest_match == 0,
        0 <= i < flush_rows(e.peers, ts, start_id).len() ==> flush_rows(
            e.peers,
            ts,
            start_id,
        )[i].duplicate_status == CSV_DUPLICATE_STATUS_NO_DUP && flush_rows(
            e.peers,
            ts,
            start_id,
        )[i].sliding_window_smallest_match == 0,
{
    lemma_flush_rows(e.peers, ts, start_id, i);
}

/// What the rows at the end of a run are: as many as entries are wanted, the
/// row at `i` with the id `start_id + i`, unmarked, a synthetic cancel of a
/// disconnect, at the time `ts`.
pub proof fn lemma_flush_rows(peers: Seq<(Text, LedgerView)>, ts: Timestamp, start_id: int, i: int)
    ensures
        flush_rows(peers, ts, start_id).len() == total_wanted(peers),
        0 <= i < flush_rows(peers, ts, start_id).len() ==> {
            let row = flush_rows(peers, ts, start_id)[i];
            &&& row.message_id == (start_id + i) as i64
            &&& row.duplicate_status == CSV_DUPLICATE_STATUS_NO_DUP
            &&& row.sliding_window_smallest_match == 0
            &&& row.entry_type == CSV_ENTRY_TYPE_SYNTHETIC_CANCEL_DISCONNECT
            &&& row.timestamp_seconds == ts.seconds
        },
    decreases peers.len(),
{
    if peers.len() > 0 {
        lemma_flush_rows(peers.drop_last(), ts, start_id, i);
    }
}

/// The ids of the rows at the end of a run ascend strictly, as long as they
/// stay within the range of message ids.
pub proof fn lemma_flush_ids_ascend(
    peers: Seq<(Text, LedgerView)>,
    ts: Timestamp,
    start_id: i64,
    i: int,
    j: int,
)
    requires
        start_id + total_wanted(peers) <= i64::MAX + 1,
        0 <= i < j < flush_rows(peers, ts, start_id as int).len(),
    ensures
        flush_rows(peers, ts, start_id as int)[i].message_id < flush_rows(
            peers,
            ts,
            start_id as int,
        )[j].message_id,
{
    lemma_flush_rows(peers, ts, start_id as int, i);
    lemma_flush_rows(peers, ts, start_id as int, j);
}

/// Every row that a message yields carries the id of the message.
pub proof fn lemma_rows_carry_message_id(e: EngineView, m: MessageView, id: i64, i: int)
    ensures
        ingest_outcome(e, m, id).connection_event is Some ==> ingest_outcome(
            e,
            m,
            id,
        ).connection_event->0.message_id == id,
        ingest_outcome(e, m, id).wantlist_entries is Some && 0 <= i < ingest_outcome(
            e,
            m,
            id,
        ).wantlist_entries->0.len() ==> ingest_outcome(e, m, id).wantlist_entries->0[i].message_id
            == id,
{
}

/// An entry that lies within a window lies within every longer one: the
/// entries that lie within any window are those that lie within the longest.
pub proof fn lemma_windows_nest(entry_ts: Timestamp, msg_ts: Timestamp, shorter: u32, longer: u32)
    requires
        shorter <= longer,
        crate::model::within_window(entry_ts, shorter, msg_ts),
    ensures
        crate::model::within_window(entry_ts, longer, msg_ts),
{
}

/// Among windows that ascend, the window that a sliding window duplicate
/// names is the shortest within which its entry lies.
pub proof fn lemma_smallest_window_is_least(
    windows: Seq<u32>,
    entry_ts: Timestamp,
    msg_ts: Timestamp,
    i: int,
)
    requires
        crate::model::windows_ascend(windows),
        0 <= i < windows.len(),
        crate::model::within_window(entry_ts, windows[i], msg_ts),
    ensures
        crate::model::smallest_window(windows, entry_ts, msg_ts) <= windows[i],
        crate::model::within_window(
            entry_ts,
            crate::model::smallest_window(windows, entry_ts, msg_ts),
            msg_ts,
        ),
    decreases windows.len(),
{
    if !crate::model::within_window(entry_ts, windows[0], msg_ts) {
        let rest = windows.drop_first();
        assert forall|a: int, b: int| 0 <= a <= b < rest.len() implies rest[a] <= rest[b] by {
            assert(rest[a] == windows[a + 1] && rest[b] == windows[b + 1]);
        }
        assert(rest[i - 1] == windows[i]);
        lemma_smallest_window_is_least(rest, entry_ts, msg_ts, i - 1);
    } else {
        assert(windows[0] <= windows[i]);
    }
}

/// Without a sliding window no row is a sliding window duplicate.
pub proof fn lemma_no_window_no_window_duplicates(
    cfg: ConfigView,
    l: LedgerView,
    m: MessageView,
    id: i64,
    i: int,
)
    requires
        cfg.sliding_window_lengths.len() == 0,
        m.received_entries is Some,
        0 <= i < wantlist_rows(cfg, l, m, id).len(),
    ensures
        wantlist_rows(cfg, l, m, id)[i].duplicate_status & CSV_DUPLICATE_STATUS_DUP_SLIDING_WINDOW
            == 0,
        wantlist_rows(cfg, l, m, id)[i].sliding_window_smallest_match == 0,
{
    let entries = m.received_entries->0;
    lemma_wantlist_row(cfg, l, m, id, i);
    if i < entries.len() {
        let cid = entries[i].cid;
        lemma_status_bits(
            full_wantlist_dup(cfg, l, m, cid),
            reconnect_dup(cfg, l, m, cid),
            false,
        );
    } else {
        lemma_status_bits(false, false, false);
    }
}

/// Once the time after a reconnect in which wants count as duplicates has
/// passed, no row is a reconnect duplicate, whatever the message asks for,
/// and nothing stays set aside.
pub proof fn lemma_no_reconnect_duplicates_after_window(
    cfg: ConfigView,
    l: LedgerView,
    m: MessageView,
    id: i64,
    i: int,
)
    requires
        m.received_entries is Some,
        !l.reconnect_window_open(m.timestamp, cfg.reconnect_duplicate_duration_secs),
        0 <= i < wantlist_rows(cfg, l, m, id).len(),
    ensures
        wantlist_rows(cfg, l, m, id)[i].duplicate_status & CSV_DUPLICATE_STATUS_DUP_RECONNECT == 0,
        ledger_after_wantlist(cfg, l, m).wanted_entries_before_disconnect is None,
{
    let entries = m.received_entries->0;
    lemma_wantlist_row(cfg, l, m, id, i);
    if i < entries.len() {
        let cid = entries[i].cid;
        lemma_status_bits(
            full_wantlist_dup(cfg, l, m, cid),
            false,
            sliding_window_dup(cfg, l, m, cid) is Some,
        );
    } else {
        lemma_status_bits(false, false, false);
    }
}

/// The three detectors whose marks the options switch on and off.
pub enum Detector {
    FullWantlist,
    Reconnect,
    SlidingWindow,
}

impl Detector {
    /// The bit of the detector in the duplicate status.
    pub open spec fn bit(self) -> u32 {
        match self {
            Detector::FullWantlist => CSV_DUPLICATE_STATUS_DUP_FULL_WANTLIST,
            Detector::Reconnect => CSV_DUPLICATE_STATUS_DUP_RECONNECT,
            Detector::SlidingWindow => CSV_DUPLICATE_STATUS_DUP_SLIDING_WINDOW,
        }
    }

    /// `cfg` with the marks of the detector switched on or off.
    pub open spec fn switched(self, cfg: ConfigView, on: bool) -> ConfigView {
        ConfigView {
            allow_empty_full_wantlist: cfg.allow_empty_full_wantlist,
            allow_empty_connection_event: cfg.allow_empty_connection_event,
            insert_full_wantlist_synth_cancels: cfg.insert_full_wantlist_synth_cancels,
            insert_disconnect_synth_cancels: cfg.insert_disconnect_synth_cancels,
            insert_full_wantlist_duplicate_markers: if self is FullWantlist {
                on
            } else {
                cfg.insert_full_wantlist_duplicate_markers
            },
            insert_reconnect_duplicate_markers: if self is Reconnect {
                on
            } else {
                cfg.insert_reconnect_duplicate_markers
            },
            reconnect_duplicate_duration_secs: cfg.reconnect_duplicate_duration_secs,
            insert_sliding_window_duplicate_markers: if self is SlidingWindow {
                on
            } else {
                cfg.insert_sliding_window_duplicate_markers
            },
            sliding_window_lengths: cfg.sliding_window_lengths,
        }
    }

    /// `row` without the mark of the detector: its bit is cleared, and with
    /// the bit of the sliding window detector the window that the row names.
    pub open spec fn unmarked(self, row: RowView) -> RowView {
        RowView {
            message_id: row.message_id,
            message_type: row.message_type,
            timestamp_seconds: row.timestamp_seconds,
            timestamp_subsec_milliseconds: row.timestamp_subsec_milliseconds,
            peer_id: row.peer_id,
            address: row.address,
            priority: row.priority,
            entry_type: row.entry_type,
            cid: row.cid,
            duplicate_status: row.duplicate_status & !self.bit(),
            sliding_window_smallest_match: if self is SlidingWindow {
                0
            } else {
                row.sliding_window_smallest_match
            },
        }
    }

    /// `rows`, each without the mark of the detector.
    pub open spec fn all_unmarked(self, rows: Option<Seq<RowView>>) -> Option<Seq<RowView>> {
        match rows {
            Some(rows) => Some(Seq::new(rows.len(), |i: int| self.unmarked(rows[i]))),
            None => None,
        }
    }
}

/// A duplicate status without bits stays as it is when a bit is cleared.
proof fn lemma_zero_has_no_bit(d: Detector)
    ensures
        CSV_DUPLICATE_STATUS_NO_DUP & !d.bit() == CSV_DUPLICATE_STATUS_NO_DUP,
{
    assert(0u32 & !1u32 == 0u32 && 0u32 & !2u32 == 0u32 && 0u32 & !4u32 == 0u32) by (bit_vector);
}

/// The marks of the detectors can be switched independently. With the marks
/// of one detector switched off, the engine refuses the same messages, keeps
/// the same ledgers and writes the same rows as with the marks switched on,
/// but for the mark of that detector, which every row then lacks.
pub proof fn lemma_marks_switch_independently(
    peers: Seq<(Text, LedgerView)>,
    cfg: ConfigView,
    d: Detector,
    m: MessageView,
    id: i64,
)
    ensures
        ({
            let on = EngineView { peers, cfg: d.switched(cfg, true) };
            let off = EngineView { peers, cfg: d.switched(cfg, false) };
            &&& ingest_error(off, m) == ingest_error(on, m)
            &&& after_ingest(off, m).peers == after_ingest(on, m).peers
            &&& ingest_outcome(off, m, id).missing_ledger == ingest_outcome(
                on,
                m,
                id,
            ).missing_ledger
            &&& ingest_outcome(off, m, id).connection_event == ingest_outcome(
                on,
                m,
                id,
            ).connection_event
            &&& ingest_outcome(off, m, id).wantlist_entries == d.all_unmarked(
                ingest_outcome(on, m, id).wantlist_entries,
            )
        }),
{
    let on = EngineView { peers, cfg: d.switched(cfg, true) };
    let off = EngineView { peers, cfg: d.switched(cfg, false) };
    let rows_on = ingest_outcome(on, m, id).wantlist_entries;
    let rows_off = ingest_outcome(off, m, id).wantlist_entries;
    if m.received_entries is Some {
        let l = ledger_for_wantlist(peers, m.peer, m.timestamp);
        let entries = m.received_entries->0;
        let a = rows_on->0;
        let b = rows_off->0;
        assert(a.len() == b.len());
        assert forall|i: int| 0 <= i < a.len() implies b[i] == d.unmarked(a[i]) by {
            lemma_wantlist_row(on.cfg, l, m, id, i);
            lemma_wantlist_row(off.cfg, l, m, id, i);
            if i < entries.len() {
                let cid = entries[i].cid;
                lemma_status_bits(
                    full_wantlist_dup(on.cfg, l, m, cid),
                    reconnect_dup(on.cfg, l, m, cid),
                    sliding_window_dup(on.cfg, l, m, cid) is Some,
                );
            } else {
                lemma_status_bits(false, false, false);
                lemma_zero_has_no_bit(d);
            }
        }
        assert(rows_off->0 =~= d.all_unmarked(rows_on)->0);
    } else if rows_on is Some {
        let a = rows_on->0;
        let b = rows_off->0;
        assert forall|i: int| 0 <= i < a.len() implies b[i] == d.unmarked(a[i]) by {
            lemma_zero_has_no_bit(d);
        }
        assert(rows_off->0 =~= d.all_unmarked(rows_on)->0);
    }
}

} // verus!

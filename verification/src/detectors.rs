//! The sliding window detector, and the marking of rows as duplicates.

use vstd::prelude::*;
use crate::ledger::{cids_of, entries_view, refs_view, Ledger, WantlistEntry};
use crate::model::{marked, smallest_window, window_match, within_window};
use crate::sorted::{
    has_key,
    keys_sorted,
    lemma_found_iff_has_key,
    lemma_key_index_unique,
    lemma_lookup_push,
    lemma_rank_bounds,
    lookup,
    pairs,
    search,
    Keyed,
    Text,
};
use crate::timestamp::Timestamp;
use crate::wantlist::{
    CSVWantlistEntry,
    JSONWantlistEntry,
    CSV_DUPLICATE_STATUS_DUP_FULL_WANTLIST,
    CSV_DUPLICATE_STATUS_DUP_RECONNECT,
    CSV_DUPLICATE_STATUS_DUP_SLIDING_WINDOW,
    CSV_DUPLICATE_STATUS_NO_DUP,
};

verus! {

impl Keyed for (WantlistEntry, u32) {
    type Value = (Timestamp, u32);

    open spec fn pair(&self) -> (Text, (Timestamp, u32)) {
        (self.0.cid@, (self.0.ts, self.1))
    }

    fn key(&self) -> (k: &String) {
        &self.0.cid
    }
}

/// The entries of a wantset that lie within the largest window and are
/// among `wants`, in their order, each with the smallest window within which
/// it lies.
pub open spec fn window_matches(
    wanted_entries: Seq<(Text, Timestamp)>,
    windows: Seq<u32>,
    msg_ts: Timestamp,
    wants: Set<Text>,
) -> Seq<(Text, (Timestamp, u32))>
    decreases wanted_entries.len(),
{
    if wanted_entries.len() == 0 {
        Seq::empty()
    } else {
        let rest = window_matches(wanted_entries.drop_last(), windows, msg_ts, wants);
        let e = wanted_entries.last();
        if within_window(e.1, windows.last(), msg_ts) && wants.contains(e.0) {
            rest.push((e.0, (e.1, smallest_window(windows, e.1, msg_ts))))
        } else {
            rest
        }
    }
}

/// What the sliding window detector reports: the matches, absent where no
/// window is configured or nothing matches.
pub open spec fn sliding_window_duplicates(
    wanted_entries: Seq<(Text, Timestamp)>,
    windows: Seq<u32>,
    msg_ts: Timestamp,
    wants: Set<Text>,
) -> Option<Seq<(Text, (Timestamp, u32))>> {
    if windows.len() == 0 || window_matches(wanted_entries, windows, msg_ts, wants).len() == 0 {
        None
    } else {
        Some(window_matches(wanted_entries, windows, msg_ts, wants))
    }
}

/// `cid` is in the list, if there is a list.
pub open spec fn listed<V>(list: Option<Seq<(Text, V)>>, cid: Text) -> bool {
    list is Some && has_key(list->0, cid)
}

/// The window that the list of the sliding window detector holds for `cid`.
pub open spec fn listed_window(list: Option<Seq<(Text, (Timestamp, u32))>>, cid: Text) -> Option<
    u32,
> {
    if list is Some && lookup(list->0, cid) is Some {
        let held = lookup(list->0, cid)->0;
        Some(held.1)
    } else {
        None
    }
}

/// The list of the sliding window detector is sorted, and it holds for every
/// identifier the window that `window_match` names.
pub proof fn lemma_window_matches(
    wanted_entries: Seq<(Text, Timestamp)>,
    windows: Seq<u32>,
    msg_ts: Timestamp,
    wants: Set<Text>,
    cid: Text,
)
    requires
        keys_sorted(wanted_entries),
        windows.len() > 0,
    ensures
        keys_sorted(window_matches(wanted_entries, windows, msg_ts, wants)),
        has_key(window_matches(wanted_entries, windows, msg_ts, wants), cid) ==> has_key(
            wanted_entries,
            cid,
        ),
        listed_window(Some(window_matches(wanted_entries, windows, msg_ts, wants)), cid)
            == window_match(wanted_entries, windows, msg_ts, wants, cid),
    decreases wanted_entries.len(),
{
    let m = window_matches(wanted_entries, windows, msg_ts, wants);
    if wanted_entries.len() == 0 {
        lemma_rank_bounds(m, cid);
        lemma_rank_bounds(wanted_entries, cid);
    } else {
        let head = wanted_entries.drop_last();
        let e = wanted_entries.last();
        let mh = window_matches(head, windows, msg_ts, wants);
        assert(wanted_entries =~= head.push(e));
        assert(wanted_entries[wanted_entries.len() - 1] == e);
        lemma_lookup_push(head, e, cid);
        lemma_window_matches(head, windows, msg_ts, wants, cid);
        lemma_found_iff_has_key(mh, cid);
        if has_key(head, e.0) {
            let k = choose|k: int| 0 <= k < head.len() && (#[trigger] head[k]).0 == e.0;
            assert(wanted_entries[k] == head[k]);
            lemma_key_index_unique(wanted_entries, k, wanted_entries.len() - 1);
        }
        if within_window(e.1, windows.last(), msg_ts) && wants.contains(e.0) {
            let x = (e.0, (e.1, smallest_window(windows, e.1, msg_ts)));
            assert(m == mh.push(x));
            assert forall|i: int, j: int| 0 <= i < j < m.len() implies crate::text::text_lt(
                (#[trigger] m[i]).0,
                (#[trigger] m[j]).0,
            ) by {
                assert(m[i] == mh[i]);
                if j < mh.len() {
                    assert(m[j] == mh[j]);
                } else {
                    lemma_window_matches(head, windows, msg_ts, wants, mh[i].0);
                    assert(has_key(mh, mh[i].0));
                    let k = choose|k: int| 0 <= k < head.len() && (#[trigger] head[k]).0 == mh[i].0;
                    assert(wanted_entries[k] == head[k]);
                }
            }
            assert(keys_sorted(mh.push(x)));
            lemma_lookup_push(mh, x, cid);
        } else {
            assert(m == mh);
        }
    }
}

/// Under windows of positive length every window that is reported is
/// positive.
pub proof fn lemma_window_match_positive(
    wanted_entries: Seq<(Text, Timestamp)>,
    windows: Seq<u32>,
    msg_ts: Timestamp,
    wants: Set<Text>,
    cid: Text,
)
    requires
        forall|i: int| 0 <= i < windows.len() ==> windows[i] > 0,
    ensures
        window_match(wanted_entries, windows, msg_ts, wants, cid) is Some ==> window_match(
            wanted_entries,
            windows,
            msg_ts,
            wants,
            cid,
        )->0 > 0,
{
    if window_match(wanted_entries, windows, msg_ts, wants, cid) is Some {
        lemma_smallest_window(windows, lookup(wanted_entries, cid)->0, msg_ts);
    }
}

/// An entry that lies within the last window lies within the window that
/// `smallest_window` names, which is one of the windows.
pub proof fn lemma_smallest_window(windows: Seq<u32>, entry_ts: Timestamp, msg_ts: Timestamp)
    requires
        windows.len() > 0,
        within_window(entry_ts, windows.last(), msg_ts),
    ensures
        windows.contains(smallest_window(windows, entry_ts, msg_ts)),
        within_window(entry_ts, smallest_window(windows, entry_ts, msg_ts), msg_ts),
    decreases windows.len(),
{
    if within_window(entry_ts, windows[0], msg_ts) {
        assert(windows[0] == smallest_window(windows, entry_ts, msg_ts));
    } else {
        let rest = windows.drop_first();
        assert(rest.len() > 0);
        assert(rest.last() == windows.last());
        lemma_smallest_window(rest, entry_ts, msg_ts);
        let w = smallest_window(rest, entry_ts, msg_ts);
        let i = choose|i: int| 0 <= i < rest.len() && rest[i] == w;
        assert(windows[i + 1] == w);
    }
}

/// Whether `cid` is among the identifiers of `wants`.
pub fn contains_cid(wants: &Vec<&JSONWantlistEntry>, cid: &String) -> (r: bool)
    ensures
        r == cids_of(refs_view(wants@)).contains(cid@),
{
    let ghost keys = cids_of(refs_view(wants@));
    let mut i: usize = 0;
    while i < wants.len()
        invariant
            i <= wants.len(),
            keys == cids_of(refs_view(wants@)),
            forall|j: int| 0 <= j < i ==> keys[j] != cid@,
        decreases wants.len() - i,
    {
        if wants[i].cid.path == *cid {
            assert(keys[i as int] == cid@);
            return true;
        }
        i += 1;
    }
    false
}

/// The first of `windows` within which an entry last seen at `entry_ts`
/// lies, or zero.
pub fn smallest_matching_window(windows: &Vec<u32>, entry_ts: &Timestamp, msg_ts: &Timestamp) -> (r:
    u32)
    ensures
        r == smallest_window(windows@, *entry_ts, *msg_ts),
{
    let mut i: usize = 0;
    assert(windows@.skip(0) =~= windows@);
    while i < windows.len()
        invariant
            i <= windows.len(),
            smallest_window(windows@, *entry_ts, *msg_ts) == smallest_window(
                windows@.skip(i as int),
                *entry_ts,
                *msg_ts,
            ),
        decreases windows.len() - i,
    {
        let ghost rest = windows@.skip(i as int);
        assert(rest[0] == windows@[i as int]);
        assert(rest.drop_first() =~= windows@.skip(i + 1));
        if entry_ts.is_after_when_advanced(windows[i], msg_ts) {
            return windows[i];
        }
        i += 1;
    }
    0
}

/// The sliding window detector. It looks at the ledger as it is before the
/// message is applied, and reports every entry that the message asks for
/// again within the largest window, with the smallest window that the entry
/// lies within.
pub fn get_duplicate_entries_from_sliding_windows(
    sliding_window_lengths: &Vec<u32>,
    ledger: &Ledger,
    msg_ts: Timestamp,
    new_entries: &Vec<&JSONWantlistEntry>,
) -> (r: Option<Vec<(WantlistEntry, u32)>>)
    ensures
        match r {
            Some(v) => sliding_window_duplicates(
                ledger@.wanted_entries,
                sliding_window_lengths@,
                msg_ts,
                cids_of(refs_view(new_entries@)).to_set(),
            ) == Some(pairs(v@)),
            None => sliding_window_duplicates(
                ledger@.wanted_entries,
                sliding_window_lengths@,
                msg_ts,
                cids_of(refs_view(new_entries@)).to_set(),
            ) is None,
        },
{
    if sliding_window_lengths.len() == 0 {
        return None;
    }
    let largest = sliding_window_lengths[sliding_window_lengths.len() - 1];
    let entries = ledger.wanted_entries();
    let ghost source = entries_view(entries@);
    let ghost wants = cids_of(refs_view(new_entries@)).to_set();
    let mut dups: Vec<(WantlistEntry, u32)> = Vec::new();
    let mut i: usize = 0;
    while i < entries.len()
        invariant
            i <= entries.len(),
            sliding_window_lengths.len() > 0,
            largest == sliding_window_lengths@.last(),
            source == entries_view(entries@),
            wants == cids_of(refs_view(new_entries@)).to_set(),
            pairs(dups@) == window_matches(
                source.take(i as int),
                sliding_window_lengths@,
                msg_ts,
                wants,
            ),
        decreases entries.len() - i,
    {
        let entry = &entries[i];
        let ghost before = pairs(dups@);
        proof {
            let next = source.take(i + 1);
            assert(next.drop_last() =~= source.take(i as int));
            assert(next.last() == entry@);
        }
        if entry.ts.is_after_when_advanced(largest, &msg_ts) && contains_cid(
            new_entries,
            &entry.cid,
        ) {
            let window = smallest_matching_window(sliding_window_lengths, &entry.ts, &msg_ts);
            dups.push((WantlistEntry { cid: entry.cid.clone(), ts: entry.ts }, window));
            assert(pairs(dups@) =~= before.push((entry@.0, (entry@.1, window))));
        }
        i += 1;
    }
    assert(source.take(entries.len() as int) =~= source);
    if dups.len() == 0 {
        None
    } else {
        Some(dups)
    }
}

/// The view of an optional list of entries.
pub open spec fn optional_entries(list: Option<Vec<WantlistEntry>>) -> Option<
    Seq<(Text, Timestamp)>,
> {
    match list {
        Some(v) => Some(entries_view(v@)),
        None => None,
    }
}

/// The view of the optional list of the sliding window detector.
pub open spec fn optional_matches(list: Option<Vec<(WantlistEntry, u32)>>) -> Option<
    Seq<(Text, (Timestamp, u32))>,
> {
    match list {
        Some(v) => Some(pairs(v@)),
        None => None,
    }
}

/// Marks every row as the duplicate that the three lists make it: a full
/// wantlist duplicate and a reconnect duplicate where its identifier is in
/// the list, a sliding window duplicate with the window that the list holds
/// for its identifier.
pub fn mark_rows(
    rows: &mut Vec<CSVWantlistEntry>,
    full_wl_dups: &Option<Vec<WantlistEntry>>,
    reconnect_dups: &Option<Vec<WantlistEntry>>,
    sliding_window_dups: &Option<Vec<(WantlistEntry, u32)>>,
)
    requires
        full_wl_dups matches Some(v) ==> keys_sorted(entries_view(v@)),
        reconnect_dups matches Some(v) ==> keys_sorted(entries_view(v@)),
        sliding_window_dups matches Some(v) ==> keys_sorted(pairs(v@)),
    ensures
        final(rows).len() == old(rows).len(),
        forall|i: int|
            0 <= i < old(rows).len() ==> (#[trigger] final(rows)@[i])@ == marked(
                old(rows)@[i]@,
                listed(optional_entries(*full_wl_dups), old(rows)@[i]@.cid),
                listed(optional_entries(*reconnect_dups), old(rows)@[i]@.cid),
                listed_window(optional_matches(*sliding_window_dups), old(rows)@[i]@.cid),
            ),
{
    let mut i: usize = 0;
    while i < rows.len()
        invariant
            i <= rows.len(),
            rows.len() == old(rows).len(),
            full_wl_dups matches Some(v) ==> keys_sorted(entries_view(v@)),
            reconnect_dups matches Some(v) ==> keys_sorted(entries_view(v@)),
            sliding_window_dups matches Some(v) ==> keys_sorted(pairs(v@)),
            forall|j: int| i <= j < rows.len() ==> rows@[j] == old(rows)@[j],
            forall|j: int|
                0 <= j < i ==> (#[trigger] rows@[j])@ == marked(
                    old(rows)@[j]@,
                    listed(optional_entries(*full_wl_dups), old(rows)@[j]@.cid),
                    listed(optional_entries(*reconnect_dups), old(rows)@[j]@.cid),
                    listed_window(optional_matches(*sliding_window_dups), old(rows)@[j]@.cid),
                ),
        decreases rows.len() - i,
    {
        let full = match full_wl_dups {
            Some(dups) => search(dups, rows[i].cid.as_str()).1,
            None => false,
        };
        let reconnect = match reconnect_dups {
            Some(dups) => search(dups, rows[i].cid.as_str()).1,
            None => false,
        };
        let window = match sliding_window_dups {
            Some(dups) => {
                let (at, present) = search(dups, rows[i].cid.as_str());
                if present {
                    Some(dups[at].1)
                } else {
                    None
                }
            },
            None => None,
        };
        let full_bit = if full {
            CSV_DUPLICATE_STATUS_DUP_FULL_WANTLIST
        } else {
            CSV_DUPLICATE_STATUS_NO_DUP
        };
        let reconnect_bit = if reconnect {
            CSV_DUPLICATE_STATUS_DUP_RECONNECT
        } else {
            CSV_DUPLICATE_STATUS_NO_DUP
        };
        let window_bit = if window.is_some() {
            CSV_DUPLICATE_STATUS_DUP_SLIDING_WINDOW
        } else {
            CSV_DUPLICATE_STATUS_NO_DUP
        };
        rows[i].duplicate_status = full_bit | reconnect_bit | window_bit;
        rows[i].sliding_window_smallest_match = match window {
            Some(w) => w,
            None => 0,
        };
        i += 1;
    }
}

} // verus!

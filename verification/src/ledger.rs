//! The ledger: what one peer currently wants, how often it is connected, and
//! what it wanted when it was last disconnected.

use vstd::prelude::*;
use crate::error::EngineError;
use crate::sorted::{
    excluding,
    key_set,
    keys_sorted,
    lemma_selection_sorted,
    lemma_upsert_sorted,
    lemma_without_key_sorted,
    pairs,
    remove_all,
    restricted_to,
    search,
    upsert,
    upsert_all,
    without_key,
    Keyed,
    Text,
};
use crate::timestamp::Timestamp;
use crate::wantlist::{message_entries_view, EntryView, JSONWantlistEntry};

verus! {

/// One wanted content identifier and the time at which it was last asked for.
#[derive(Clone, Debug, PartialEq, Eq)]
pub struct WantlistEntry {
    pub cid: String,
    pub ts: Timestamp,
}

impl View for WantlistEntry {
    type V = (Text, Timestamp);

    open spec fn view(&self) -> (Text, Timestamp) {
        (self.cid@, self.ts)
    }
}

impl Keyed for WantlistEntry {
    type Value = Timestamp;

    open spec fn pair(&self) -> (Text, Timestamp) {
        (self.cid@, self.ts)
    }

    fn key(&self) -> (k: &String) {
        &self.cid
    }
}

/// The entries of `v` as pairs of identifier and time, in their order.
pub open spec fn entries_view(v: Seq<WantlistEntry>) -> Seq<(Text, Timestamp)> {
    pairs(v)
}

/// The views of the referenced entries, in their order.
pub open spec fn refs_view(v: Seq<&JSONWantlistEntry>) -> Seq<EntryView> {
    Seq::new(v.len(), |i: int| (*v[i])@)
}

/// The identifiers of `entries`, in their order.
pub open spec fn cids_of(entries: Seq<EntryView>) -> Seq<Text> {
    Seq::new(entries.len(), |i: int| entries[i].cid)
}

/// The entries that ask for something, in their order.
pub open spec fn wanted(entries: Seq<EntryView>) -> Seq<EntryView>
    decreases entries.len(),
{
    if entries.len() == 0 {
        entries
    } else if entries.last().cancel {
        wanted(entries.drop_last())
    } else {
        wanted(entries.drop_last()).push(entries.last())
    }
}

/// The entries that cancel something, in their order.
pub open spec fn cancelled(entries: Seq<EntryView>) -> Seq<EntryView>
    decreases entries.len(),
{
    if entries.len() == 0 {
        entries
    } else if entries.last().cancel {
        cancelled(entries.drop_last()).push(entries.last())
    } else {
        cancelled(entries.drop_last())
    }
}

/// Splits the entries of a message into those that ask for something and
/// those that cancel something, each in the order of the message.
pub fn split_wants_cancels(new_entries: &[JSONWantlistEntry]) -> (r: (
    Vec<&JSONWantlistEntry>,
    Vec<&JSONWantlistEntry>,
))
    ensures
        refs_view(r.0@) == wanted(message_entries_view(new_entries@)),
        refs_view(r.1@) == cancelled(message_entries_view(new_entries@)),
{
    let ghost views = message_entries_view(new_entries@);
    let mut wants: Vec<&JSONWantlistEntry> = Vec::new();
    let mut cancels: Vec<&JSONWantlistEntry> = Vec::new();
    let mut i: usize = 0;
    while i < new_entries.len()
        invariant
            i <= new_entries.len(),
            views == message_entries_view(new_entries@),
            refs_view(wants@) == wanted(views.take(i as int)),
            refs_view(cancels@) == cancelled(views.take(i as int)),
        decreases new_entries.len() - i,
    {
        let entry = &new_entries[i];
        let ghost before_wants = refs_view(wants@);
        let ghost before_cancels = refs_view(cancels@);
        if entry.cancel {
            cancels.push(entry);
            assert(refs_view(cancels@) =~= before_cancels.push(entry@));
        } else {
            wants.push(entry);
            assert(refs_view(wants@) =~= before_wants.push(entry@));
        }
        proof {
            let next = views.take(i + 1);
            assert(next.drop_last() =~= views.take(i as int));
            assert(next.last() == entry@);
        }
        i += 1;
    }
    assert(views.take(new_entries.len() as int) =~= views);
    (wants, cancels)
}

/// Applies an incremental update to a sorted wantset: first every cancel
/// removes its identifier, where it is present; then every want refreshes the
/// time of its identifier, or inserts it at its place.
pub fn apply_new_entries(
    current_entries: &mut Vec<WantlistEntry>,
    wants: &Vec<&JSONWantlistEntry>,
    cancels: &Vec<&JSONWantlistEntry>,
    ts: Timestamp,
)
    requires
        keys_sorted(entries_view(old(current_entries)@)),
    ensures
        entries_view(final(current_entries)@) == upsert_all(
            remove_all(entries_view(old(current_entries)@), cids_of(refs_view(cancels@))),
            cids_of(refs_view(wants@)),
            ts,
        ),
        keys_sorted(entries_view(final(current_entries)@)),
{
    let ghost start = pairs(current_entries@);
    let ghost cancel_keys = cids_of(refs_view(cancels@));
    let ghost want_keys = cids_of(refs_view(wants@));
    let mut i: usize = 0;
    while i < cancels.len()
        invariant
            i <= cancels.len(),
            cancel_keys == cids_of(refs_view(cancels@)),
            keys_sorted(pairs(current_entries@)),
            pairs(current_entries@) == remove_all(start, cancel_keys.take(i as int)),
        decreases cancels.len() - i,
    {
        let cancel = cancels[i];
        let ghost before = pairs(current_entries@);
        let (at, present) = search(current_entries, cancel.cid.path.as_str());
        if present {
            current_entries.remove(at);
        }
        proof {
            let next = cancel_keys.take(i + 1);
            assert(next.drop_last() =~= cancel_keys.take(i as int));
            assert(next.last() == cancel.cid@);
            assert(pairs(current_entries@) =~= without_key(before, cancel.cid@));
            lemma_without_key_sorted(before, cancel.cid@);
        }
        i += 1;
    }
    assert(cancel_keys.take(cancels.len() as int) =~= cancel_keys);
    let ghost middle = pairs(current_entries@);
    let mut i: usize = 0;
    while i < wants.len()
        invariant
            i <= wants.len(),
            want_keys == cids_of(refs_view(wants@)),
            keys_sorted(pairs(current_entries@)),
            pairs(current_entries@) == upsert_all(middle, want_keys.take(i as int), ts),
        decreases wants.len() - i,
    {
        let want = wants[i];
        let ghost before = pairs(current_entries@);
        let (at, present) = search(current_entries, want.cid.path.as_str());
        if present {
            current_entries[at].ts = ts;
        } else {
            current_entries.insert(at, WantlistEntry { cid: want.cid.path.clone(), ts });
        }
        proof {
            let next = want_keys.take(i + 1);
            assert(next.drop_last() =~= want_keys.take(i as int));
            assert(next.last() == want.cid@);
            assert(pairs(current_entries@) =~= upsert(before, want.cid@, ts));
            lemma_upsert_sorted(before, want.cid@, ts);
        }
        i += 1;
    }
    assert(want_keys.take(wants.len() as int) =~= want_keys);
}

/// Moves the entry at `i` out of `v` and leaves an entry with an empty
/// identifier in its place.
fn take_entry(v: &mut Vec<WantlistEntry>, i: usize) -> (r: WantlistEntry)
    requires
        i < old(v).len(),
    ensures
        r@ == old(v)@[i as int]@,
        final(v).len() == old(v).len(),
        forall|j: int| 0 <= j < old(v).len() && j != i ==> final(v)@[j] == old(v)@[j],
{
    let mut cid = String::new();
    std::mem::swap(&mut cid, &mut v[i].cid);
    WantlistEntry { cid, ts: v[i].ts }
}

/// Splits `old_entries` into the entries whose identifier is in `present_in`
/// and those whose identifier is not, each in their order.
pub fn partition_by_presence(
    old_entries: Vec<WantlistEntry>,
    present_in: &Vec<WantlistEntry>,
) -> (r: (Vec<WantlistEntry>, Vec<WantlistEntry>))
    requires
        keys_sorted(entries_view(present_in@)),
    ensures
        entries_view(r.0@) == restricted_to(
            entries_view(old_entries@),
            key_set(entries_view(present_in@)),
        ),
        entries_view(r.1@) == excluding(
            entries_view(old_entries@),
            key_set(entries_view(present_in@)),
        ),
{
    let ghost source = pairs(old_entries@);
    let ghost keys = key_set(pairs(present_in@));
    let mut rest = old_entries;
    let mut kept: Vec<WantlistEntry> = Vec::new();
    let mut dropped: Vec<WantlistEntry> = Vec::new();
    let mut i: usize = 0;
    while i < rest.len()
        invariant
            i <= rest.len(),
            rest.len() == source.len(),
            keys == key_set(pairs(present_in@)),
            keys_sorted(pairs(present_in@)),
            forall|j: int| i <= j < rest.len() ==> (#[trigger] rest@[j])@ == source[j],
            pairs(kept@) == restricted_to(source.take(i as int), keys),
            pairs(dropped@) == excluding(source.take(i as int), keys),
        decreases rest.len() - i,
    {
        let ghost before_kept = pairs(kept@);
        let ghost before_dropped = pairs(dropped@);
        assert(rest@[i as int]@ == source[i as int]);
        let (_, present) = search(present_in, rest[i].cid.as_str());
        let entry = take_entry(&mut rest, i);
        assert(present == keys.contains(entry@.0));
        if present {
            kept.push(entry);
            assert(pairs(kept@) =~= before_kept.push(entry@));
        } else {
            dropped.push(entry);
            assert(pairs(dropped@) =~= before_dropped.push(entry@));
        }
        proof {
            let next = source.take(i + 1);
            assert(next.drop_last() =~= source.take(i as int));
            assert(next.last() == entry@);
        }
        i += 1;
    }
    assert(source.take(rest.len() as int) =~= source);
    (kept, dropped)
}

/// A ledger as contracts see it.
pub struct LedgerView {
    /// The number of connections that are open to the peer.
    pub connection_count: i32,
    /// What the peer currently wants, sorted by identifier.
    pub wanted_entries: Seq<(Text, Timestamp)>,
    /// What the peer wanted when its last connection went away, as far as it
    /// has not been asked for again since.
    pub wanted_entries_before_disconnect: Option<Seq<(Text, Timestamp)>>,
    /// When the peer last went from no connection to one.
    pub connected_ts: Option<Timestamp>,
}

impl LedgerView {
    /// The invariant of every ledger: the connection count is not negative,
    /// the wantset and what was set aside are sorted by identifier without
    /// repetition, and the time of the last connect is known.
    pub open spec fn wf(self) -> bool {
        &&& self.connection_count >= 0
        &&& keys_sorted(self.wanted_entries)
        &&& self.wanted_entries_before_disconnect is Some ==> keys_sorted(
            self.wanted_entries_before_disconnect->0,
        )
        &&& self.connected_ts is Some
    }

    /// A ledger without entries, connected at `ts`.
    pub open spec fn fresh(connection_count: i32, ts: Timestamp) -> LedgerView {
        LedgerView {
            connection_count,
            wanted_entries: Seq::empty(),
            wanted_entries_before_disconnect: None,
            connected_ts: Some(ts),
        }
    }

    /// The ledger once a wantlist has arrived at `ts`: a ledger without
    /// connections counts as connected again, at `ts`.
    pub open spec fn resumed(self, ts: Timestamp) -> LedgerView {
        if self.connection_count == 0 {
            LedgerView {
                connection_count: 1,
                wanted_entries: self.wanted_entries,
                wanted_entries_before_disconnect: self.wanted_entries_before_disconnect,
                connected_ts: Some(ts),
            }
        } else {
            self
        }
    }

    /// The ledger with another wantset.
    pub open spec fn with_wanted(self, wanted_entries: Seq<(Text, Timestamp)>) -> LedgerView {
        LedgerView {
            connection_count: self.connection_count,
            wanted_entries,
            wanted_entries_before_disconnect: self.wanted_entries_before_disconnect,
            connected_ts: self.connected_ts,
        }
    }

    /// The ledger after an incremental update at `ts`.
    pub open spec fn updated(
        self,
        wants: Seq<Text>,
        cancels: Seq<Text>,
        ts: Timestamp,
    ) -> LedgerView {
        self.with_wanted(upsert_all(remove_all(self.wanted_entries, cancels), wants, ts))
    }

    /// The ledger after a full wantlist at `ts`: exactly `wants` are wanted.
    pub open spec fn replaced(self, wants: Seq<Text>, ts: Timestamp) -> LedgerView {
        self.with_wanted(upsert_all(Seq::empty(), wants, ts))
    }

    /// Whether a disconnect takes the last connection away from a peer that
    /// wants something.
    pub open spec fn disconnect_migrates(self) -> bool {
        self.connection_count == 1 && self.wanted_entries.len() > 0
    }

    /// The ledger after one of its connections went away. Where it was the
    /// last one and the wantset is not empty, the wantset is set aside.
    pub open spec fn after_disconnect(self) -> LedgerView {
        if self.disconnect_migrates() {
            LedgerView {
                connection_count: 0,
                wanted_entries: Seq::empty(),
                wanted_entries_before_disconnect: Some(self.wanted_entries),
                connected_ts: self.connected_ts,
            }
        } else {
            LedgerView {
                connection_count: (self.connection_count - 1) as i32,
                wanted_entries: self.wanted_entries,
                wanted_entries_before_disconnect: self.wanted_entries_before_disconnect,
                connected_ts: self.connected_ts,
            }
        }
    }

    /// The ledger after another connection was opened at `ts`.
    pub open spec fn after_connect(self, ts: Timestamp) -> LedgerView {
        LedgerView {
            connection_count: (self.connection_count + 1) as i32,
            wanted_entries: self.wanted_entries,
            wanted_entries_before_disconnect: self.wanted_entries_before_disconnect,
            connected_ts: if self.connection_count == 0 {
                Some(ts)
            } else {
                self.connected_ts
            },
        }
    }

    /// The ledger with its wantset set aside, as after a disconnect that was
    /// never reported.
    pub open spec fn set_aside(self) -> LedgerView {
        LedgerView {
            connection_count: self.connection_count,
            wanted_entries: Seq::empty(),
            wanted_entries_before_disconnect: Some(self.wanted_entries),
            connected_ts: self.connected_ts,
        }
    }

    /// Whether a message of `msg_ts` still falls into the time after the last
    /// connect in which wants from before the disconnect count as duplicates.
    pub open spec fn reconnect_window_open(self, msg_ts: Timestamp, secs: u32) -> bool {
        self.connected_ts is Some && self.connected_ts->0.plus_seconds_after(secs as int, msg_ts)
    }

    /// The entries from before the disconnect that are wanted again now, if
    /// anything was set aside and the window is open.
    pub open spec fn reconnect_duplicates(self, msg_ts: Timestamp, secs: u32) -> Option<
        Seq<(Text, Timestamp)>,
    > {
        if self.wanted_entries_before_disconnect is Some && self.reconnect_window_open(
            msg_ts,
            secs,
        ) {
            Some(
                restricted_to(
                    self.wanted_entries_before_disconnect->0,
                    key_set(self.wanted_entries),
                ),
            )
        } else {
            None
        }
    }

    /// The ledger after the reconnect duplicates were taken: while the window
    /// is open, what was set aside and is not wanted again stays set aside;
    /// once it has closed, nothing does.
    pub open spec fn after_reconnect_check(self, msg_ts: Timestamp, secs: u32) -> LedgerView {
        LedgerView {
            connection_count: self.connection_count,
            wanted_entries: self.wanted_entries,
            wanted_entries_before_disconnect: if self.wanted_entries_before_disconnect is Some
                && self.reconnect_window_open(msg_ts, secs) {
                Some(
                    excluding(
                        self.wanted_entries_before_disconnect->0,
                        key_set(self.wanted_entries),
                    ),
                )
            } else {
                None
            },
            connected_ts: self.connected_ts,
        }
    }
}

/// The state that is kept for one peer.
#[derive(Clone, Debug)]
pub struct Ledger {
    connection_count: i32,
    wanted_entries: Vec<WantlistEntry>,
    wanted_entries_before_disconnect: Option<Vec<WantlistEntry>>,
    connected_ts: Option<Timestamp>,
}

impl View for Ledger {
    type V = LedgerView;

    closed spec fn view(&self) -> LedgerView {
        LedgerView {
            connection_count: self.connection_count,
            wanted_entries: entries_view(self.wanted_entries@),
            wanted_entries_before_disconnect: match self.wanted_entries_before_disconnect {
                Some(v) => Some(entries_view(v@)),
                None => None,
            },
            connected_ts: self.connected_ts,
        }
    }
}

impl Ledger {
    /// The invariant of the ledger.
    pub open spec fn wf(&self) -> bool {
        self@.wf()
    }

    /// A ledger without entries, with `connection_count` connections, the
    /// first of them opened at `connected_ts`.
    pub fn new(connection_count: i32, connected_ts: Timestamp) -> (r: Ledger)
        requires
            connection_count >= 0,
        ensures
            r@ == LedgerView::fresh(connection_count, connected_ts),
            r.wf(),
    {
        let r = Ledger {
            connection_count,
            wanted_entries: Vec::new(),
            wanted_entries_before_disconnect: None,
            connected_ts: Some(connected_ts),
        };
        assert(r@.wanted_entries =~= Seq::empty());
        r
    }

    /// The number of connections that are open to the peer.
    pub fn connection_count(&self) -> (r: i32)
        ensures
            r == self@.connection_count,
    {
        self.connection_count
    }

    /// What the peer currently wants, sorted by identifier.
    pub fn wanted_entries(&self) -> (r: &Vec<WantlistEntry>)
        ensures
            entries_view(r@) == self@.wanted_entries,
    {
        &self.wanted_entries
    }

    /// What was set aside when the last connection of the peer went away.
    pub fn wanted_entries_before_disconnect(&self) -> (r: Option<&Vec<WantlistEntry>>)
        ensures
            match r {
                Some(v) => self@.wanted_entries_before_disconnect == Some(entries_view(v@)),
                None => self@.wanted_entries_before_disconnect is None,
            },
    {
        self.wanted_entries_before_disconnect.as_ref()
    }

    /// When the peer last went from no connection to one.
    pub fn connected_ts(&self) -> (r: Option<Timestamp>)
        ensures
            r == self@.connected_ts,
    {
        self.connected_ts
    }

    /// Notes that a wantlist of the peer has arrived at `ts`: a peer that
    /// sends one is connected, whatever was reported.
    pub fn resume(&mut self, ts: Timestamp)
        requires
            old(self).wf(),
        ensures
            final(self)@ == old(self)@.resumed(ts),
            final(self).wf(),
            final(self)@.connection_count > 0,
    {
        if self.connection_count == 0 {
            self.connection_count = 1;
            self.connected_ts = Some(ts);
        }
    }

    /// Applies an incremental update: the cancels first, then the wants.
    pub fn apply_incremental(
        &mut self,
        wants: &Vec<&JSONWantlistEntry>,
        cancels: &Vec<&JSONWantlistEntry>,
        ts: Timestamp,
    )
        requires
            old(self).wf(),
        ensures
            final(self)@ == old(self)@.updated(
                cids_of(refs_view(wants@)),
                cids_of(refs_view(cancels@)),
                ts,
            ),
            final(self).wf(),
    {
        apply_new_entries(&mut self.wanted_entries, wants, cancels, ts);
    }

    /// Replaces the wantset by `new_wants`, each wanted at `ts`, and returns
    /// the wantset as it was.
    pub fn replace_full(&mut self, new_wants: &Vec<&JSONWantlistEntry>, ts: Timestamp) -> (r: Vec<
        WantlistEntry,
    >)
        requires
            old(self).wf(),
        ensures
            final(self)@ == old(self)@.replaced(cids_of(refs_view(new_wants@)), ts),
            final(self).wf(),
            entries_view(r@) == old(self)@.wanted_entries,
    {
        let mut previous: Vec<WantlistEntry> = Vec::new();
        std::mem::swap(&mut previous, &mut self.wanted_entries);
        let cancels: Vec<&JSONWantlistEntry> = Vec::new();
        assert(pairs(self.wanted_entries@) =~= Seq::empty());
        assert(cids_of(refs_view(cancels@)).len() == 0);
        apply_new_entries(&mut self.wanted_entries, new_wants, &cancels, ts);
        previous
    }

    /// Notes that a connection of the peer went away. The result says whether
    /// the wantset was set aside. A peer without connections cannot lose one.
    pub fn note_disconnect(&mut self) -> (r: Result<bool, EngineError>)
        requires
            old(self).wf(),
        ensures
            final(self).wf(),
            old(self)@.connection_count == 0 ==> r == Err::<bool, EngineError>(
                EngineError::ConnectionCountUnderflow,
            ) && final(self)@ == old(self)@,
            old(self)@.connection_count > 0 ==> r == Ok::<bool, EngineError>(
                old(self)@.disconnect_migrates(),
            ) && final(self)@ == old(self)@.after_disconnect(),
    {
        if self.connection_count == 0 {
            return Err(EngineError::ConnectionCountUnderflow);
        }
        self.connection_count = self.connection_count - 1;
        if self.connection_count == 0 && self.wanted_entries.len() > 0 {
            let mut moved: Vec<WantlistEntry> = Vec::new();
            std::mem::swap(&mut moved, &mut self.wanted_entries);
            self.wanted_entries_before_disconnect = Some(moved);
            assert(self@.wanted_entries =~= Seq::empty());
            Ok(true)
        } else {
            Ok(false)
        }
    }

    /// Notes that a connection to the peer was opened at `ts`.
    pub fn note_connect(&mut self, ts: Timestamp) -> (r: Result<(), EngineError>)
        requires
            old(self).wf(),
        ensures
            final(self).wf(),
            old(self)@.connection_count == i32::MAX ==> r == Err::<(), EngineError>(
                EngineError::ConnectionCountOverflow,
            ) && final(self)@ == old(self)@,
            old(self)@.connection_count < i32::MAX ==> r is Ok && final(self)@ == old(
                self,
            )@.after_connect(ts),
    {
        if self.connection_count == i32::MAX {
            return Err(EngineError::ConnectionCountOverflow);
        }
        if self.connection_count == 0 {
            self.connected_ts = Some(ts);
        }
        self.connection_count = self.connection_count + 1;
        Ok(())
    }

    /// Sets the wantset aside, as after a disconnect that was never reported.
    pub fn set_aside(&mut self)
        requires
            old(self).wf(),
        ensures
            final(self)@ == old(self)@.set_aside(),
            final(self).wf(),
    {
        let mut moved: Vec<WantlistEntry> = Vec::new();
        std::mem::swap(&mut moved, &mut self.wanted_entries);
        self.wanted_entries_before_disconnect = Some(moved);
        assert(self@.wanted_entries =~= Seq::empty());
    }

    /// Takes what was set aside at the last disconnect and returns the part
    /// of it that is wanted again, if the message of `msg_ts` comes within
    /// `reconnect_duplicate_duration_secs` after the last connect. What is
    /// not wanted again stays set aside for as long as that time lasts.
    pub fn get_duplicate_entries_from_reconnect(
        &mut self,
        msg_ts: Timestamp,
        reconnect_duplicate_duration_secs: u32,
    ) -> (r: Option<Vec<WantlistEntry>>)
        requires
            old(self).wf(),
        ensures
            final(self).wf(),
            final(self)@ == old(self)@.after_reconnect_check(
                msg_ts,
                reconnect_duplicate_duration_secs,
            ),
            match r {
                Some(v) => old(self)@.reconnect_duplicates(
                    msg_ts,
                    reconnect_duplicate_duration_secs,
                ) == Some(entries_view(v@)),
                None => old(self)@.reconnect_duplicates(msg_ts, reconnect_duplicate_duration_secs)
                    is None,
            },
    {
        let old_wants = self.wanted_entries_before_disconnect.take();
        let reconnect_ts = match self.connected_ts {
            Some(ts) => ts,
            None => {
                return None;
            },
        };
        match old_wants {
            Some(old_wants) => {
                if reconnect_ts.is_after_when_advanced(reconnect_duplicate_duration_secs, &msg_ts) {
                    proof {
                        lemma_selection_sorted(
                            entries_view(old_wants@),
                            key_set(entries_view(self.wanted_entries@)),
                        );
                    }
                    let (dups, no_dups) = partition_by_presence(old_wants, &self.wanted_entries);
                    self.wanted_entries_before_disconnect = Some(no_dups);
                    Some(dups)
                } else {
                    None
                }
            },
            None => None,
        }
    }
}

/// The duplicates and the synthetic cancels of a full wantlist: the old
/// entries that are wanted again, and the old entries that are not. Each of
/// the two is absent where it would be empty.
pub fn get_duplicate_entries_and_synth_cancels_from_full_wantlist(
    old_entries: Vec<WantlistEntry>,
    new_entries: &Vec<WantlistEntry>,
) -> (r: (Option<Vec<WantlistEntry>>, Option<Vec<WantlistEntry>>))
    requires
        keys_sorted(entries_view(new_entries@)),
    ensures
        match r.0 {
            Some(v) => full_wantlist_duplicates(
                entries_view(old_entries@),
                entries_view(new_entries@),
            ) == Some(entries_view(v@)),
            None => full_wantlist_duplicates(entries_view(old_entries@), entries_view(new_entries@))
                is None,
        },
        match r.1 {
            Some(v) => full_wantlist_synth_cancels(
                entries_view(old_entries@),
                entries_view(new_entries@),
            ) == Some(entries_view(v@)),
            None => full_wantlist_synth_cancels(
                entries_view(old_entries@),
                entries_view(new_entries@),
            ) is None,
        },
{
    let (dups, cancels) = partition_by_presence(old_entries, new_entries);
    let dups = if dups.len() == 0 {
        None
    } else {
        Some(dups)
    };
    let cancels = if cancels.len() == 0 {
        None
    } else {
        Some(cancels)
    };
    (dups, cancels)
}

/// The old entries that a full wantlist asks for again; absent where there
/// are none.
pub open spec fn full_wantlist_duplicates(
    old_entries: Seq<(Text, Timestamp)>,
    new_entries: Seq<(Text, Timestamp)>,
) -> Option<Seq<(Text, Timestamp)>> {
    let dups = restricted_to(old_entries, key_set(new_entries));
    if dups.len() == 0 {
        None
    } else {
        Some(dups)
    }
}

/// The old entries that a full wantlist no longer asks for; absent where
/// there are none.
pub open spec fn full_wantlist_synth_cancels(
    old_entries: Seq<(Text, Timestamp)>,
    new_entries: Seq<(Text, Timestamp)>,
) -> Option<Seq<(Text, Timestamp)>> {
    let cancels = excluding(old_entries, key_set(new_entries));
    if cancels.len() == 0 {
        None
    } else {
        Some(cancels)
    }
}

} // verus!

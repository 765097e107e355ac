//! The event model: messages as the monitor reports them, and the rows that
//! are written out for them.

use vstd::prelude::*;
use crate::error::EngineError;
use crate::ledger::{entries_view, WantlistEntry};
use crate::naming::{decimal, decimal_string, signed_decimal, signed_decimal_string};
use crate::sorted::Text;
use crate::text::texts;
use crate::timestamp::Timestamp;

verus! {

/// Constants for the `want_type` field of a `JSONWantlistEntry`.
pub const JSON_WANT_TYPE_BLOCK: i32 = 0;

pub const JSON_WANT_TYPE_HAVE: i32 = 1;

/// Message type constants for output rows.
pub const CSV_MESSAGE_TYPE_INCREMENTAL: i32 = 1;

pub const CSV_MESSAGE_TYPE_FULL: i32 = 2;

pub const CSV_MESSAGE_TYPE_SYNTHETIC: i32 = 3;

/// Entry type constants for output rows.
pub const CSV_ENTRY_TYPE_CANCEL: i32 = 1;

pub const CSV_ENTRY_TYPE_WANT_BLOCK: i32 = 2;

pub const CSV_ENTRY_TYPE_WANT_BLOCK_SEND_DONT_HAVE: i32 = 3;

pub const CSV_ENTRY_TYPE_WANT_HAVE: i32 = 4;

pub const CSV_ENTRY_TYPE_WANT_HAVE_SEND_DONT_HAVE: i32 = 5;

pub const CSV_ENTRY_TYPE_SYNTHETIC_CANCEL_FULL_WANTLIST: i32 = 6;

pub const CSV_ENTRY_TYPE_SYNTHETIC_CANCEL_DISCONNECT: i32 = 7;

/// Connection event type constants for output rows.
pub const CSV_CONNECTION_EVENT_CONNECTED_FOUND: i32 = 1;

pub const CSV_CONNECTION_EVENT_CONNECTED_NOT_FOUND: i32 = 2;

pub const CSV_CONNECTION_EVENT_DISCONNECTED_FOUND: i32 = 3;

pub const CSV_CONNECTION_EVENT_DISCONNECTED_NOT_FOUND: i32 = 4;

/// Reasons for which a row counts as a duplicate, one bit each.
pub const CSV_DUPLICATE_STATUS_NO_DUP: u32 = 0;

pub const CSV_DUPLICATE_STATUS_DUP_FULL_WANTLIST: u32 = 1;

pub const CSV_DUPLICATE_STATUS_DUP_RECONNECT: u32 = 2;

pub const CSV_DUPLICATE_STATUS_DUP_SLIDING_WINDOW: u32 = 4;

/// A content identifier as a message carries it.
#[derive(Clone, Debug, PartialEq, Eq)]
pub struct JsonCID {
    pub path: String,
}

impl View for JsonCID {
    type V = Text;

    open spec fn view(&self) -> Text {
        self.path@
    }
}

/// A single entry of a wantlist message.
#[derive(Clone, Debug, PartialEq, Eq)]
pub struct JSONWantlistEntry {
    pub priority: i32,
    pub cancel: bool,
    pub send_dont_have: bool,
    pub cid: JsonCID,
    pub want_type: i32,
}

/// A wantlist entry as contracts see it.
pub struct EntryView {
    pub priority: i32,
    pub cancel: bool,
    pub send_dont_have: bool,
    pub cid: Text,
    pub want_type: i32,
}

impl View for JSONWantlistEntry {
    type V = EntryView;

    open spec fn view(&self) -> EntryView {
        EntryView {
            priority: self.priority,
            cancel: self.cancel,
            send_dont_have: self.send_dont_have,
            cid: self.cid@,
            want_type: self.want_type,
        }
    }
}

/// The views of the entries of `v`, in their order.
pub open spec fn message_entries_view(v: Seq<JSONWantlistEntry>) -> Seq<EntryView> {
    Seq::new(v.len(), |i: int| v[i]@)
}

/// A message of the monitor: either a wantlist update or a connection event
/// of one peer.
#[derive(Clone, Debug, PartialEq, Eq)]
pub struct JSONMessage {
    pub timestamp: Timestamp,
    pub peer: String,
    /// The peer's address in its textual form.
    pub address: Option<String>,
    pub received_entries: Option<Vec<JSONWantlistEntry>>,
    pub full_want_list: Option<bool>,
    pub peer_connected: Option<bool>,
    pub peer_disconnected: Option<bool>,
    pub connect_event_peer_found: Option<bool>,
}

/// A message as contracts see it.
pub struct MessageView {
    pub timestamp: Timestamp,
    pub peer: Text,
    pub address: Option<Text>,
    pub received_entries: Option<Seq<EntryView>>,
    pub full_want_list: Option<bool>,
    pub peer_connected: Option<bool>,
    pub peer_disconnected: Option<bool>,
    pub connect_event_peer_found: Option<bool>,
}

impl View for JSONMessage {
    type V = MessageView;

    open spec fn view(&self) -> MessageView {
        MessageView {
            timestamp: self.timestamp,
            peer: self.peer@,
            address: match self.address {
                Some(a) => Some(a@),
                None => None,
            },
            received_entries: match self.received_entries {
                Some(v) => Some(message_entries_view(v@)),
                None => None,
            },
            full_want_list: self.full_want_list,
            peer_connected: self.peer_connected,
            peer_disconnected: self.peer_disconnected,
            connect_event_peer_found: self.connect_event_peer_found,
        }
    }
}

/// One row of the wantlist output.
#[derive(Clone, Debug, PartialEq, Eq)]
pub struct CSVWantlistEntry {
    pub message_id: i64,
    pub message_type: i32,
    pub timestamp_seconds: i64,
    pub timestamp_subsec_milliseconds: u32,
    pub peer_id: String,
    pub address: String,
    pub priority: i32,
    pub entry_type: i32,
    pub cid: String,
    pub duplicate_status: u32,
    pub sliding_window_smallest_match: u32,
}

/// A row of the wantlist output as contracts see it.
pub struct RowView {
    pub message_id: i64,
    pub message_type: i32,
    pub timestamp_seconds: i64,
    pub timestamp_subsec_milliseconds: u32,
    pub peer_id: Text,
    pub address: Text,
    pub priority: i32,
    pub entry_type: i32,
    pub cid: Text,
    pub duplicate_status: u32,
    pub sliding_window_smallest_match: u32,
}

impl View for CSVWantlistEntry {
    type V = RowView;

    open spec fn view(&self) -> RowView {
        RowView {
            message_id: self.message_id,
            message_type: self.message_type,
            timestamp_seconds: self.timestamp_seconds,
            timestamp_subsec_milliseconds: self.timestamp_subsec_milliseconds,
            peer_id: self.peer_id@,
            address: self.address@,
            priority: self.priority,
            entry_type: self.entry_type,
            cid: self.cid@,
            duplicate_status: self.duplicate_status,
            sliding_window_smallest_match: self.sliding_window_smallest_match,
        }
    }
}

impl RowView {
    /// The columns of the row in the order in which they are written, the
    /// numbers in decimal digits.
    pub open spec fn record(self) -> Seq<Text> {
        seq![
            signed_decimal(self.message_id as int),
            signed_decimal(self.message_type as int),
            signed_decimal(self.timestamp_seconds as int),
            decimal(self.timestamp_subsec_milliseconds as nat),
            self.peer_id,
            self.address,
            signed_decimal(self.priority as int),
            signed_decimal(self.entry_type as int),
            self.cid,
            decimal(self.duplicate_status as nat),
            decimal(self.sliding_window_smallest_match as nat),
        ]
    }
}

/// The views of the rows of `v`, in their order.
pub open spec fn rows_view(v: Seq<CSVWantlistEntry>) -> Seq<RowView> {
    Seq::new(v.len(), |i: int| v[i]@)
}

/// One row of the connection event output.
#[derive(Clone, Debug, PartialEq, Eq)]
pub struct CSVConnectionEvent {
    pub message_id: i64,
    pub timestamp_seconds: i64,
    pub timestamp_subsec_millis: u32,
    pub peer_id: String,
    pub address: String,
    pub event_type: i32,
}

/// A row of the connection event output as contracts see it.
pub struct EventRowView {
    pub message_id: i64,
    pub timestamp_seconds: i64,
    pub timestamp_subsec_millis: u32,
    pub peer_id: Text,
    pub address: Text,
    pub event_type: i32,
}

impl View for CSVConnectionEvent {
    type V = EventRowView;

    open spec fn view(&self) -> EventRowView {
        EventRowView {
            message_id: self.message_id,
            timestamp_seconds: self.timestamp_seconds,
            timestamp_subsec_millis: self.timestamp_subsec_millis,
            peer_id: self.peer_id@,
            address: self.address@,
            event_type: self.event_type,
        }
    }
}

impl EventRowView {
    /// The columns of the row in the order in which they are written, the
    /// numbers in decimal digits.
    pub open spec fn record(self) -> Seq<Text> {
        seq![
            signed_decimal(self.message_id as int),
            signed_decimal(self.timestamp_seconds as int),
            decimal(self.timestamp_subsec_millis as nat),
            self.peer_id,
            self.address,
            signed_decimal(self.event_type as int),
        ]
    }
}

/// The address column: the address where there is one, else the empty string.
pub open spec fn address_column(address: Option<Text>) -> Text {
    match address {
        Some(a) => a,
        None => Seq::empty(),
    }
}

/// The message type of the rows of a wantlist message: full where the message
/// says so, incremental where it says otherwise or nothing.
pub open spec fn message_type_of(full_want_list: Option<bool>) -> i32 {
    if full_want_list == Some(true) {
        CSV_MESSAGE_TYPE_FULL
    } else {
        CSV_MESSAGE_TYPE_INCREMENTAL
    }
}

/// The entry type of the row of a wantlist entry; `None` for a want whose
/// `want_type` is unknown.
pub open spec fn entry_type_of(e: EntryView) -> Option<i32> {
    if e.cancel {
        Some(CSV_ENTRY_TYPE_CANCEL)
    } else if e.want_type == JSON_WANT_TYPE_BLOCK {
        if e.send_dont_have {
            Some(CSV_ENTRY_TYPE_WANT_BLOCK_SEND_DONT_HAVE)
        } else {
            Some(CSV_ENTRY_TYPE_WANT_BLOCK)
        }
    } else if e.want_type == JSON_WANT_TYPE_HAVE {
        if e.send_dont_have {
            Some(CSV_ENTRY_TYPE_WANT_HAVE_SEND_DONT_HAVE)
        } else {
            Some(CSV_ENTRY_TYPE_WANT_HAVE)
        }
    } else {
        None
    }
}

/// Every entry has an entry type.
pub open spec fn want_types_known(entries: Seq<EntryView>) -> bool {
    forall|i: int| 0 <= i < entries.len() ==> entry_type_of(#[trigger] entries[i]) is Some
}

/// The row of the entry `e` of the message `m`, not marked as a duplicate.
pub open spec fn entry_row(m: MessageView, id: i64, e: EntryView) -> RowView {
    RowView {
        message_id: id,
        message_type: message_type_of(m.full_want_list),
        timestamp_seconds: m.timestamp.seconds,
        timestamp_subsec_milliseconds: m.timestamp.subsec_millis(),
        peer_id: m.peer,
        address: address_column(m.address),
        priority: e.priority,
        entry_type: entry_type_of(e)->0,
        cid: e.cid,
        duplicate_status: CSV_DUPLICATE_STATUS_NO_DUP,
        sliding_window_smallest_match: 0,
    }
}

/// The rows of the entries of a message, in the order of the entries.
pub open spec fn entry_rows(m: MessageView, id: i64) -> Seq<RowView> {
    let entries = m.received_entries->0;
    Seq::new(entries.len(), |i: int| entry_row(m, id, entries[i]))
}

/// A row that stands for the ledger entry `cid` rather than for an entry of a
/// message; its priority is always 0.
pub open spec fn ledger_row(
    ts: Timestamp,
    peer: Text,
    address: Text,
    id: i64,
    message_type: i32,
    entry_type: i32,
    duplicate_status: u32,
    sliding_window_smallest_match: u32,
    cid: Text,
) -> RowView {
    RowView {
        message_id: id,
        message_type,
        timestamp_seconds: ts.seconds,
        timestamp_subsec_milliseconds: ts.subsec_millis(),
        peer_id: peer,
        address,
        priority: 0,
        entry_type,
        cid,
        duplicate_status,
        sliding_window_smallest_match,
    }
}

/// One `ledger_row` for each of `entries`, in their order, all with the same
/// message id.
pub open spec fn ledger_rows(
    entries: Seq<(Text, Timestamp)>,
    ts: Timestamp,
    peer: Text,
    address: Text,
    id: i64,
    message_type: i32,
    entry_type: i32,
    duplicate_status: u32,
    sliding_window_smallest_match: u32,
) -> Seq<RowView> {
    Seq::new(
        entries.len(),
        |i: int|
            ledger_row(
                ts,
                peer,
                address,
                id,
                message_type,
                entry_type,
                duplicate_status,
                sliding_window_smallest_match,
                entries[i].0,
            ),
    )
}

/// The event type of a connection event: what happened, and whether the
/// monitor knew the peer.
pub open spec fn event_type_of(disconnected: bool, found: bool) -> i32 {
    if disconnected {
        if found {
            CSV_CONNECTION_EVENT_DISCONNECTED_FOUND
        } else {
            CSV_CONNECTION_EVENT_DISCONNECTED_NOT_FOUND
        }
    } else {
        if found {
            CSV_CONNECTION_EVENT_CONNECTED_FOUND
        } else {
            CSV_CONNECTION_EVENT_CONNECTED_NOT_FOUND
        }
    }
}

/// What is wrong with a message as a connection event, if anything: the first
/// of the three flags that is missing, in the order found, disconnected,
/// connected; else that neither or both of the latter two are set.
pub open spec fn connection_event_error(m: MessageView) -> Option<EngineError> {
    if m.connect_event_peer_found is None {
        Some(EngineError::MissingPeerFound)
    } else if m.peer_disconnected is None {
        Some(EngineError::MissingPeerDisconnected)
    } else if m.peer_connected is None {
        Some(EngineError::MissingPeerConnected)
    } else if !m.peer_disconnected->0 && !m.peer_connected->0 {
        Some(EngineError::NoConnectionChange)
    } else if m.peer_disconnected->0 && m.peer_connected->0 {
        Some(EngineError::AmbiguousConnectionChange)
    } else {
        None
    }
}

/// The row of a well-formed connection event.
pub open spec fn event_row(m: MessageView, id: i64) -> EventRowView {
    EventRowView {
        message_id: id,
        timestamp_seconds: m.timestamp.seconds,
        timestamp_subsec_millis: m.timestamp.subsec_millis(),
        peer_id: m.peer,
        address: address_column(m.address),
        event_type: event_type_of(m.peer_disconnected->0, m.connect_event_peer_found->0),
    }
}

/// The address of a message as a column of its own.
pub fn address_of(message: &JSONMessage) -> (r: String)
    ensures
        r@ == address_column(message@.address),
{
    match &message.address {
        Some(address) => address.clone(),
        None => String::new(),
    }
}

/// The entry type of one wantlist entry.
pub fn entry_type(entry: &JSONWantlistEntry) -> (r: Option<i32>)
    ensures
        r == entry_type_of(entry@),
{
    if entry.cancel {
        Some(CSV_ENTRY_TYPE_CANCEL)
    } else if entry.want_type == JSON_WANT_TYPE_BLOCK {
        if entry.send_dont_have {
            Some(CSV_ENTRY_TYPE_WANT_BLOCK_SEND_DONT_HAVE)
        } else {
            Some(CSV_ENTRY_TYPE_WANT_BLOCK)
        }
    } else if entry.want_type == JSON_WANT_TYPE_HAVE {
        if entry.send_dont_have {
            Some(CSV_ENTRY_TYPE_WANT_HAVE_SEND_DONT_HAVE)
        } else {
            Some(CSV_ENTRY_TYPE_WANT_HAVE)
        }
    } else {
        None
    }
}

impl CSVWantlistEntry {
    /// The columns of the row as they are written.
    pub fn to_record(&self) -> (r: Vec<String>)
        ensures
            texts(r@) == self@.record(),
    {
        let mut record: Vec<String> = Vec::new();
        record.push(signed_decimal_string(self.message_id));
        record.push(signed_decimal_string(self.message_type as i64));
        record.push(signed_decimal_string(self.timestamp_seconds));
        record.push(decimal_string(self.timestamp_subsec_milliseconds as u64));
        record.push(self.peer_id.clone());
        record.push(self.address.clone());
        record.push(signed_decimal_string(self.priority as i64));
        record.push(signed_decimal_string(self.entry_type as i64));
        record.push(self.cid.clone());
        record.push(decimal_string(self.duplicate_status as u64));
        record.push(decimal_string(self.sliding_window_smallest_match as u64));
        assert(texts(record@) =~= self@.record());
        record
    }

    /// One row for each of `entries`, in their order: a row that stands for a
    /// ledger entry, with the time, peer and address of `message`.
    pub fn from_wantlist_entries(
        entries: Vec<WantlistEntry>,
        message: &JSONMessage,
        id: i64,
        message_type: i32,
        entry_type: i32,
        duplicate_status: u32,
        sliding_window_smallest_match: u32,
    ) -> (r: Vec<CSVWantlistEntry>)
        ensures
            rows_view(r@) == ledger_rows(
                entries_view(entries@),
                message@.timestamp,
                message@.peer,
                address_column(message@.address),
                id,
                message_type,
                entry_type,
                duplicate_status,
                sliding_window_smallest_match,
            ),
    {
        Self::rows_for_entries(
            &entries,
            &message.timestamp,
            &message.peer,
            &address_of(message),
            id,
            message_type,
            entry_type,
            duplicate_status,
            sliding_window_smallest_match,
        )
    }

    /// One row for each of `entries`, in their order, all with the id `id`.
    pub fn rows_for_entries(
        entries: &Vec<WantlistEntry>,
        ts: &Timestamp,
        peer: &String,
        address: &String,
        id: i64,
        message_type: i32,
        entry_type: i32,
        duplicate_status: u32,
        sliding_window_smallest_match: u32,
    ) -> (r: Vec<CSVWantlistEntry>)
        ensures
            rows_view(r@) == ledger_rows(
                entries_view(entries@),
                *ts,
                peer@,
                address@,
                id,
                message_type,
                entry_type,
                duplicate_status,
                sliding_window_smallest_match,
            ),
    {
        let seconds = ts.timestamp();
        let millis = ts.timestamp_subsec_millis();
        let mut rows: Vec<CSVWantlistEntry> = Vec::new();
        let mut i: usize = 0;
        while i < entries.len()
            invariant
                i <= entries.len(),
                rows.len() == i,
                seconds == ts.seconds,
                millis == ts.subsec_millis(),
                forall|j: int|
                    0 <= j < i ==> (#[trigger] rows@[j])@ == ledger_row(
                        *ts,
                        peer@,
                        address@,
                        id,
                        message_type,
                        entry_type,
                        duplicate_status,
                        sliding_window_smallest_match,
                        entries@[j]@.0,
                    ),
            decreases entries.len() - i,
        {
            rows.push(
                CSVWantlistEntry {
                    message_id: id,
                    message_type,
                    timestamp_seconds: seconds,
                    timestamp_subsec_milliseconds: millis,
                    peer_id: peer.clone(),
                    address: address.clone(),
                    priority: 0,
                    entry_type,
                    cid: entries[i].cid.clone(),
                    duplicate_status,
                    sliding_window_smallest_match,
                },
            );
            i += 1;
        }
        assert(rows_view(rows@) =~= ledger_rows(
            entries_view(entries@),
            *ts,
            peer@,
            address@,
            id,
            message_type,
            entry_type,
            duplicate_status,
            sliding_window_smallest_match,
        ));
        rows
    }

    /// One row for each entry of a wantlist message, in the order of the
    /// entries and not marked as duplicates. A message without entries and a
    /// want of an unknown type are errors.
    pub fn from_json_message(message: JSONMessage, id: i64) -> (r: Result<
        Vec<CSVWantlistEntry>,
        EngineError,
    >)
        ensures
            message@.received_entries is None ==> r == Err::<Vec<CSVWantlistEntry>, EngineError>(
                EngineError::MissingEntries,
            ),
            message@.received_entries is Some && !want_types_known(message@.received_entries->0)
                ==> r == Err::<Vec<CSVWantlistEntry>, EngineError>(EngineError::UnknownWantType),
            message@.received_entries is Some && want_types_known(message@.received_entries->0)
                ==> r is Ok && rows_view(r->Ok_0@) == entry_rows(message@, id),
    {
        Self::rows_of_message(&message, id)
    }

    /// As `from_json_message`, for a message that the caller keeps.
    pub fn rows_of_message(message: &JSONMessage, id: i64) -> (r: Result<
        Vec<CSVWantlistEntry>,
        EngineError,
    >)
        ensures
            message@.received_entries is None ==> r == Err::<Vec<CSVWantlistEntry>, EngineError>(
                EngineError::MissingEntries,
            ),
            message@.received_entries is Some && !want_types_known(message@.received_entries->0)
                ==> r == Err::<Vec<CSVWantlistEntry>, EngineError>(EngineError::UnknownWantType),
            message@.received_entries is Some && want_types_known(message@.received_entries->0)
                ==> r is Ok && rows_view(r->Ok_0@) == entry_rows(message@, id),
    {
        let entries = match &message.received_entries {
            Some(entries) => entries,
            None => {
                return Err(EngineError::MissingEntries);
            },
        };
        let seconds = message.timestamp.timestamp();
        let millis = message.timestamp.timestamp_subsec_millis();
        let message_type = match message.full_want_list {
            Some(true) => CSV_MESSAGE_TYPE_FULL,
            _ => CSV_MESSAGE_TYPE_INCREMENTAL,
        };
        let address = address_of(message);
        let ghost views = message@.received_entries->0;
        let mut rows: Vec<CSVWantlistEntry> = Vec::new();
        let mut i: usize = 0;
        while i < entries.len()
            invariant
                i <= entries.len(),
                rows.len() == i,
                views == message_entries_view(entries@),
                message@.received_entries == Some(views),
                seconds == message@.timestamp.seconds,
                millis == message@.timestamp.subsec_millis(),
                message_type == message_type_of(message@.full_want_list),
                address@ == address_column(message@.address),
                forall|j: int| 0 <= j < i ==> entry_type_of(#[trigger] views[j]) is Some,
                forall|j: int|
                    0 <= j < i ==> (#[trigger] rows@[j])@ == entry_row(message@, id, views[j]),
            decreases entries.len() - i,
        {
            let entry = &entries[i];
            assert(entry@ == views[i as int]);
            let entry_type = match entry_type(entry) {
                Some(t) => t,
                None => {
                    return Err(EngineError::UnknownWantType);
                },
            };
            rows.push(
                CSVWantlistEntry {
                    message_id: id,
                    message_type,
                    timestamp_seconds: seconds,
                    timestamp_subsec_milliseconds: millis,
                    peer_id: message.peer.clone(),
                    address: address.clone(),
                    priority: entry.priority,
                    entry_type,
                    cid: entry.cid.path.clone(),
                    duplicate_status: CSV_DUPLICATE_STATUS_NO_DUP,
                    sliding_window_smallest_match: 0,
                },
            );
            i += 1;
        }
        assert(rows_view(rows@) =~= entry_rows(message@, id));
        Ok(rows)
    }
}

impl CSVConnectionEvent {
    /// The columns of the row as they are written.
    pub fn to_record(&self) -> (r: Vec<String>)
        ensures
            texts(r@) == self@.record(),
    {
        let mut record: Vec<String> = Vec::new();
        record.push(signed_decimal_string(self.message_id));
        record.push(signed_decimal_string(self.timestamp_seconds));
        record.push(decimal_string(self.timestamp_subsec_millis as u64));
        record.push(self.peer_id.clone());
        record.push(self.address.clone());
        record.push(signed_decimal_string(self.event_type as i64));
        assert(texts(record@) =~= self@.record());
        record
    }

    /// The row of a connection event. The message must carry all three
    /// connection flags, and exactly one of connected and disconnected must
    /// be set.
    pub fn from_json_message(message: JSONMessage, id: i64) -> (r: Result<
        CSVConnectionEvent,
        EngineError,
    >)
        ensures
            match connection_event_error(message@) {
                Some(e) => r == Err::<CSVConnectionEvent, EngineError>(e),
                None => r is Ok && r->Ok_0@ == event_row(message@, id),
            },
    {
        Self::row_of_message(&message, id)
    }

    /// As `from_json_message`, for a message that the caller keeps.
    pub fn row_of_message(message: &JSONMessage, id: i64) -> (r: Result<
        CSVConnectionEvent,
        EngineError,
    >)
        ensures
            match connection_event_error(message@) {
                Some(e) => r == Err::<CSVConnectionEvent, EngineError>(e),
                None => r is Ok && r->Ok_0@ == event_row(message@, id),
            },
    {
        let found = match message.connect_event_peer_found {
            Some(found) => found,
            None => {
                return Err(EngineError::MissingPeerFound);
            },
        };
        let disconnected = match message.peer_disconnected {
            Some(disconnected) => disconnected,
            None => {
                return Err(EngineError::MissingPeerDisconnected);
            },
        };
        let connected = match message.peer_connected {
            Some(connected) => connected,
            None => {
                return Err(EngineError::MissingPeerConnected);
            },
        };
        if !disconnected && !connected {
            return Err(EngineError::NoConnectionChange);
        }
        if disconnected && connected {
            return Err(EngineError::AmbiguousConnectionChange);
        }
        let event_type = if disconnected {
            if found {
                CSV_CONNECTION_EVENT_DISCONNECTED_FOUND
            } else {
                CSV_CONNECTION_EVENT_DISCONNECTED_NOT_FOUND
            }
        } else {
            if found {
                CSV_CONNECTION_EVENT_CONNECTED_FOUND
            } else {
                CSV_CONNECTION_EVENT_CONNECTED_NOT_FOUND
            }
        };
        Ok(
            CSVConnectionEvent {
                message_id: id,
                timestamp_seconds: message.timestamp.timestamp(),
                timestamp_subsec_millis: message.timestamp.timestamp_subsec_millis(),
                peer_id: message.peer.clone(),
                address: address_of(message),
                event_type,
            },
        )
    }
}

} // verus!

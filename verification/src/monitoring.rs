//! What the monitors publish: events of peers, and the routing keys under
//! which the events of one monitor are found.

use vstd::prelude::*;
use vstd::string::{StrSliceExecFns, StringExecFns};
use vstd::utf8::{decode_utf8, encode_utf8, encode_utf8_decode_utf8, is_char_boundary};
use crate::text::{push_char, same_text, texts};
use crate::timestamp::Timestamp;
use crate::wantlist::{JSONMessage, JSONWantlistEntry, JsonCID};

verus! {

broadcast use vstd::string::group_string_axioms;

pub const ROUTING_KEY_PREFIX_MONITOR: &'static str = "monitor";

pub const ROUTING_KEY_SUFFIX_BITSWAP_MESSAGES: &'static str = "bitswap_messages";

pub const ROUTING_KEY_SUFFIX_CONNECTION_EVENTS: &'static str = "conn_events";

pub const EXCHANGE_NAME_PASSIVE_MONITORING: &'static str = "ipfs.passive_monitoring";

/// For how many milliseconds a published message is kept for its readers.
pub const MESSAGE_TTL_MILLIS: u32 = 60_000;

/// The width of the peer column of an identifier.
pub const PEER_WIDTH: usize = 52;

/// The width of the address column of the identifier of a Bitswap message,
/// in characters, and the number of bytes after which the addresses are cut.
pub const ADDRESSES_WIDTH: usize = 30;

/// The width of the address column of the identifier of a connection event.
pub const REMOTE_WIDTH: usize = 32;

/// What a routing key says: the kind of the events, and the monitor that
/// publishes them.
#[derive(Clone, Debug)]
pub enum RoutingKeyInformation {
    ConnectionEvents { monitor_name: String },
    BitswapMessages { monitor_name: String },
}

/// A routing key as contracts see it.
pub enum RoutingKeyView {
    ConnectionEvents { monitor_name: Seq<char> },
    BitswapMessages { monitor_name: Seq<char> },
}

impl View for RoutingKeyInformation {
    type V = RoutingKeyView;

    open spec fn view(&self) -> RoutingKeyView {
        match self {
            RoutingKeyInformation::ConnectionEvents { monitor_name } => {
                RoutingKeyView::ConnectionEvents { monitor_name: monitor_name@ }
            },
            RoutingKeyInformation::BitswapMessages { monitor_name } => {
                RoutingKeyView::BitswapMessages { monitor_name: monitor_name@ }
            },
        }
    }
}

/// Why a routing key is not understood.
#[derive(Clone, Copy, Debug, PartialEq, Eq, Structural)]
pub enum RoutingKeyError {
    /// The key does not have three parts; it has this many.
    PartCount(usize),
    /// The first part is not the prefix of the monitors.
    Prefix,
    /// The last part names no kind of event.
    Suffix,
}

/// The parts of `s` between its dots. A string without dots is one part,
/// the empty string too.
pub open spec fn dot_parts(s: Seq<char>) -> Seq<Seq<char>>
    decreases s.len(),
{
    if s.len() == 0 {
        seq![Seq::empty()]
    } else {
        let before = dot_parts(s.drop_last());
        if s.last() == '.' {
            before.push(Seq::empty())
        } else {
            before.drop_last().push(before.last().push(s.last()))
        }
    }
}

impl RoutingKeyView {
    /// The routing key as it is sent: the prefix, the name of the monitor
    /// and the kind of the events, with dots between them.
    pub open spec fn text(self) -> Seq<char> {
        match self {
            RoutingKeyView::ConnectionEvents { monitor_name } => ROUTING_KEY_PREFIX_MONITOR@
                + seq!['.'] + monitor_name + seq!['.'] + ROUTING_KEY_SUFFIX_CONNECTION_EVENTS@,
            RoutingKeyView::BitswapMessages { monitor_name } => ROUTING_KEY_PREFIX_MONITOR@
                + seq!['.'] + monitor_name + seq!['.'] + ROUTING_KEY_SUFFIX_BITSWAP_MESSAGES@,
        }
    }
}

/// What a routing key says, read from its text: it must have three parts,
/// the first of them the prefix of the monitors, the last of them the name
/// of a kind of event. The part between them is the name of the monitor.
pub open spec fn decoded(key: Seq<char>) -> Result<RoutingKeyView, RoutingKeyError> {
    let parts = dot_parts(key);
    if parts.len() != 3 {
        Err(RoutingKeyError::PartCount(parts.len() as usize))
    } else if parts[0] != ROUTING_KEY_PREFIX_MONITOR@ {
        Err(RoutingKeyError::Prefix)
    } else if parts[2] == ROUTING_KEY_SUFFIX_BITSWAP_MESSAGES@ {
        Ok(RoutingKeyView::BitswapMessages { monitor_name: parts[1] })
    } else if parts[2] == ROUTING_KEY_SUFFIX_CONNECTION_EVENTS@ {
        Ok(RoutingKeyView::ConnectionEvents { monitor_name: parts[1] })
    } else {
        Err(RoutingKeyError::Suffix)
    }
}

/// A string without dots is one part.
pub proof fn lemma_one_part(s: Seq<char>)
    requires
        !s.contains('.'),
    ensures
        dot_parts(s) == seq![s],
    decreases s.len(),
{
    if s.len() == 0 {
        assert(s =~= Seq::<char>::empty());
    } else {
        let head = s.drop_last();
        assert forall|i: int| 0 <= i < head.len() implies head[i] != '.' by {
            assert(s[i] == head[i]);
        }
        assert(s[s.len() - 1] != '.');
        lemma_one_part(head);
        assert(head.push(s.last()) =~= s);
        assert(seq![head].drop_last() =~= Seq::<Seq<char>>::empty());
        assert(seq![head].last() == head);
        assert(Seq::<Seq<char>>::empty().push(s) =~= seq![s]);
    }
}

/// A string that follows a dot, and has no dot itself, is the last part.
pub proof fn lemma_last_part(a: Seq<char>, b: Seq<char>)
    requires
        !b.contains('.'),
    ensures
        dot_parts(a + seq!['.'] + b) == dot_parts(a).push(b),
    decreases b.len(),
{
    let whole = a + seq!['.'] + b;
    if b.len() == 0 {
        assert(whole.drop_last() =~= a);
        assert(b =~= Seq::<char>::empty());
    } else {
        let head = b.drop_last();
        assert forall|i: int| 0 <= i < head.len() implies head[i] != '.' by {
            assert(b[i] == head[i]);
        }
        assert(b[b.len() - 1] != '.');
        lemma_last_part(a, head);
        assert(whole.drop_last() =~= a + seq!['.'] + head);
        assert(whole.last() == b.last());
        assert(dot_parts(a).push(head).drop_last() =~= dot_parts(a));
        assert(head.push(b.last()) =~= b);
    }
}

impl RoutingKeyView {
    /// The monitor that the routing key names.
    pub open spec fn monitor(self) -> Seq<char> {
        match self {
            RoutingKeyView::ConnectionEvents { monitor_name } => monitor_name,
            RoutingKeyView::BitswapMessages { monitor_name } => monitor_name,
        }
    }
}

/// A routing key is read as what it was written from, as long as the name
/// of the monitor has no dot.
pub proof fn lemma_routing_key_round_trip(k: RoutingKeyView)
    requires
        !k.monitor().contains('.'),
    ensures
        decoded(k.text()) == Ok::<RoutingKeyView, RoutingKeyError>(k),
{
    reveal_strlit("monitor");
    reveal_strlit("bitswap_messages");
    reveal_strlit("conn_events");
    let prefix = ROUTING_KEY_PREFIX_MONITOR@;
    let suffix = match k {
        RoutingKeyView::ConnectionEvents { .. } => ROUTING_KEY_SUFFIX_CONNECTION_EVENTS@,
        RoutingKeyView::BitswapMessages { .. } => ROUTING_KEY_SUFFIX_BITSWAP_MESSAGES@,
    };
    assert(!prefix.contains('.'));
    assert(!suffix.contains('.'));
    assert(ROUTING_KEY_SUFFIX_CONNECTION_EVENTS@.len()
        != ROUTING_KEY_SUFFIX_BITSWAP_MESSAGES@.len());
    lemma_one_part(prefix);
    lemma_last_part(prefix, k.monitor());
    lemma_last_part(prefix + seq!['.'] + k.monitor(), suffix);
    assert(k.text() == prefix + seq!['.'] + k.monitor() + seq!['.'] + suffix);
    assert(dot_parts(k.text()) =~= seq![prefix, k.monitor(), suffix]);
}

impl RoutingKeyInformation {
    /// The routing key as it is sent.
    pub fn to_routing_key(&self) -> (r: String)
        ensures
            r@ == self@.text(),
    {
        let mut key = String::new();
        key.append(ROUTING_KEY_PREFIX_MONITOR);
        key.append(".");
        proof {
            reveal_strlit(".");
            assert("."@ =~= seq!['.']);
        }
        match self {
            RoutingKeyInformation::ConnectionEvents { monitor_name } => {
                key.append(monitor_name.as_str());
                key.append(".");
                key.append(ROUTING_KEY_SUFFIX_CONNECTION_EVENTS);
            },
            RoutingKeyInformation::BitswapMessages { monitor_name } => {
                key.append(monitor_name.as_str());
                key.append(".");
                key.append(ROUTING_KEY_SUFFIX_BITSWAP_MESSAGES);
            },
        }
        assert(key@ =~= self@.text());
        key
    }
}

/// The parts of `text` between its dots.
pub fn split_at_dots(text: &str) -> (r: Vec<String>)
    ensures
        texts(r@) == dot_parts(text@),
{
    let mut parts: Vec<String> = Vec::new();
    let mut current = String::new();
    assert(texts(parts@).push(current@) =~= seq![Seq::<char>::empty()]);
    for c in it: text.chars()
        invariant
            it.seq() == text@,
            dot_parts(text@.take(it.index())) == texts(parts@).push(current@),
    {
        let ghost before = texts(parts@);
        let ghost part = current@;
        proof {
            let next = text@.take(it.index() + 1);
            assert(next.drop_last() =~= text@.take(it.index()));
            assert(next.last() == c);
            assert(before.push(part).drop_last() =~= before);
        }
        if c == '.' {
            let mut done = String::new();
            std::mem::swap(&mut done, &mut current);
            parts.push(done);
            assert(texts(parts@) =~= before.push(part));
        } else {
            push_char(&mut current, c);
        }
    }
    let ghost before = texts(parts@);
    assert(text@.take(text@.len() as int) =~= text@);
    parts.push(current);
    assert(texts(parts@) =~= before.push(current@));
    parts
}

/// Reads what a routing key says.
pub fn decode_routing_key(routing_key: &str) -> (r: Result<RoutingKeyInformation, RoutingKeyError>)
    ensures
        match decoded(routing_key@) {
            Ok(k) => r is Ok && r->Ok_0@ == k,
            Err(e) => r is Err && r->Err_0 == e,
        },
{
    let mut split = split_at_dots(routing_key);
    if split.len() != 3 {
        return Err(RoutingKeyError::PartCount(split.len()));
    }
    assert(texts(split@)[0] == split@[0]@);
    assert(texts(split@)[1] == split@[1]@);
    assert(texts(split@)[2] == split@[2]@);
    if !same_text(split[0].as_str(), ROUTING_KEY_PREFIX_MONITOR) {
        return Err(RoutingKeyError::Prefix);
    }
    let bitswap = same_text(split[2].as_str(), ROUTING_KEY_SUFFIX_BITSWAP_MESSAGES);
    let connection = same_text(split[2].as_str(), ROUTING_KEY_SUFFIX_CONNECTION_EVENTS);
    let mut monitor_name = String::new();
    std::mem::swap(&mut monitor_name, &mut split[1]);
    if bitswap {
        Ok(RoutingKeyInformation::BitswapMessages { monitor_name })
    } else if connection {
        Ok(RoutingKeyInformation::ConnectionEvents { monitor_name })
    } else {
        Err(RoutingKeyError::Suffix)
    }
}

/// Whether a monitor has a block or not, as a Bitswap message says it.
#[derive(Clone, Copy, Debug, PartialEq, Eq, Structural)]
pub enum BlockPresenceType {
    Have,
    DontHave,
}

/// Whether a connection was opened or closed.
#[derive(Clone, Copy, Debug, PartialEq, Eq, Structural)]
pub enum ConnectionEventType {
    Connected,
    Disconnected,
}

impl BlockPresenceType {
    /// The number that stands for the type in a message.
    pub fn value(self) -> (r: u8)
        ensures
            r == (if self is Have {
                0u8
            } else {
                1u8
            }),
    {
        match self {
            BlockPresenceType::Have => 0,
            BlockPresenceType::DontHave => 1,
        }
    }

    /// The type that `value` stands for, if it stands for one.
    pub fn from_value(value: u8) -> (r: Option<BlockPresenceType>)
        ensures
            r == (if value == 0 {
                Some(BlockPresenceType::Have)
            } else if value == 1 {
                Some(BlockPresenceType::DontHave)
            } else {
                None
            }),
    {
        match value {
            0 => Some(BlockPresenceType::Have),
            1 => Some(BlockPresenceType::DontHave),
            _ => None,
        }
    }
}

impl ConnectionEventType {
    /// The number that stands for the type in a message.
    pub fn value(self) -> (r: u8)
        ensures
            r == (if self is Connected {
                0u8
            } else {
                1u8
            }),
    {
        match self {
            ConnectionEventType::Connected => 0,
            ConnectionEventType::Disconnected => 1,
        }
    }

    /// The type that `value` stands for, if it stands for one.
    pub fn from_value(value: u8) -> (r: Option<ConnectionEventType>)
        ensures
            r == (if value == 0 {
                Some(ConnectionEventType::Connected)
            } else if value == 1 {
                Some(ConnectionEventType::Disconnected)
            } else {
                None
            }),
    {
        match value {
            0 => Some(ConnectionEventType::Connected),
            1 => Some(ConnectionEventType::Disconnected),
            _ => None,
        }
    }
}

/// Block presence indication, as contained in a Bitswap message.
#[derive(Clone, Debug)]
pub struct BlockPresence {
    pub cid: JsonCID,
    pub block_presence_type: BlockPresenceType,
}

/// A Bitswap message that a monitor received: requests, which are updates
/// to the wantlist of the sender, and responses, which are blocks and block
/// presences.
#[derive(Clone, Debug)]
pub struct BitswapMessage {
    pub wantlist_entries: Vec<JSONWantlistEntry>,
    pub full_wantlist: bool,
    pub blocks: Vec<JsonCID>,
    pub block_presences: Vec<BlockPresence>,
    pub connected_addresses: Vec<String>,
}

/// A connection event, as a monitor reports it.
#[derive(Clone, Debug)]
pub struct ConnectionEvent {
    pub remote: String,
    pub connection_event_type: ConnectionEventType,
}

/// What an event is about.
#[derive(Clone, Debug)]
pub enum EventType {
    BitswapMessage(BitswapMessage),
    ConnectionEvent(ConnectionEvent),
}

/// An event of a peer, as a monitor publishes it.
#[derive(Clone, Debug)]
pub struct PushedEvent {
    pub timestamp: Timestamp,
    pub peer: String,
    pub inner: EventType,
}

/// `k` spaces.
pub open spec fn spaces(k: int) -> Seq<char> {
    Seq::new(
        if k > 0 {
            k as nat
        } else {
            0
        },
        |i: int| ' ',
    )
}

/// `s`, filled up with spaces at its end to `width` characters where it has
/// fewer.
pub open spec fn padded(s: Seq<char>, width: int) -> Seq<char> {
    s + spaces(width - s.len())
}

/// The strings of `parts` in a row, with `separator` between them.
pub open spec fn joined(parts: Seq<Seq<char>>, separator: Seq<char>) -> Seq<char>
    decreases parts.len(),
{
    if parts.len() == 0 {
        Seq::empty()
    } else if parts.len() == 1 {
        parts[0]
    } else {
        joined(parts.drop_last(), separator) + separator + parts.last()
    }
}

/// `s` cut after `limit` bytes of its encoding. The cut must not fall into
/// the middle of a character.
pub open spec fn cut_after(s: Seq<char>, limit: int) -> Seq<char> {
    if encode_utf8(s).len() <= limit {
        s
    } else {
        decode_utf8(encode_utf8(s).take(limit))
    }
}

/// `s` can be cut after `limit` bytes.
pub open spec fn can_cut_after(s: Seq<char>, limit: int) -> bool {
    encode_utf8(s).len() <= limit || is_char_boundary(encode_utf8(s), limit)
}

/// The addresses of a Bitswap message in one string, cut to the width of
/// their column.
pub open spec fn address_column_text(addresses: Seq<Seq<char>>) -> Seq<char> {
    cut_after(joined(addresses, seq![',', ' ']), ADDRESSES_WIDTH as int)
}

impl PushedEvent {
    /// What `constant_width_identifier` asks of the event: the addresses of a
    /// Bitswap message, in one string, can be cut to the width of their
    /// column.
    pub open spec fn identifier_defined(&self) -> bool {
        match self.inner {
            EventType::BitswapMessage(msg) => can_cut_after(
                joined(texts(msg.connected_addresses@), seq![',', ' ']),
                ADDRESSES_WIDTH as int,
            ),
            EventType::ConnectionEvent(_) => true,
        }
    }

    /// The identifier of the event.
    pub open spec fn identifier(&self) -> Seq<char> {
        match self.inner {
            EventType::BitswapMessage(msg) => padded(self.peer@, PEER_WIDTH as int) + seq![
                ' ',
                '[',
            ] + padded(
                address_column_text(texts(msg.connected_addresses@)),
                ADDRESSES_WIDTH as int,
            ) + seq![']'],
            EventType::ConnectionEvent(event) => padded(self.peer@, PEER_WIDTH as int) + seq![' ']
                + padded(event.remote@, REMOTE_WIDTH as int),
        }
    }

    /// Whether `constant_width_identifier` is defined for the event.
    pub fn has_identifier(&self) -> (r: bool)
        ensures
            r == self.identifier_defined(),
    {
        match &self.inner {
            EventType::BitswapMessage(msg) => {
                let addrs = join_addresses(&msg.connected_addresses);
                addrs.as_str().as_bytes().len() <= ADDRESSES_WIDTH
                    || addrs.as_str().is_char_boundary(ADDRESSES_WIDTH)
            },
            EventType::ConnectionEvent(_) => true,
        }
    }

    /// An identifier of the event for lists in columns: the peer, and the
    /// addresses to which the monitor is connected or the address of the
    /// remote end of the connection. Each column is filled up with spaces to
    /// its width; the addresses are cut to theirs.
    pub fn constant_width_identifier(&self) -> (r: String)
        requires
            self.identifier_defined(),
        ensures
            r@ == self.identifier(),
    {
        let mut out = pad(self.peer.as_str(), PEER_WIDTH);
        match &self.inner {
            EventType::BitswapMessage(msg) => {
                let addrs = join_addresses(&msg.connected_addresses);
                let cut = cut(addrs.as_str(), ADDRESSES_WIDTH);
                out.append(" [");
                out.append(pad(cut, ADDRESSES_WIDTH).as_str());
                out.append("]");
                proof {
                    reveal_strlit(" [");
                    reveal_strlit("]");
                    assert(" ["@ =~= seq![' ', '[']);
                    assert("]"@ =~= seq![']']);
                }
                assert(out@ =~= self.identifier());
            },
            EventType::ConnectionEvent(event) => {
                out.append(" ");
                out.append(pad(event.remote.as_str(), REMOTE_WIDTH).as_str());
                proof {
                    reveal_strlit(" ");
                    assert(" "@ =~= seq![' ']);
                }
                assert(out@ =~= self.identifier());
            },
        }
        out
    }

    /// The wantlist message that the event amounts to, if it is a Bitswap
    /// message: the wantlist entries of the message, under the time and the
    /// peer of the event.
    pub fn wantlist_message(&self) -> (r: Option<JSONMessage>)
        ensures
            self.inner is ConnectionEvent ==> r is None,
            self.inner is BitswapMessage ==> r is Some && r->0.timestamp == self.timestamp
                && r->0.peer@ == self.peer@ && r->0.address is None && r->0.full_want_list
                == Some(self.inner->BitswapMessage_0.full_wantlist) && r->0.peer_connected is None
                && r->0.peer_disconnected is None && r->0.connect_event_peer_found is None
                && r->0.received_entries is Some && crate::wantlist::message_entries_view(
                r->0.received_entries->0@,
            ) == crate::wantlist::message_entries_view(
                self.inner->BitswapMessage_0.wantlist_entries@,
            ),
    {
        match &self.inner {
            EventType::BitswapMessage(msg) => {
                let mut entries: Vec<JSONWantlistEntry> = Vec::new();
                let mut i: usize = 0;
                while i < msg.wantlist_entries.len()
                    invariant
                        i <= msg.wantlist_entries.len(),
                        entries.len() == i,
                        forall|j: int|
                            0 <= j < i ==> (#[trigger] entries@[j])@ == msg.wantlist_entries@[j]@,
                    decreases msg.wantlist_entries.len() - i,
                {
                    let entry = &msg.wantlist_entries[i];
                    entries.push(
                        JSONWantlistEntry {
                            priority: entry.priority,
                            cancel: entry.cancel,
                            send_dont_have: entry.send_dont_have,
                            cid: JsonCID { path: entry.cid.path.clone() },
                            want_type: entry.want_type,
                        },
                    );
                    i += 1;
                }
                assert(crate::wantlist::message_entries_view(entries@)
                    =~= crate::wantlist::message_entries_view(msg.wantlist_entries@));
                Some(
                    JSONMessage {
                        timestamp: self.timestamp,
                        peer: self.peer.clone(),
                        address: None,
                        received_entries: Some(entries),
                        full_want_list: Some(msg.full_wantlist),
                        peer_connected: None,
                        peer_disconnected: None,
                        connect_event_peer_found: None,
                    },
                )
            },
            EventType::ConnectionEvent(_) => None,
        }
    }
}

/// `text`, filled up with spaces to `width` characters.
pub fn pad(text: &str, width: usize) -> (r: String)
    ensures
        r@ == padded(text@, width as int),
{
    let used = text.unicode_len();
    let missing: usize = if width > used {
        width - used
    } else {
        0
    };
    let mut out = String::new();
    out.append(text);
    let mut filled: usize = 0;
    assert(out@ =~= text@ + spaces(0));
    while filled < missing
        invariant
            filled <= missing,
            out@ == text@ + spaces(filled as int),
        decreases missing - filled,
    {
        out.append(" ");
        proof {
            reveal_strlit(" ");
            assert(out@ =~= text@ + spaces(filled + 1));
        }
        filled += 1;
    }
    out
}

/// The addresses in one string, with a comma and a space between them.
pub fn join_addresses(addresses: &Vec<String>) -> (r: String)
    ensures
        r@ == joined(texts(addresses@), seq![',', ' ']),
{
    let mut out = String::new();
    let mut i: usize = 0;
    let ghost all = texts(addresses@);
    assert(all.take(0) =~= Seq::<Seq<char>>::empty());
    while i < addresses.len()
        invariant
            i <= addresses.len(),
            all == texts(addresses@),
            out@ == joined(all.take(i as int), seq![',', ' ']),
        decreases addresses.len() - i,
    {
        let ghost before = out@;
        if i > 0 {
            out.append(", ");
            proof {
                reveal_strlit(", ");
                assert(", "@ =~= seq![',', ' ']);
            }
        }
        out.append(addresses[i].as_str());
        proof {
            let next = all.take(i + 1);
            assert(next.drop_last() =~= all.take(i as int));
            assert(next.last() == addresses@[i as int]@);
            if i == 0 {
                assert(out@ =~= next[0]);
            }
        }
        i += 1;
    }
    assert(all.take(addresses.len() as int) =~= all);
    out
}

/// `text`, cut after `limit` bytes.
pub fn cut(text: &str, limit: usize) -> (r: &str)
    requires
        can_cut_after(text@, limit as int),
    ensures
        r@ == cut_after(text@, limit as int),
{
    if text.as_bytes().len() <= limit {
        text
    } else {
        let (head, _) = text.split_at(limit);
        proof {
            encode_utf8_decode_utf8(head@);
            assert(encode_utf8(text@).subrange(0, limit as int) =~= encode_utf8(text@).take(
                limit as int,
            ));
        }
        head
    }
}

/// What has arrived from the broker.
#[derive(Clone, Copy, Debug, PartialEq, Eq, Structural)]
pub enum Delivery {
    /// The broker reported an error in place of a delivery.
    Failed,
    /// The routing key or the payload of the delivery cannot be read.
    Undecodable,
    /// The delivery holds events, Bitswap messages or connection events.
    Decoded { bitswap_messages: bool },
}

/// How a delivery is answered to the broker.
#[derive(Clone, Copy, Debug, PartialEq, Eq, Structural)]
pub enum Answer {
    /// There is no delivery to answer.
    Nothing,
    /// The delivery is taken.
    Acknowledge,
    /// The delivery is turned down.
    Refuse,
}

/// What is done with a delivery once it is answered.
#[derive(Clone, Copy, Debug, PartialEq, Eq, Structural)]
pub struct Plan {
    /// The events are handed to the subscriber.
    pub forward_events: bool,
    /// An error is handed to the subscriber.
    pub forward_error: bool,
    /// The events are written to the archive, once the subscriber has them
    /// and where the archive is switched on.
    pub archive: bool,
    /// No further delivery is read.
    pub stop: bool,
}

/// The answer that a delivery gets: events are acknowledged, what cannot be
/// read is refused.
pub fn answer_to(delivery: Delivery) -> (r: Answer)
    ensures
        r == match delivery {
            Delivery::Failed => Answer::Nothing,
            Delivery::Undecodable => Answer::Refuse,
            Delivery::Decoded { .. } => Answer::Acknowledge,
        },
{
    match delivery {
        Delivery::Failed => Answer::Nothing,
        Delivery::Undecodable => Answer::Refuse,
        Delivery::Decoded { .. } => Answer::Acknowledge,
    }
}

/// What is done with a delivery, given whether the broker took the answer.
/// Events whose acknowledgement the broker took are forwarded, and Bitswap
/// messages among them archived; everything else ends the reading with an
/// error for the subscriber.
pub fn plan_after(delivery: Delivery, answered: bool) -> (r: Plan)
    ensures
        r.forward_events == (delivery is Decoded && answered),
        r.forward_error == !r.forward_events,
        r.stop == !r.forward_events,
        r.archive == (answered && delivery == (Delivery::Decoded { bitswap_messages: true })),
{
    match delivery {
        Delivery::Decoded { bitswap_messages } => {
            if answered {
                Plan {
                    forward_events: true,
                    forward_error: false,
                    archive: bitswap_messages,
                    stop: false,
                }
            } else {
                Plan { forward_events: false, forward_error: true, archive: false, stop: true }
            }
        },
        _ => Plan { forward_events: false, forward_error: true, archive: false, stop: true },
    }
}

} // verus!

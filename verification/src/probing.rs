//! The probing of gateways: what is known of the probe of one gateway, and
//! how the answers of the gateway and the wantlists that the monitor sees
//! change it.
//!
//! A probe publishes data of its own under a fresh identifier, asks the
//! gateway for the data over HTTP, and waits for the peer that asks the
//! monitor for the identifier: that peer is the gateway.

use vstd::prelude::*;
use vstd::string::StringExecFns;
use crate::archive::optional_text;
use crate::monitoring::{EventType, PushedEvent};
use crate::naming::{
    decimal,
    decimal_string,
    replace_all,
    replace_marker,
    signed_decimal,
    signed_decimal_string,
};
use crate::sorted::Text;
use crate::text::{same_text, texts};
use crate::timestamp::Timestamp;
use crate::wantlist::{message_entries_view, JSONMessage, JSONWantlistEntry, MessageView};

verus! {

/// What stands for the identifier in the address of a gateway.
pub const HASH_MARKER: &'static str = ":hash";

/// What stands for the identifier in the address of a gateway that takes it
/// as the first label of its host name.
pub const HASH_LABEL: &'static str = ":hash.";

/// The fragment that keeps a browser extension from answering in the place
/// of the gateway.
pub const NO_REDIRECT_FRAGMENT: &'static str = "x-ipfs-companion-no-redirect";

/// How many bytes of data a probe publishes.
pub const PROBE_DATA_BYTES: usize = 1024;

/// How many seconds a probe waits before it asks again after a wrong answer.
pub const RETRY_PAUSE_SECONDS: u64 = 3;

/// The state of the probe of one gateway.
#[derive(Clone, Debug, PartialEq, Eq)]
pub struct ProbingState {
    /// The data that the probe published.
    pub data: Option<Vec<u8>>,
    /// The identifier of the data in its later form, as gateways are asked
    /// for it.
    pub cid_v1: Option<String>,
    /// The identifier of the data in its first form, as the node names it.
    pub cid_v0: Option<String>,
    /// When the gateway was first asked.
    pub http_request_timestamp: Option<Timestamp>,
    /// How often the gateway was asked.
    pub http_requests_sent: Option<u32>,
    /// The address that answered, in its textual form.
    pub http_request_remote: Option<String>,
    /// When the gateway answered with the data.
    pub http_success_timestamp: Option<Timestamp>,
    /// Why the gateway did not answer with the data.
    pub http_error_message: Option<String>,
    /// The wantlist message in which a peer asked for the data.
    pub wantlist_message: Option<JSONMessage>,
}

/// The state of a probe as contracts see it.
pub struct ProbingView {
    pub data: Option<Seq<u8>>,
    pub cid_v1: Option<Text>,
    pub cid_v0: Option<Text>,
    pub http_request_timestamp: Option<Timestamp>,
    pub http_requests_sent: Option<u32>,
    pub http_request_remote: Option<Text>,
    pub http_success_timestamp: Option<Timestamp>,
    pub http_error_message: Option<Text>,
    pub wantlist_message: Option<MessageView>,
}

impl View for ProbingState {
    type V = ProbingView;

    open spec fn view(&self) -> ProbingView {
        ProbingView {
            data: match self.data {
                Some(d) => Some(d@),
                None => None,
            },
            cid_v1: optional_text(self.cid_v1),
            cid_v0: optional_text(self.cid_v0),
            http_request_timestamp: self.http_request_timestamp,
            http_requests_sent: self.http_requests_sent,
            http_request_remote: optional_text(self.http_request_remote),
            http_success_timestamp: self.http_success_timestamp,
            http_error_message: optional_text(self.http_error_message),
            wantlist_message: match self.wantlist_message {
                Some(m) => Some(m@),
                None => None,
            },
        }
    }
}

impl ProbingView {
    /// The state in which nothing is known.
    pub open spec fn empty() -> ProbingView {
        ProbingView {
            data: None,
            cid_v1: None,
            cid_v0: None,
            http_request_timestamp: None,
            http_requests_sent: None,
            http_request_remote: None,
            http_success_timestamp: None,
            http_error_message: None,
            wantlist_message: None,
        }
    }

    /// The state with other identifiers.
    pub open spec fn with_cids(self, cid_v0: Option<Text>, cid_v1: Option<Text>) -> ProbingView {
        ProbingView {
            data: self.data,
            cid_v1,
            cid_v0,
            http_request_timestamp: self.http_request_timestamp,
            http_requests_sent: self.http_requests_sent,
            http_request_remote: self.http_request_remote,
            http_success_timestamp: self.http_success_timestamp,
            http_error_message: self.http_error_message,
            wantlist_message: self.wantlist_message,
        }
    }

    /// The state with another time of the first request.
    pub open spec fn with_request_timestamp(self, ts: Option<Timestamp>) -> ProbingView {
        ProbingView {
            data: self.data,
            cid_v1: self.cid_v1,
            cid_v0: self.cid_v0,
            http_request_timestamp: ts,
            http_requests_sent: self.http_requests_sent,
            http_request_remote: self.http_request_remote,
            http_success_timestamp: self.http_success_timestamp,
            http_error_message: self.http_error_message,
            wantlist_message: self.wantlist_message,
        }
    }

    /// The state with another count of requests.
    pub open spec fn with_requests_sent(self, sent: Option<u32>) -> ProbingView {
        ProbingView {
            data: self.data,
            cid_v1: self.cid_v1,
            cid_v0: self.cid_v0,
            http_request_timestamp: self.http_request_timestamp,
            http_requests_sent: sent,
            http_request_remote: self.http_request_remote,
            http_success_timestamp: self.http_success_timestamp,
            http_error_message: self.http_error_message,
            wantlist_message: self.wantlist_message,
        }
    }

    /// The state with another address that answered.
    pub open spec fn with_remote(self, remote: Option<Text>) -> ProbingView {
        ProbingView {
            data: self.data,
            cid_v1: self.cid_v1,
            cid_v0: self.cid_v0,
            http_request_timestamp: self.http_request_timestamp,
            http_requests_sent: self.http_requests_sent,
            http_request_remote: remote,
            http_success_timestamp: self.http_success_timestamp,
            http_error_message: self.http_error_message,
            wantlist_message: self.wantlist_message,
        }
    }

    /// The state with another time of the right answer.
    pub open spec fn with_success_timestamp(self, ts: Option<Timestamp>) -> ProbingView {
        ProbingView {
            data: self.data,
            cid_v1: self.cid_v1,
            cid_v0: self.cid_v0,
            http_request_timestamp: self.http_request_timestamp,
            http_requests_sent: self.http_requests_sent,
            http_request_remote: self.http_request_remote,
            http_success_timestamp: ts,
            http_error_message: self.http_error_message,
            wantlist_message: self.wantlist_message,
        }
    }

    /// The state with another error message.
    pub open spec fn with_error_message(self, message: Option<Text>) -> ProbingView {
        ProbingView {
            data: self.data,
            cid_v1: self.cid_v1,
            cid_v0: self.cid_v0,
            http_request_timestamp: self.http_request_timestamp,
            http_requests_sent: self.http_requests_sent,
            http_request_remote: self.http_request_remote,
            http_success_timestamp: self.http_success_timestamp,
            http_error_message: message,
            wantlist_message: self.wantlist_message,
        }
    }

    /// The state with another wantlist message.
    pub open spec fn with_wantlist_message(self, message: Option<MessageView>) -> ProbingView {
        ProbingView {
            data: self.data,
            cid_v1: self.cid_v1,
            cid_v0: self.cid_v0,
            http_request_timestamp: self.http_request_timestamp,
            http_requests_sent: self.http_requests_sent,
            http_request_remote: self.http_request_remote,
            http_success_timestamp: self.http_success_timestamp,
            http_error_message: self.http_error_message,
            wantlist_message: message,
        }
    }

    /// The row of the probe in the table of results.
    pub open spec fn row(self, gateway_host: Text, gateway_url: Text) -> Seq<Text> {
        seq![
            gateway_host,
            gateway_url,
            or_nothing(self.cid_v1),
            seconds_column(self.http_request_timestamp),
            millis_column(self.http_request_timestamp),
            or_nothing(self.http_error_message),
            seconds_column(self.http_success_timestamp),
            millis_column(self.http_success_timestamp),
            match self.http_requests_sent {
                Some(n) => decimal(n as nat),
                None => Seq::empty(),
            },
            or_nothing(self.http_request_remote),
            seconds_column(
                match self.wantlist_message {
                    Some(m) => Some(m.timestamp),
                    None => None,
                },
            ),
            millis_column(
                match self.wantlist_message {
                    Some(m) => Some(m.timestamp),
                    None => None,
                },
            ),
            match self.wantlist_message {
                Some(m) => m.peer,
                None => Seq::empty(),
            },
            match self.wantlist_message {
                Some(m) => or_nothing(m.address),
                None => Seq::empty(),
            },
        ]
    }
}

/// The text where there is one, else the empty text.
pub open spec fn or_nothing(text: Option<Text>) -> Text {
    match text {
        Some(t) => t,
        None => Seq::empty(),
    }
}

/// The seconds of a time in decimal digits; nothing where there is no time.
pub open spec fn seconds_column(ts: Option<Timestamp>) -> Text {
    match ts {
        Some(t) => signed_decimal(t.seconds as int),
        None => Seq::empty(),
    }
}

/// The milliseconds within the second of a time in decimal digits; nothing
/// where there is no time.
pub open spec fn millis_column(ts: Option<Timestamp>) -> Text {
    match ts {
        Some(t) => decimal(t.subsec_millis() as nat),
        None => Seq::empty(),
    }
}

/// The names of the columns of the table of results.
pub open spec fn header() -> Seq<Text> {
    seq![
        "gateway"@,
        "gateway_url"@,
        "cid"@,
        "http_request_ts"@,
        "http_request_ts_subsec_millis"@,
        "http_error_message"@,
        "http_success_ts"@,
        "http_success_ts_subsec_millis"@,
        "http_requests_sent"@,
        "http_remote"@,
        "first_wl_ts"@,
        "first_wl_ts_subsec_millis"@,
        "first_wl_peer"@,
        "first_wl_address"@,
    ]
}

/// What a probe says of an answer that is not the data.
pub open spec fn mismatch_text(expected: nat, got: nat) -> Text {
    "data mismatch, expected "@ + decimal(expected) + " bytes, got "@ + decimal(got)
        + " bytes (and maybe different ones)"@
}

/// What a probe says once it has asked as often as it may.
pub open spec fn gave_up_text(tries: nat, last_error: Text) -> Text {
    "did not get a correct response after "@ + decimal(tries) + " tries, last error: "@
        + last_error
}

/// The identifier in its later form that the cid and multibase crates give
/// for the identifier `hash`: the same content under version 1, written in
/// lower-case base 32. None where `hash` is no identifier.
pub uninterp spec fn cid_v1_text(hash: Seq<char>) -> Option<Seq<char>>;

/// `Cid::try_from`, `Cid::new_v1` and `Cid::to_bytes` of cid, and `encode` of
/// multibase: the identifier `hash` is read, set to version 1 with its codec
/// and its hash kept, and written in lower-case base 32. The result is a
/// function of `hash`; nothing more is claimed of it.
#[verifier::external_body]
fn cid_v1_of(hash: &str) -> (r: Option<String>)
    ensures
        optional_text(r) == cid_v1_text(hash@),
{
    let read = cid::Cid::try_from(hash).ok()?;
    let later = cid::Cid::new_v1(read.codec(), *read.hash());
    Some(multibase::encode(multibase::Base::Base32Lower, later.to_bytes()))
}

/// Whether two runs of bytes are the same.
pub fn same_bytes(a: &[u8], b: &[u8]) -> (r: bool)
    ensures
        r == (a@ == b@),
{
    if a.len() != b.len() {
        return false;
    }
    let mut i: usize = 0;
    while i < a.len()
        invariant
            i <= a.len(),
            a.len() == b.len(),
            forall|j: int| 0 <= j < i ==> a@[j] == b@[j],
        decreases a.len() - i,
    {
        if a[i] != b[i] {
            return false;
        }
        i += 1;
    }
    assert(a@ =~= b@);
    true
}

/// The text of a time's seconds; nothing where there is no time.
fn seconds_text(ts: &Option<Timestamp>) -> (r: String)
    ensures
        r@ == seconds_column(*ts),
{
    match ts {
        Some(t) => signed_decimal_string(t.timestamp()),
        None => String::new(),
    }
}

/// The text of a time's milliseconds; nothing where there is no time.
fn millis_text(ts: &Option<Timestamp>) -> (r: String)
    ensures
        r@ == millis_column(*ts),
{
    match ts {
        Some(t) => decimal_string(t.timestamp_subsec_millis() as u64),
        None => String::new(),
    }
}

/// The text where there is one, else the empty text.
fn text_or_nothing(text: &Option<String>) -> (r: String)
    ensures
        r@ == or_nothing(optional_text(*text)),
{
    match text {
        Some(t) => t.clone(),
        None => String::new(),
    }
}

impl ProbingState {
    /// The state in which nothing is known.
    pub fn new() -> (r: ProbingState)
        ensures
            r@ == ProbingView::empty(),
    {
        ProbingState {
            data: None,
            cid_v1: None,
            cid_v0: None,
            http_request_timestamp: None,
            http_requests_sent: None,
            http_request_remote: None,
            http_success_timestamp: None,
            http_error_message: None,
            wantlist_message: None,
        }
    }

    /// Notes the identifier under which the node published the data, in the
    /// form in which the node names it, `hash`, and in its later form,
    /// `later`.
    pub fn note_identifiers(&mut self, hash: String, later: String)
        ensures
            final(self)@ == old(self)@.with_cids(Some(hash@), Some(later@)),
    {
        self.cid_v0 = Some(hash);
        self.cid_v1 = Some(later);
    }

    /// Notes the identifier under which the node published the data, in the
    /// form in which the node names it and in the later form. An identifier
    /// that cannot be read changes nothing; the result says whether it was
    /// read.
    pub fn note_added(&mut self, hash: String) -> (r: bool)
        ensures
            r == cid_v1_text(hash@) is Some,
            final(self)@ == if r {
                old(self)@.with_cids(Some(hash@), cid_v1_text(hash@))
            } else {
                old(self)@
            },
    {
        match cid_v1_of(hash.as_str()) {
            Some(later) => {
                self.note_identifiers(hash, later);
                true
            },
            None => false,
        }
    }

    /// Notes that the gateway is about to be asked, at `now`.
    pub fn begin_requests(&mut self, now: Timestamp)
        ensures
            final(self)@ == old(self)@.with_request_timestamp(Some(now)),
    {
        self.http_request_timestamp = Some(now);
    }

    /// Notes that the gateway was asked once more than `earlier` times.
    pub fn note_request_sent(&mut self, earlier: u32)
        requires
            earlier < u32::MAX,
        ensures
            final(self)@ == old(self)@.with_requests_sent(Some((earlier + 1) as u32)),
    {
        self.http_requests_sent = Some(earlier + 1);
    }

    /// Notes an answer of the gateway, which came from `remote` at `now`. The
    /// answer is right when it is the data that the probe published: then
    /// the time is kept, and the result is none. Else the result says what
    /// is wrong.
    pub fn note_response(&mut self, remote: Option<String>, body: &[u8], now: Timestamp) -> (r:
        Option<String>)
        requires
            old(self)@.data is Some,
        ensures
            body@ == old(self)@.data->0 ==> r is None && final(self)@ == old(self)@.with_remote(
                optional_text(remote),
            ).with_success_timestamp(Some(now)),
            body@ != old(self)@.data->0 ==> r is Some && r->0@ == mismatch_text(
                old(self)@.data->0.len(),
                body@.len(),
            ) && final(self)@ == old(self)@.with_remote(optional_text(remote)),
    {
        self.http_request_remote = remote;
        let (right, expected) = match &self.data {
            Some(data) => (same_bytes(body, data.as_slice()), data.len()),
            None => (false, 0),
        };
        if right {
            self.http_success_timestamp = Some(now);
            None
        } else {
            let mut message = String::new();
            message.append("data mismatch, expected ");
            message.append(decimal_string(expected as u64).as_str());
            message.append(" bytes, got ");
            message.append(decimal_string(body.len() as u64).as_str());
            message.append(" bytes (and maybe different ones)");
            assert(message@ =~= mismatch_text(old(self)@.data->0.len(), body@.len()));
            Some(message)
        }
    }

    /// Notes that the gateway was asked `num_tries` times in vain. Where an
    /// error is known of the last try, it becomes the error of the probe.
    pub fn note_gave_up(&mut self, num_tries: u32, last_error: Option<String>)
        ensures
            final(self)@ == match last_error {
                Some(e) => old(self)@.with_error_message(
                    Some(gave_up_text(num_tries as nat, e@)),
                ),
                None => old(self)@,
            },
    {
        match last_error {
            Some(e) => {
                let mut message = String::new();
                message.append("did not get a correct response after ");
                message.append(decimal_string(num_tries as u64).as_str());
                message.append(" tries, last error: ");
                message.append(e.as_str());
                assert(message@ =~= gave_up_text(num_tries as nat, e@));
                self.http_error_message = Some(message);
            },
            None => {},
        }
    }

    /// Notes that the probe failed with `error`, unless an error is noted
    /// already.
    pub fn note_failure(&mut self, error: String)
        ensures
            final(self)@ == if old(self)@.http_error_message is None {
                old(self)@.with_error_message(Some(error@))
            } else {
                old(self)@
            },
    {
        if self.http_error_message.is_none() {
            self.http_error_message = Some(error);
        }
    }

    /// The row of the probe in the table of results.
    pub fn csv_row(&self, gateway_host: &str, gateway_url: &str) -> (r: Vec<String>)
        ensures
            texts(r@) == self@.row(gateway_host@, gateway_url@),
    {
        let wantlist_ts = match &self.wantlist_message {
            Some(m) => Some(m.timestamp),
            None => None,
        };
        let mut row: Vec<String> = Vec::new();
        row.push(gateway_host.to_owned());
        row.push(gateway_url.to_owned());
        row.push(text_or_nothing(&self.cid_v1));
        row.push(seconds_text(&self.http_request_timestamp));
        row.push(millis_text(&self.http_request_timestamp));
        row.push(text_or_nothing(&self.http_error_message));
        row.push(seconds_text(&self.http_success_timestamp));
        row.push(millis_text(&self.http_success_timestamp));
        row.push(
            match self.http_requests_sent {
                Some(n) => decimal_string(n as u64),
                None => String::new(),
            },
        );
        row.push(text_or_nothing(&self.http_request_remote));
        row.push(seconds_text(&wantlist_ts));
        row.push(millis_text(&wantlist_ts));
        row.push(
            match &self.wantlist_message {
                Some(m) => m.peer.clone(),
                None => String::new(),
            },
        );
        row.push(
            match &self.wantlist_message {
                Some(m) => text_or_nothing(&m.address),
                None => String::new(),
            },
        );
        assert(texts(row@) =~= self@.row(gateway_host@, gateway_url@));
        row
    }
}

impl Default for ProbingState {
    /// The state in which nothing is known.
    fn default() -> (r: ProbingState)
        ensures
            r@ == ProbingView::empty(),
    {
        ProbingState::new()
    }
}

/// The names of the columns of the table of results.
pub fn csv_header() -> (r: Vec<String>)
    ensures
        texts(r@) == header(),
{
    let mut row: Vec<String> = Vec::new();
    row.push("gateway".to_owned());
    row.push("gateway_url".to_owned());
    row.push("cid".to_owned());
    row.push("http_request_ts".to_owned());
    row.push("http_request_ts_subsec_millis".to_owned());
    row.push("http_error_message".to_owned());
    row.push("http_success_ts".to_owned());
    row.push("http_success_ts_subsec_millis".to_owned());
    row.push("http_requests_sent".to_owned());
    row.push("http_remote".to_owned());
    row.push("first_wl_ts".to_owned());
    row.push("first_wl_ts_subsec_millis".to_owned());
    row.push("first_wl_peer".to_owned());
    row.push("first_wl_address".to_owned());
    assert(texts(row@) =~= header());
    row
}

/// The address at which a gateway is asked for an identifier: the address
/// of the gateway with the identifier in the place of every marker.
pub fn probe_url(gateway: &str, cid: &str) -> (r: String)
    ensures
        r@ == replace_all(gateway@, HASH_MARKER@, cid@),
{
    replace_marker(gateway, HASH_MARKER, cid)
}

/// The address of the site of a gateway: the address of the gateway without
/// the label that stands for the identifier.
pub fn gateway_site(gateway: &str) -> (r: String)
    ensures
        r@ == replace_all(gateway@, HASH_LABEL@, Seq::empty()),
{
    let r = replace_marker(gateway, HASH_LABEL, "");
    proof {
        reveal_strlit("");
        assert(""@ =~= Seq::<char>::empty());
    }
    r
}

/// The probes, with the address of their gateway, as contracts see them.
pub open spec fn probes_view(v: Seq<(String, ProbingState)>) -> Seq<(Text, ProbingView)> {
    Seq::new(v.len(), |i: int| (v[i].0@, v[i].1@))
}

/// The index of the first of `entries` that is among `interesting`; the
/// number of entries where there is none.
pub open spec fn first_interesting(entries: Seq<Text>, interesting: Seq<Text>) -> int
    decreases entries.len(),
{
    if entries.len() == 0 {
        0
    } else if interesting.contains(entries[0]) {
        0
    } else {
        1 + first_interesting(entries.skip(1), interesting)
    }
}

/// The index of the first probe that waits for the identifier `cid`: it has
/// no wantlist message yet, and `cid` is the identifier of its data. The
/// number of probes where there is none.
pub open spec fn first_waiting(probes: Seq<(Text, ProbingView)>, cid: Text) -> int
    decreases probes.len(),
{
    if probes.len() == 0 {
        0
    } else if probes[0].1.wantlist_message is None && probes[0].1.cid_v1 == Some(cid) {
        0
    } else {
        1 + first_waiting(probes.skip(1), cid)
    }
}

/// The identifiers of the wantlist entries of an event; none for an event
/// that is no Bitswap message.
pub open spec fn wanted_cids(event: PushedEvent) -> Seq<Text> {
    match event.inner {
        EventType::BitswapMessage(msg) => entry_cids(msg.wantlist_entries@),
        EventType::ConnectionEvent(_) => Seq::empty(),
    }
}

/// An index that has nothing interesting before it, and something
/// interesting or the end at it, is the index of the first interesting entry.
proof fn lemma_first_interesting_at(entries: Seq<Text>, interesting: Seq<Text>, k: int)
    requires
        0 <= k <= entries.len(),
        forall|j: int| 0 <= j < k ==> !interesting.contains(entries[j]),
        k < entries.len() ==> interesting.contains(entries[k]),
    ensures
        first_interesting(entries, interesting) == k,
    decreases k,
{
    if k > 0 {
        let rest = entries.skip(1);
        assert(!interesting.contains(entries[0]));
        assert forall|j: int| 0 <= j < k - 1 implies !interesting.contains(rest[j]) by {
            assert(rest[j] == entries[j + 1]);
        }
        if k < entries.len() {
            assert(rest[k - 1] == entries[k]);
        }
        lemma_first_interesting_at(rest, interesting, k - 1);
    }
}

/// An index before which no probe waits for `cid`, and at which one does or
/// the probes end, is the index of the first probe that waits for it.
proof fn lemma_first_waiting_at(probes: Seq<(Text, ProbingView)>, cid: Text, k: int)
    requires
        0 <= k <= probes.len(),
        forall|j: int|
            0 <= j < k ==> !((#[trigger] probes[j]).1.wantlist_message is None && probes[j].1.cid_v1
                == Some(cid)),
        k < probes.len() ==> probes[k].1.wantlist_message is None && probes[k].1.cid_v1 == Some(
            cid,
        ),
    ensures
        first_waiting(probes, cid) == k,
    decreases k,
{
    if k > 0 {
        let rest = probes.skip(1);
        assert(!(probes[0].1.wantlist_message is None && probes[0].1.cid_v1 == Some(cid)));
        assert forall|j: int| 0 <= j < k - 1 implies !((#[trigger] rest[j]).1.wantlist_message
            is None && rest[j].1.cid_v1 == Some(cid)) by {
            assert(rest[j] == probes[j + 1]);
        }
        if k < probes.len() {
            assert(rest[k - 1] == probes[k]);
        }
        lemma_first_waiting_at(rest, cid, k - 1);
    }
}

/// Whether `cid` is among `cids`.
pub fn is_interesting(cids: &Vec<String>, cid: &str) -> (r: bool)
    ensures
        r == texts(cids@).contains(cid@),
{
    let mut i: usize = 0;
    while i < cids.len()
        invariant
            i <= cids.len(),
            forall|j: int| 0 <= j < i ==> texts(cids@)[j] != cid@,
        decreases cids.len() - i,
    {
        if same_text(cids[i].as_str(), cid) {
            assert(texts(cids@)[i as int] == cid@);
            return true;
        }
        i += 1;
    }
    false
}

/// Takes `cid` out of `cids`, wherever it stands.
pub fn forget(cids: &mut Vec<String>, cid: &str)
    ensures
        forall|t: Text|
            texts(final(cids)@).contains(t) <==> (texts(old(cids)@).contains(t) && t != cid@),
{
    let ghost before = texts(cids@);
    let mut kept: Vec<String> = Vec::new();
    let mut i: usize = 0;
    while i < cids.len()
        invariant
            i <= cids.len(),
            cids.len() == before.len(),
            forall|j: int| i <= j < cids.len() ==> (#[trigger] cids@[j])@ == before[j],
            forall|t: Text|
                texts(kept@).contains(t) <==> (before.take(i as int).contains(t) && t != cid@),
        decreases cids.len() - i,
    {
        let ghost seen = before.take(i as int);
        let ghost held = texts(kept@);
        assert(cids@[i as int]@ == before[i as int]);
        let same = same_text(cids[i].as_str(), cid);
        let mut name = String::new();
        std::mem::swap(&mut name, &mut cids[i]);
        if !same {
            kept.push(name);
        }
        proof {
            let next = before.take(i + 1);
            let now = texts(kept@);
            let x = before[i as int];
            assert(next =~= seen.push(x));
            assert(same == (x == cid@));
            if !same {
                assert(now =~= held.push(x));
            } else {
                assert(now =~= held);
            }
            assert forall|t: Text| now.contains(t) <==> (next.contains(t) && t != cid@) by {
                assert(held.contains(t) <==> (seen.contains(t) && t != cid@));
                if held.contains(t) {
                    let j = choose|j: int| 0 <= j < held.len() && held[j] == t;
                    assert(now[j] == t);
                }
                if seen.contains(t) {
                    let k = choose|k: int| 0 <= k < seen.len() && seen[k] == t;
                    assert(next[k] == t);
                }
                if t == x {
                    assert(next[i as int] == t);
                    if !same {
                        assert(now[now.len() - 1] == t);
                    }
                }
                if now.contains(t) && !held.contains(t) {
                    let j = choose|j: int| 0 <= j < now.len() && now[j] == t;
                    if j < held.len() {
                        assert(held[j] == t);
                    }
                }
                if next.contains(t) && !seen.contains(t) {
                    let k = choose|k: int| 0 <= k < next.len() && next[k] == t;
                    if k < seen.len() {
                        assert(seen[k] == t);
                    }
                }
            }
        }
        i += 1;
    }
    assert(before.take(cids.len() as int) =~= before);
    *cids = kept;
}

/// Takes in an event of the monitor. In a Bitswap message, the first
/// wantlist entry whose identifier is among `cids` is the one that counts:
/// its identifier is taken out of `cids`, and the first probe that waits for
/// the identifier gets the message. Nothing else changes.
pub fn note_wantlist(
    probes: &mut Vec<(String, ProbingState)>,
    cids: &mut Vec<String>,
    event: &PushedEvent,
)
    ensures
        final(probes).len() == old(probes).len(),
        ({
            let wanted = wanted_cids(*event);
            let at = first_interesting(wanted, texts(old(cids)@));
            if at >= wanted.len() {
                &&& probes_view(final(probes)@) == probes_view(old(probes)@)
                &&& texts(final(cids)@) == texts(old(cids)@)
            } else {
                let to = first_waiting(probes_view(old(probes)@), wanted[at]);
                &&& forall|t: Text|
                    texts(final(cids)@).contains(t) <==> (texts(old(cids)@).contains(t) && t
                        != wanted[at])
                &&& forall|g: int|
                    0 <= g < old(probes).len() && g != to ==> (#[trigger] probes_view(
                        final(probes)@,
                    )[g]) == probes_view(old(probes)@)[g]
                &&& to < old(probes).len() ==> probes_view(final(probes)@)[to].0 == probes_view(
                    old(probes)@,
                )[to].0 && event.inner is BitswapMessage && ({
                    let given = probes_view(final(probes)@)[to].1.wantlist_message;
                    &&& given is Some
                    &&& probes_view(final(probes)@)[to].1 == probes_view(
                        old(probes)@,
                    )[to].1.with_wantlist_message(given)
                    &&& given->0.timestamp == event.timestamp
                    &&& given->0.peer == event.peer@
                    &&& given->0.address is None
                    &&& given->0.received_entries == Some(
                        message_entries_view(event.inner->BitswapMessage_0.wantlist_entries@),
                    )
                    &&& given->0.full_want_list == Some(
                        event.inner->BitswapMessage_0.full_wantlist,
                    )
                    &&& given->0.peer_connected is None
                    &&& given->0.peer_disconnected is None
                    &&& given->0.connect_event_peer_found is None
                })
            }
        }),
{
    let ghost wanted = wanted_cids(*event);
    let ghost before = probes_view(probes@);
    let msg = match &event.inner {
        EventType::BitswapMessage(msg) => msg,
        EventType::ConnectionEvent(_) => {
            return ;
        },
    };
    let i = first_interesting_entry(&msg.wantlist_entries, cids);
    assert(wanted =~= entry_cids(msg.wantlist_entries@));
    if i >= msg.wantlist_entries.len() {
        return ;
    }
    let cid = &msg.wantlist_entries[i].cid.path;
    assert(cid@ == wanted[i as int]);
    let g = first_waiting_probe(probes, cid.as_str());
    if g < probes.len() {
        probes[g].1.wantlist_message = event.wantlist_message();
        assert forall|h: int| 0 <= h < probes.len() && h != g implies (#[trigger] probes_view(
            probes@,
        )[h]) == before[h] by {
            assert(probes@[h] == old(probes)@[h]);
        }
    }
    forget(cids, cid.as_str());
}

/// The identifiers of wantlist entries, in their order.
pub open spec fn entry_cids(entries: Seq<JSONWantlistEntry>) -> Seq<Text> {
    Seq::new(entries.len(), |i: int| entries[i].cid@)
}

/// The index of the first of `entries` whose identifier is among `cids`.
fn first_interesting_entry(entries: &Vec<JSONWantlistEntry>, cids: &Vec<String>) -> (r: usize)
    ensures
        r == first_interesting(entry_cids(entries@), texts(cids@)),
        r <= entries.len(),
{
    let ghost wanted = entry_cids(entries@);
    let mut i: usize = 0;
    while i < entries.len()
        invariant
            i <= entries.len(),
            wanted == entry_cids(entries@),
            forall|j: int| 0 <= j < i ==> !texts(cids@).contains(wanted[j]),
        decreases entries.len() - i,
    {
        assert(wanted[i as int] == entries@[i as int].cid@);
        if is_interesting(cids, entries[i].cid.path.as_str()) {
            proof {
                lemma_first_interesting_at(wanted, texts(cids@), i as int);
            }
            return i;
        }
        i += 1;
    }
    proof {
        lemma_first_interesting_at(wanted, texts(cids@), i as int);
    }
    i
}

/// The index of the first probe that waits for `cid`.
fn first_waiting_probe(probes: &Vec<(String, ProbingState)>, cid: &str) -> (r: usize)
    ensures
        r == first_waiting(probes_view(probes@), cid@),
        r <= probes.len(),
{
    let ghost all = probes_view(probes@);
    let mut g: usize = 0;
    while g < probes.len()
        invariant
            g <= probes.len(),
            all == probes_view(probes@),
            forall|j: int|
                0 <= j < g ==> !((#[trigger] all[j]).1.wantlist_message is None && all[j].1.cid_v1
                    == Some(cid@)),
        decreases probes.len() - g,
    {
        assert(all[g as int] == (probes@[g as int].0@, probes@[g as int].1@));
        let waits = probes[g].1.wantlist_message.is_none() && match &probes[g].1.cid_v1 {
            Some(own) => same_text(own.as_str(), cid),
            None => false,
        };
        if waits {
            proof {
                lemma_first_waiting_at(all, cid@, g as int);
            }
            return g;
        }
        g += 1;
    }
    proof {
        lemma_first_waiting_at(all, cid@, g as int);
    }
    g
}

} // verus!

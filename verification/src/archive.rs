//! The archive of events: what is collected from the monitors until it is
//! written out, one block of lines for every monitor, and the names of the
//! files that the blocks are written to.

use vstd::prelude::*;
use vstd::string::StringExecFns;
use crate::sorted::Text;
use crate::text::{push_char, same_text};
use crate::timestamp::Timestamp;

verus! {

broadcast use vstd::string::group_string_axioms;

/// The directory under which the archive is kept.
pub const ARCHIVE_ROOT: &'static str = "/ipfs-tools/archive/";

/// The ending of the name of an archive file.
pub const ARCHIVE_SUFFIX: &'static str = ".json.gz";

/// The form of the time in the name of an archive file of collected events:
/// year, month, day, hour and minute.
pub const ARCHIVE_STAMP_PATTERN: &'static str = "%Y-%m-%d-%H-%M";

/// The form of the time in the name of an archive file of one delivery: as
/// `ARCHIVE_STAMP_PATTERN`, and the second and the millisecond.
pub const DELIVERY_STAMP_PATTERN: &'static str = "%Y-%m-%d-%H-%M-%S-%3f";

/// For how many seconds events are collected before they are made into
/// lines, and lines before they are written.
pub const BUFFER_SECONDS: u64 = 120;

/// `s` without its spaces and line feeds.
pub open spec fn without_blanks(s: Seq<char>) -> Seq<char>
    decreases s.len(),
{
    if s.len() == 0 {
        s
    } else if s.last() == ' ' || s.last() == '\n' {
        without_blanks(s.drop_last())
    } else {
        without_blanks(s.drop_last()).push(s.last())
    }
}

/// The line of the archive for an event: the text of the event without its
/// spaces and line feeds, and a line feed at its end.
pub open spec fn compact(s: Seq<char>) -> Seq<char> {
    without_blanks(s).push('\n')
}

/// The line of the archive for an event, from the text of the event.
pub fn compact_line(event: &str) -> (r: String)
    ensures
        r@ == compact(event@),
{
    let mut out = String::new();
    for c in it: event.chars()
        invariant
            it.seq() == event@,
            out@ == without_blanks(event@.take(it.index())),
    {
        proof {
            let next = event@.take(it.index() + 1);
            assert(next.drop_last() =~= event@.take(it.index()));
            assert(next.last() == c);
        }
        if c != ' ' && c != '\n' {
            push_char(&mut out, c);
        }
    }
    assert(event@.take(event@.len() as int) =~= event@);
    push_char(&mut out, '\n');
    out
}

/// The monitors that `entries` name, each once, in the order in which they
/// are first named.
pub open spec fn monitors(entries: Seq<(Text, Text)>) -> Seq<Text>
    decreases entries.len(),
{
    if entries.len() == 0 {
        Seq::empty()
    } else if monitors(entries.drop_last()).contains(entries.last().0) {
        monitors(entries.drop_last())
    } else {
        monitors(entries.drop_last()).push(entries.last().0)
    }
}

/// The texts that `entries` hold for `monitor`, one after the other in the
/// order of the entries.
pub open spec fn block_of(entries: Seq<(Text, Text)>, monitor: Text) -> Text
    decreases entries.len(),
{
    if entries.len() == 0 {
        Seq::empty()
    } else if entries.last().0 == monitor {
        block_of(entries.drop_last(), monitor) + entries.last().1
    } else {
        block_of(entries.drop_last(), monitor)
    }
}

/// One block for every monitor that `entries` name.
pub open spec fn blocks(entries: Seq<(Text, Text)>) -> Seq<(Text, Text)> {
    Seq::new(
        monitors(entries).len(),
        |i: int| (monitors(entries)[i], block_of(entries, monitors(entries)[i])),
    )
}

/// The pairs of `v` as contracts see them.
pub open spec fn text_pairs(v: Seq<(String, String)>) -> Seq<(Text, Text)> {
    Seq::new(v.len(), |i: int| (v[i].0@, v[i].1@))
}

/// A monitor that is not named has an empty block, and no monitor is named
/// twice among the monitors.
pub proof fn lemma_monitors(entries: Seq<(Text, Text)>, monitor: Text)
    ensures
        !monitors(entries).contains(monitor) ==> block_of(entries, monitor).len() == 0,
        forall|i: int, j: int|
            0 <= i < j < monitors(entries).len() ==> monitors(entries)[i] != monitors(entries)[j],
    decreases entries.len(),
{
    if entries.len() > 0 {
        let before = monitors(entries.drop_last());
        lemma_monitors(entries.drop_last(), monitor);
        lemma_monitors(entries.drop_last(), entries.last().0);
        let now = monitors(entries);
        if !before.contains(entries.last().0) {
            assert(now[before.len() as int] == entries.last().0);
            assert forall|i: int, j: int| 0 <= i < j < now.len() implies now[i] != now[j] by {
                assert(now[i] == before[i]);
                if j < before.len() {
                    assert(now[j] == before[j]);
                }
            }
        }
        if !now.contains(monitor) && before.contains(monitor) {
            let i = choose|i: int| 0 <= i < before.len() && before[i] == monitor;
            assert(now[i] == monitor);
        }
    }
}

/// The index of the first group of `monitor`; the number of groups where
/// there is none.
fn find_group(groups: &Vec<(String, String)>, monitor: &str) -> (r: usize)
    ensures
        r <= groups.len(),
        r < groups.len() ==> groups@[r as int].0@ == monitor@,
        forall|i: int| 0 <= i < r ==> (#[trigger] groups@[i]).0@ != monitor@,
{
    let mut j: usize = 0;
    while j < groups.len()
        invariant
            j <= groups.len(),
            forall|i: int| 0 <= i < j ==> (#[trigger] groups@[i]).0@ != monitor@,
        decreases groups.len() - j,
    {
        if same_text(groups[j].0.as_str(), monitor) {
            return j;
        }
        j += 1;
    }
    j
}

/// What was collected since the archive was last written: pairs of the name
/// of a monitor and a text, in the order in which they came.
#[derive(Clone, Debug)]
pub struct ArchiveBuffer {
    entries: Vec<(String, String)>,
}

impl View for ArchiveBuffer {
    type V = Seq<(Text, Text)>;

    closed spec fn view(&self) -> Seq<(Text, Text)> {
        text_pairs(self.entries@)
    }
}

impl ArchiveBuffer {
    /// A buffer that holds nothing.
    pub fn new() -> (r: ArchiveBuffer)
        ensures
            r@.len() == 0,
    {
        ArchiveBuffer { entries: Vec::new() }
    }

    /// Whether the buffer holds nothing.
    pub fn is_empty(&self) -> (r: bool)
        ensures
            r == (self@.len() == 0),
    {
        self.entries.len() == 0
    }

    /// Adds a text of `monitor_name` behind everything that the buffer holds.
    pub fn push(&mut self, monitor_name: String, text: String)
        ensures
            final(self)@ == old(self)@.push((monitor_name@, text@)),
    {
        self.entries.push((monitor_name, text));
        assert(text_pairs(self.entries@) =~= text_pairs(old(self).entries@).push(
            (monitor_name@, text@),
        ));
    }

    /// Empties the buffer into one block for every monitor. The block of a
    /// monitor holds the texts of the monitor one after the other in the
    /// order in which they came; the blocks stand in the order in which their
    /// monitors were first named.
    pub fn drain_by_monitor(&mut self) -> (r: Vec<(String, String)>)
        ensures
            final(self)@.len() == 0,
            text_pairs(r@) == blocks(old(self)@),
    {
        let mut taken: Vec<(String, String)> = Vec::new();
        std::mem::swap(&mut taken, &mut self.entries);
        let ghost all = text_pairs(taken@);
        let mut groups: Vec<(String, String)> = Vec::new();
        let mut k: usize = 0;
        assert(all.take(0) =~= Seq::<(Text, Text)>::empty());
        assert(text_pairs(groups@) =~= blocks(all.take(0)));
        while k < taken.len()
            invariant
                k <= taken.len(),
                all == text_pairs(taken@),
                text_pairs(groups@) == blocks(all.take(k as int)),
            decreases taken.len() - k,
        {
            let ghost seen = all.take(k as int);
            let ghost next = all.take(k + 1);
            let ghost before = text_pairs(groups@);
            let ghost monitor = taken@[k as int].0@;
            let ghost text = taken@[k as int].1@;
            proof {
                assert(next.drop_last() =~= seen);
                assert(next.last() == (monitor, text));
                lemma_monitors(seen, monitor);
                assert(before.len() == blocks(seen).len());
                assert(groups.len() == monitors(seen).len());
            }
            let j = find_group(&groups, taken[k].0.as_str());
            proof {
                assert forall|i: int| 0 <= i < groups.len() implies before[i].0 == monitors(
                    seen,
                )[i] by {
                    assert(before[i] == blocks(seen)[i]);
                }
            }
            if j < groups.len() {
                assert(before[j as int].0 == monitors(seen)[j as int]);
                assert(monitors(seen)[j as int] == monitor);
                groups[j].1.append(taken[k].1.as_str());
                proof {
                    assert(monitors(next) == monitors(seen));
                    assert forall|i: int| 0 <= i < groups.len() implies (
                    #[trigger] text_pairs(groups@)[i]) == blocks(next)[i] by {
                        assert(before[i] == blocks(seen)[i]);
                        if i != j {
                            assert(monitors(seen)[i] != monitor);
                        }
                    }
                    assert(text_pairs(groups@) =~= blocks(next));
                }
            } else {
                proof {
                    assert forall|i: int| 0 <= i < monitors(seen).len() implies monitors(seen)[i]
                        != monitor by {
                        assert(before[i].0 == groups@[i].0@);
                    }
                    assert(!monitors(seen).contains(monitor));
                }
                groups.push((taken[k].0.clone(), taken[k].1.clone()));
                proof {
                    assert(monitors(next) == monitors(seen).push(monitor));
                    assert forall|i: int| 0 <= i < groups.len() implies (
                    #[trigger] text_pairs(groups@)[i]) == blocks(next)[i] by {
                        if i < before.len() {
                            assert(before[i] == blocks(seen)[i]);
                            assert(monitors(seen)[i] != monitor);
                        } else {
                            assert(block_of(next, monitor) =~= text);
                        }
                    }
                    assert(text_pairs(groups@) =~= blocks(next));
                }
            }
            k += 1;
        }
        assert(all.take(taken.len() as int) =~= all);
        assert(text_pairs(self.entries@) =~= Seq::<(Text, Text)>::empty());
        groups
    }
}

impl Default for ArchiveBuffer {
    /// A buffer that holds nothing.
    fn default() -> (r: ArchiveBuffer)
        ensures
            r@.len() == 0,
    {
        ArchiveBuffer::new()
    }
}

/// The name of the archive file of `monitor` for the time that `stamp`
/// names.
pub open spec fn archive_file_name(monitor: Text, stamp: Text) -> Text {
    ARCHIVE_ROOT@ + monitor + seq!['/'] + stamp + ARCHIVE_SUFFIX@
}

/// The directory of the archive files of `monitor`.
pub open spec fn archive_directory_name(monitor: Text) -> Text {
    ARCHIVE_ROOT@ + monitor + seq!['/']
}

/// The directory of the archive files of a monitor.
pub fn archive_directory(monitor_name: &str) -> (r: String)
    ensures
        r@ == archive_directory_name(monitor_name@),
{
    let mut name = String::new();
    name.append(ARCHIVE_ROOT);
    name.append(monitor_name);
    name.append("/");
    proof {
        reveal_strlit("/");
        assert("/"@ =~= seq!['/']);
    }
    assert(name@ =~= archive_directory_name(monitor_name@));
    name
}

/// The name of the archive file of a monitor for the time that `stamp`
/// names.
pub fn archive_file(monitor_name: &str, stamp: &str) -> (r: String)
    ensures
        r@ == archive_file_name(monitor_name@, stamp@),
{
    let mut name = archive_directory(monitor_name);
    name.append(stamp);
    name.append(ARCHIVE_SUFFIX);
    assert(name@ =~= archive_file_name(monitor_name@, stamp@));
    name
}

/// The text that chrono writes for the point in time of `seconds` and
/// `subsec_nanos` after the epoch, in UTC, under the format `pattern`; none
/// where chrono has no such point in time or does not accept the format.
pub uninterp spec fn formatted_time(
    seconds: int,
    subsec_nanos: int,
    pattern: Seq<char>,
) -> Option<Seq<char>>;

/// The view of a text that may be absent.
pub open spec fn optional_text(text: Option<String>) -> Option<Seq<char>> {
    match text {
        Some(t) => Some(t@),
        None => None,
    }
}

/// `DateTime::from_timestamp` and `DateTime::format` of chrono: the point in
/// time as a date and a time of day in UTC, written under `pattern`, which
/// is one of the two patterns of this module. The result is a function of
/// the arguments; nothing more is claimed of it.
#[verifier::external_body]
fn format_time(ts: &Timestamp, pattern: &str) -> (r: Option<String>)
    requires
        pattern@ == ARCHIVE_STAMP_PATTERN@ || pattern@ == DELIVERY_STAMP_PATTERN@,
    ensures
        optional_text(r) == formatted_time(ts.seconds as int, ts.subsec_nanos as int, pattern@),
{
    let moment = chrono::DateTime::from_timestamp(ts.seconds, ts.subsec_nanos)?;
    let mut out = String::new();
    match moment.format(pattern).write_to(&mut out) {
        Ok(()) => Some(out),
        Err(_) => None,
    }
}

/// The name of the archive file into which the events of a monitor are
/// written that were collected until `now`; none where `now` cannot be
/// written as a date.
pub fn archive_file_at(monitor_name: &str, now: &Timestamp) -> (r: Option<String>)
    ensures
        optional_text(r) == match formatted_time(
            now.seconds as int,
            now.subsec_nanos as int,
            ARCHIVE_STAMP_PATTERN@,
        ) {
            Some(stamp) => Some(archive_file_name(monitor_name@, stamp)),
            None => None,
        },
{
    match format_time(now, ARCHIVE_STAMP_PATTERN) {
        Some(stamp) => Some(archive_file(monitor_name, stamp.as_str())),
        None => None,
    }
}

/// The name of the archive file into which one delivery of a monitor is
/// written that arrived at `now`; none where `now` cannot be written as a
/// date.
pub fn delivery_file_at(monitor_name: &str, now: &Timestamp) -> (r: Option<String>)
    ensures
        optional_text(r) == match formatted_time(
            now.seconds as int,
            now.subsec_nanos as int,
            DELIVERY_STAMP_PATTERN@,
        ) {
            Some(stamp) => Some(archive_file_name(monitor_name@, stamp)),
            None => None,
        },
{
    match format_time(now, DELIVERY_STAMP_PATTERN) {
        Some(stamp) => Some(archive_file(monitor_name, stamp.as_str())),
        None => None,
    }
}

} // verus!

//! The names of files: the pattern of the output files, in which the marker
//! `$id$` stands for the id of the last message, written with at least nine
//! digits; and the pattern of the input files, in which `*` and `?` stand for
//! what may vary.

use vstd::prelude::*;
use vstd::string::{StrSliceExecFns, StringExecFns};
use crate::text::{chars_of, compare_text, push_char, text_lt, texts, TextOrder};

verus! {

/// The marker that stands for the message id in a pattern.
pub const ID_MARKER: &'static str = "$id$";

/// The width to which message ids are padded with zeros.
pub const ID_WIDTH: usize = 9;

/// The character of a decimal digit.
pub open spec fn digit(d: int) -> char {
    if d == 0 {
        '0'
    } else if d == 1 {
        '1'
    } else if d == 2 {
        '2'
    } else if d == 3 {
        '3'
    } else if d == 4 {
        '4'
    } else if d == 5 {
        '5'
    } else if d == 6 {
        '6'
    } else if d == 7 {
        '7'
    } else if d == 8 {
        '8'
    } else {
        '9'
    }
}

/// The decimal digits of `n`, the most significant first, without leading
/// zeros.
pub open spec fn decimal(n: nat) -> Seq<char>
    decreases n,
{
    if n < 10 {
        seq![digit(n as int)]
    } else {
        decimal(n / 10).push(digit((n % 10) as int))
    }
}

/// `k` zeros.
pub open spec fn zeros(k: int) -> Seq<char> {
    Seq::new(
        if k > 0 {
            k as nat
        } else {
            0
        },
        |i: int| '0',
    )
}

/// `id` in decimal digits, filled up with zeros to `width` characters where
/// it has fewer. The sign of a negative number counts as one of the
/// characters and stands before the zeros.
pub open spec fn zero_padded(id: int, width: int) -> Seq<char> {
    if id < 0 {
        seq!['-'] + zeros(width - 1 - decimal((-id) as nat).len()) + decimal((-id) as nat)
    } else {
        zeros(width - decimal(id as nat).len()) + decimal(id as nat)
    }
}

/// `n` in decimal digits, with a sign before them where it is negative.
pub open spec fn signed_decimal(n: int) -> Seq<char> {
    zero_padded(n, 0)
}

/// `s` begins with `prefix`.
pub open spec fn starts_with(s: Seq<char>, prefix: Seq<char>) -> bool {
    prefix.len() <= s.len() && s.take(prefix.len() as int) == prefix
}

/// `s` with every occurrence of `from` replaced by `to`. The occurrences are
/// taken from left to right, and none of them overlaps another. An empty
/// `from` occurs nowhere.
pub open spec fn replace_all(s: Seq<char>, from: Seq<char>, to: Seq<char>) -> Seq<char>
    decreases s.len(),
{
    if from.len() == 0 || s.len() == 0 {
        s
    } else if starts_with(s, from) {
        to + replace_all(s.skip(from.len() as int), from, to)
    } else {
        seq![s[0]] + replace_all(s.skip(1), from, to)
    }
}

/// The name of the wantlist output file that is begun after the message
/// `id`: the pattern with the padded id in the place of every marker.
pub open spec fn wantlist_output_name(pattern: Seq<char>, id: int) -> Seq<char> {
    replace_all(pattern, ID_MARKER@, zero_padded(id, ID_WIDTH as int))
}

/// The digits in `ds`, which holds the least significant digit first, as
/// text with the most significant digit first.
pub open spec fn digits_text(ds: Seq<u8>) -> Seq<char> {
    Seq::new(ds.len(), |j: int| digit(ds[ds.len() - 1 - j] as int))
}

/// The text of one decimal digit.
fn digit_str(d: u8) -> (r: &'static str)
    requires
        d < 10,
    ensures
        r@ == seq![digit(d as int)],
{
    proof {
        reveal_strlit("0");
        reveal_strlit("1");
        reveal_strlit("2");
        reveal_strlit("3");
        reveal_strlit("4");
        reveal_strlit("5");
        reveal_strlit("6");
        reveal_strlit("7");
        reveal_strlit("8");
        reveal_strlit("9");
    }
    let r = if d == 0 {
        "0"
    } else if d == 1 {
        "1"
    } else if d == 2 {
        "2"
    } else if d == 3 {
        "3"
    } else if d == 4 {
        "4"
    } else if d == 5 {
        "5"
    } else if d == 6 {
        "6"
    } else if d == 7 {
        "7"
    } else if d == 8 {
        "8"
    } else {
        "9"
    };
    assert(r@ =~= seq![digit(d as int)]);
    r
}

/// The digits of `n`, the least significant first.
fn digits_of(n: u64) -> (ds: Vec<u8>)
    ensures
        digits_text(ds@) == decimal(n as nat),
        forall|i: int| 0 <= i < ds.len() ==> ds@[i] < 10,
{
    let mut ds: Vec<u8> = Vec::new();
    let mut m: u64 = n;
    assert(digits_text(ds@) =~= Seq::<char>::empty());
    assert(decimal(m as nat) + digits_text(ds@) =~= decimal(n as nat));
    while m >= 10
        invariant
            decimal(n as nat) == decimal(m as nat) + digits_text(ds@),
            forall|i: int| 0 <= i < ds.len() ==> ds@[i] < 10,
        decreases m,
    {
        let d = (m % 10) as u8;
        let ghost before = ds@;
        ds.push(d);
        proof {
            let after = ds@;
            assert(digits_text(after) =~= seq![digit(d as int)] + digits_text(before)) by {
                assert forall|j: int| 0 <= j < after.len() implies digits_text(after)[j] == (seq![
                    digit(d as int),
                ] + digits_text(before))[j] by {
                    if j > 0 {
                        assert(after[after.len() - 1 - j] == before[before.len() - 1 - (j - 1)]);
                    }
                }
            }
            assert(decimal(m as nat) == decimal((m / 10) as nat).push(digit((m % 10) as int)));
            assert(decimal((m / 10) as nat).push(digit(d as int)) + digits_text(before)
                =~= decimal((m / 10) as nat) + (seq![digit(d as int)] + digits_text(before)));
        }
        m = m / 10;
    }
    let d = m as u8;
    let ghost before = ds@;
    ds.push(d);
    proof {
        let after = ds@;
        assert(digits_text(after) =~= seq![digit(d as int)] + digits_text(before)) by {
            assert forall|j: int| 0 <= j < after.len() implies digits_text(after)[j] == (seq![
                digit(d as int),
            ] + digits_text(before))[j] by {
                if j > 0 {
                    assert(after[after.len() - 1 - j] == before[before.len() - 1 - (j - 1)]);
                }
            }
        }
    }
    ds
}

/// `n` in decimal digits.
pub fn decimal_string(n: u64) -> (r: String)
    ensures
        r@ == decimal(n as nat),
{
    let ds = digits_of(n);
    let mut out = String::new();
    let mut j: usize = 0;
    while j < ds.len()
        invariant
            j <= ds.len(),
            forall|i: int| 0 <= i < ds.len() ==> ds@[i] < 10,
            out@ == digits_text(ds@).take(j as int),
        decreases ds.len() - j,
    {
        let ghost before = out@;
        out.append(digit_str(ds[ds.len() - 1 - j]));
        assert(out@ =~= digits_text(ds@).take(j + 1));
        j += 1;
    }
    assert(digits_text(ds@).take(ds.len() as int) =~= digits_text(ds@));
    out
}

/// `id` in decimal digits, filled up with zeros to `width` characters.
pub fn zero_padded_id(id: i64, width: usize) -> (r: String)
    ensures
        r@ == zero_padded(id as int, width as int),
{
    let magnitude: u64 = if id < 0 {
        (-(id + 1)) as u64 + 1
    } else {
        id as u64
    };
    let digits = decimal_string(magnitude);
    let used: usize = digits.as_str().unicode_len();
    let mut out = String::new();
    let room: usize = if id < 0 {
        out.append("-");
        proof {
            reveal_strlit("-");
        }
        assert(out@ =~= seq!['-']);
        if width > 0 {
            width - 1
        } else {
            0
        }
    } else {
        width
    };
    let pad: usize = if room > used {
        room - used
    } else {
        0
    };
    let ghost sign = out@;
    let mut filled: usize = 0;
    assert(out@ =~= sign + zeros(0));
    while filled < pad
        invariant
            filled <= pad,
            out@ == sign + zeros(filled as int),
        decreases pad - filled,
    {
        out.append("0");
        proof {
            reveal_strlit("0");
            assert(out@ =~= sign + zeros(filled + 1));
        }
        filled += 1;
    }
    out.append(digits.as_str());
    assert(out@ =~= zero_padded(id as int, width as int));
    out
}

/// `n` in decimal digits, with a sign before them where it is negative.
pub fn signed_decimal_string(n: i64) -> (r: String)
    ensures
        r@ == signed_decimal(n as int),
{
    zero_padded_id(n, 0)
}

/// Whether `marker` stands in `text` at the index `at`.
fn matches_at(text: &Vec<char>, at: usize, marker: &Vec<char>) -> (r: bool)
    requires
        at <= text.len(),
    ensures
        r == starts_with(text@.skip(at as int), marker@),
{
    if marker.len() > text.len() - at {
        return false;
    }
    let ghost rest = text@.skip(at as int);
    let mut k: usize = 0;
    while k < marker.len()
        invariant
            k <= marker.len(),
            marker.len() <= text.len() - at,
            rest == text@.skip(at as int),
            forall|j: int| 0 <= j < k ==> rest[j] == marker@[j],
        decreases marker.len() - k,
    {
        if text[at + k] != marker[k] {
            assert(rest.take(marker.len() as int)[k as int] != marker@[k as int]);
            return false;
        }
        k += 1;
    }
    assert(rest.take(marker.len() as int) =~= marker@);
    true
}

/// `text` with every occurrence of `marker` replaced by `with`.
pub fn replace_marker(text: &str, marker: &str, with: &str) -> (r: String)
    ensures
        r@ == replace_all(text@, marker@, with@),
{
    let mut out = String::new();
    let from = chars_of(marker);
    if from.len() == 0 {
        out.append(text);
        assert(out@ =~= text@);
        return out;
    }
    let all = chars_of(text);
    let mut i: usize = 0;
    assert(text@.skip(0) =~= text@);
    assert(out@ + replace_all(text@, marker@, with@) =~= replace_all(text@, marker@, with@));
    while i < all.len()
        invariant
            i <= all.len(),
            all@ == text@,
            from@ == marker@,
            from.len() > 0,
            replace_all(text@, marker@, with@) == out@ + replace_all(
                text@.skip(i as int),
                marker@,
                with@,
            ),
        decreases all.len() - i,
    {
        let ghost before = out@;
        let ghost rest = text@.skip(i as int);
        if matches_at(&all, i, &from) {
            out.append(with);
            proof {
                assert(rest.skip(from.len() as int) =~= text@.skip(i + from.len()));
                assert(before + (with@ + replace_all(rest.skip(from.len() as int), marker@, with@))
                    =~= (before + with@) + replace_all(text@.skip(i + from.len()), marker@, with@));
            }
            i = i + from.len();
        } else {
            push_char(&mut out, all[i]);
            proof {
                assert(rest.skip(1) =~= text@.skip(i + 1));
                assert(rest[0] == text@[i as int]);
                assert(before + (seq![rest[0]] + replace_all(rest.skip(1), marker@, with@))
                    =~= before.push(text@[i as int]) + replace_all(
                    text@.skip(i + 1),
                    marker@,
                    with@,
                ));
            }
            i += 1;
        }
    }
    assert(text@.skip(all.len() as int).len() == 0);
    assert(out@ =~= replace_all(text@, marker@, with@));
    out
}

/// The name of the wantlist output file that is begun after the message
/// `current_message_id`.
pub fn wantlist_output_file(pattern: &str, current_message_id: i64) -> (r: String)
    ensures
        r@ == wantlist_output_name(pattern@, current_message_id as int),
{
    let id = zero_padded_id(current_message_id, ID_WIDTH);
    replace_marker(pattern, ID_MARKER, id.as_str())
}

/// `name` is of the form `pattern`: every `*` of the pattern stands for a
/// run of characters of any length, every `?` for one character, and every
/// other character for itself.
pub open spec fn glob_match(pattern: Seq<char>, name: Seq<char>) -> bool
    decreases pattern.len(), name.len(),
{
    if pattern.len() == 0 {
        name.len() == 0
    } else if pattern[0] == '*' {
        glob_match(pattern.skip(1), name) || (name.len() > 0 && glob_match(pattern, name.skip(1)))
    } else {
        name.len() > 0 && (pattern[0] == '?' || pattern[0] == name[0]) && glob_match(
            pattern.skip(1),
            name.skip(1),
        )
    }
}

/// Whether `name` is of the form `pattern`.
pub fn glob_matches(pattern: &str, name: &str) -> (r: bool)
    ensures
        r == glob_match(pattern@, name@),
{
    let p = chars_of(pattern);
    let s = chars_of(name);
    let n = p.len();
    let m = s.len();
    // `row[j]` says whether the name from `j` on is of the form of the
    // pattern from `i` on; at first for the empty pattern.
    let mut row: Vec<bool> = Vec::new();
    let mut j: usize = 0;
    while j < m
        invariant
            j <= m,
            m == s.len(),
            row.len() == j,
            forall|k: int| 0 <= k < j ==> row@[k] == false,
        decreases m - j,
    {
        row.push(false);
        j += 1;
    }
    row.push(true);
    assert forall|k: int| 0 <= k <= m implies row@[k] == glob_match(
        p@.skip(n as int),
        s@.skip(k),
    ) by {
        assert(p@.skip(n as int).len() == 0);
    }
    let mut i: usize = n;
    while i > 0
        invariant
            i <= n,
            n == p.len(),
            m == s.len(),
            p@ == pattern@,
            s@ == name@,
            row.len() == m + 1,
            forall|k: int| 0 <= k <= m ==> row@[k] == glob_match(p@.skip(i as int), s@.skip(k)),
        decreases i,
    {
        i -= 1;
        let c = p[i];
        let ghost below = row@;
        let ghost here = p@.skip(i as int);
        proof {
            assert(here[0] == c);
            assert(here.skip(1) =~= p@.skip(i + 1));
        }
        if c == '*' {
            // The entry at the end stays: the name has ended, the star stands for nothing.
            assert(s@.skip(m as int).len() == 0);
            let mut j: usize = m;
            while j > 0
                invariant
                    j <= m,
                    m == s.len(),
                    row.len() == m + 1,
                    below.len() == m + 1,
                    here == p@.skip(i as int),
                    here.len() > 0,
                    here[0] == '*',
                    here.skip(1) == p@.skip(i + 1),
                    forall|k: int|
                        0 <= k <= m ==> below[k] == glob_match(p@.skip(i + 1), s@.skip(k)),
                    forall|k: int| 0 <= k < j ==> row@[k] == below[k],
                    forall|k: int| j <= k <= m ==> row@[k] == glob_match(here, s@.skip(k)),
                decreases j,
            {
                j -= 1;
                proof {
                    assert(s@.skip(j as int).skip(1) =~= s@.skip(j + 1));
                    assert(s@.skip(j as int).len() > 0);
                }
                let longer = row[j + 1];
                let shorter = row[j];
                let ghost before_row = row@;
                row[j] = shorter || longer;
                assert(row@ == before_row.update(j as int, shorter || longer));
                assert(shorter == below[j as int]);
                assert(longer == glob_match(here, s@.skip(j + 1)));
                assert(glob_match(here, s@.skip(j as int)) == (glob_match(
                    here.skip(1),
                    s@.skip(j as int),
                ) || glob_match(here, s@.skip(j as int).skip(1))));
            }
        } else {
            let mut j: usize = 0;
            while j < m
                invariant
                    j <= m,
                    m == s.len(),
                    c != '*',
                    row.len() == m + 1,
                    below.len() == m + 1,
                    here == p@.skip(i as int),
                    here.len() > 0,
                    here[0] == c,
                    here.skip(1) == p@.skip(i + 1),
                    forall|k: int|
                        0 <= k <= m ==> below[k] == glob_match(p@.skip(i + 1), s@.skip(k)),
                    forall|k: int| j <= k <= m ==> row@[k] == below[k],
                    forall|k: int| 0 <= k < j ==> row@[k] == glob_match(here, s@.skip(k)),
                decreases m - j,
            {
                proof {
                    assert(s@.skip(j as int).skip(1) =~= s@.skip(j + 1));
                    assert(s@.skip(j as int)[0] == s@[j as int]);
                }
                let next = row[j + 1];
                let ghost before_row = row@;
                row[j] = (c == '?' || c == s[j]) && next;
                assert(row@ == before_row.update(
                    j as int,
                    (c == '?' || c == s@[j as int]) && next,
                ));
                assert(next == below[j + 1]);
                assert(glob_match(here, s@.skip(j as int)) == ((c == '?' || c == s@[j as int])
                    && glob_match(here.skip(1), s@.skip(j as int).skip(1))));
                j += 1;
            }
            assert(s@.skip(m as int).len() == 0);
            row[m] = false;
        }
    }
    assert(p@.skip(0) =~= p@);
    assert(s@.skip(0) =~= s@);
    row[0]
}

/// The names ascend: none of them comes before a name before it.
pub open spec fn names_ascend(names: Seq<Seq<char>>) -> bool {
    forall|i: int, j: int| 0 <= i <= j < names.len() ==> !text_lt(names[j], names[i])
}

/// The names in ascending order, which is the order in which files are
/// read.
pub fn in_ascending_order(names: Vec<String>) -> (r: Vec<String>)
    ensures
        names_ascend(texts(r@)),
        texts(r@).to_multiset() == texts(names@).to_multiset(),
{
    let ghost given = texts(names@);
    let mut rest = names;
    let mut out: Vec<String> = Vec::new();
    let mut i: usize = 0;
    assert(given.take(0) =~= Seq::<Seq<char>>::empty());
    assert(texts(out@) =~= Seq::<Seq<char>>::empty());
    while i < rest.len()
        invariant
            i <= rest.len(),
            rest.len() == given.len(),
            forall|j: int| i <= j < rest.len() ==> (#[trigger] rest@[j])@ == given[j],
            names_ascend(texts(out@)),
            texts(out@).to_multiset() == given.take(i as int).to_multiset(),
        decreases rest.len() - i,
    {
        let mut name = String::new();
        std::mem::swap(&mut name, &mut rest[i]);
        assert(name@ == given[i as int]);
        let mut at: usize = 0;
        while at < out.len() && !is_before(name.as_str(), out[at].as_str())
            invariant
                at <= out.len(),
                forall|j: int| 0 <= j < at ==> !text_lt(name@, (#[trigger] out@[j])@),
            decreases out.len() - at,
        {
            at += 1;
        }
        let ghost before = texts(out@);
        out.insert(at, name);
        proof {
            let after = texts(out@);
            let x = given[i as int];
            assert(after =~= before.insert(at as int, x));
            assert forall|a: int, b: int| 0 <= a <= b < after.len() implies !text_lt(
                after[b],
                after[a],
            ) by {
                let pa = if a < at {
                    a
                } else {
                    a - 1
                };
                let pb = if b < at {
                    b
                } else {
                    b - 1
                };
                if a == b {
                    crate::text::lemma_text_lt_irreflexive(after[a]);
                } else if a != at && b != at {
                    assert(after[a] == before[pa] && after[b] == before[pb]);
                } else if a == at {
                    // Every name from `at` on comes after the new one.
                    assert(after[b] == before[pb]);
                    assert(!text_lt(before[pb], before[at as int]));
                    assert(text_lt(x, before[at as int]));
                    if text_lt(before[pb], x) {
                        crate::text::lemma_text_lt_transitive(before[pb], x, before[at as int]);
                    }
                } else {
                    assert(after[a] == before[pa]);
                }
            }
            assert(after.remove(at as int) =~= before);
            vstd::seq_lib::to_multiset_remove(after, at as int);
            after.to_multiset_ensures();
            assert(after.contains(x)) by {
                assert(after[at as int] == x);
            }
            assert(after.to_multiset() =~= before.to_multiset().insert(x));
            assert(given.take(i + 1) =~= given.take(i as int).push(x));
            vstd::seq_lib::to_multiset_build(given.take(i as int), x);
        }
        i += 1;
    }
    assert(given.take(rest.len() as int) =~= given);
    out
}

/// Whether `a` comes before `b`.
fn is_before(a: &str, b: &str) -> (r: bool)
    ensures
        r == text_lt(a@, b@),
{
    match compare_text(a, b) {
        TextOrder::Before => true,
        _ => false,
    }
}

} // verus!

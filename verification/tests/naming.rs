use bitswap_wantlist::naming::{
    decimal_string, glob_matches, in_ascending_order, replace_marker, signed_decimal_string,
    wantlist_output_file, zero_padded_id,
};
use bitswap_wantlist::text::chars_of;

#[test]
fn decimal_string_writes_every_digit() {
    assert_eq!(decimal_string(0), "0");
    assert_eq!(decimal_string(7), "7");
    assert_eq!(decimal_string(10), "10");
    assert_eq!(decimal_string(1234567890), "1234567890");
    assert_eq!(decimal_string(u64::MAX), "18446744073709551615");
}

#[test]
fn zero_padded_id_pads_to_the_width() {
    assert_eq!(zero_padded_id(0, 9), "000000000");
    assert_eq!(zero_padded_id(42, 9), "000000042");
    assert_eq!(zero_padded_id(123456789, 9), "123456789");
    assert_eq!(zero_padded_id(1234567890, 9), "1234567890");
    assert_eq!(zero_padded_id(5, 0), "5");
    assert_eq!(zero_padded_id(5, 1), "5");
    assert_eq!(zero_padded_id(5, 2), "05");
}

#[test]
fn zero_padded_id_counts_the_sign() {
    assert_eq!(zero_padded_id(-1, 9), "-00000001");
    assert_eq!(zero_padded_id(-1, 9), format!("{:09}", -1));
    assert_eq!(zero_padded_id(-12345678, 9), "-12345678");
    assert_eq!(zero_padded_id(-123456789, 9), "-123456789");
    assert_eq!(zero_padded_id(i64::MIN, 9), "-9223372036854775808");
    assert_eq!(zero_padded_id(i64::MAX, 9), "9223372036854775807");
    assert_eq!(zero_padded_id(-7, 0), "-7");
    assert_eq!(zero_padded_id(-7, 1), "-7");
}

#[test]
fn zero_padded_id_agrees_with_formatting() {
    for id in [
        0i64,
        1,
        9,
        10,
        99,
        100,
        999_999_999,
        1_000_000_000,
        -1,
        -10,
        -99_999_999,
        -100_000_000,
    ] {
        assert_eq!(zero_padded_id(id, 9), format!("{:09}", id));
    }
}

#[test]
fn replace_marker_replaces_every_occurrence() {
    assert_eq!(replace_marker("a-b-c", "-", "+"), "a+b+c");
    assert_eq!(replace_marker("aaa", "aa", "b"), "ba");
    assert_eq!(replace_marker("abc", "abcd", "x"), "abc");
    assert_eq!(replace_marker("abc", "", "x"), "abc");
    assert_eq!(replace_marker("", "a", "x"), "");
    assert_eq!(replace_marker("ééé", "é", "e"), "eee");
    assert_eq!(replace_marker("$id$id$", "$id$", "7"), "7id$");
    assert_eq!(replace_marker("x$id$", "$id$", ""), "x");
}

#[test]
fn replace_marker_agrees_with_replace() {
    for (text, from, to) in [
        ("wl-$id$.csv.gz", "$id$", "000000001"),
        ("$id$$id$", "$id$", "1"),
        ("$i$id$d$", "$id$", "<>"),
        ("no marker", "$id$", "1"),
        ("ababab", "aba", "c"),
    ] {
        assert_eq!(replace_marker(text, from, to), text.replace(from, to));
    }
}

#[test]
fn wantlist_output_file_fills_in_the_padded_id() {
    assert_eq!(wantlist_output_file("/data/wl-$id$.csv.gz", 0), "/data/wl-000000000.csv.gz");
    assert_eq!(wantlist_output_file("/data/wl-$id$.csv.gz", 31337), "/data/wl-000031337.csv.gz");
    assert_eq!(wantlist_output_file("$id$/$id$", 5), "000000005/000000005");
    assert_eq!(wantlist_output_file("fixed.csv.gz", 5), "fixed.csv.gz");
}

#[test]
fn glob_matches_stars_and_question_marks() {
    let cases = [
        ("", "", true),
        ("", "a", false),
        ("*", "", true),
        ("*", "anything.json.gz", true),
        ("?", "", false),
        ("?", "a", true),
        ("?", "ab", false),
        ("a*", "a", true),
        ("a*", "ab", true),
        ("a*", "ba", false),
        ("*a", "a", true),
        ("*a", "ba", true),
        ("*a", "ab", false),
        ("*.json.gz", "2021-01-02T03:04:05.json.gz", true),
        ("*.json.gz", "2021-01-02T03:04:05.json", false),
        ("log-*-??.gz", "log-x-01.gz", true),
        ("log-*-??.gz", "log--01.gz", true),
        ("log-*-??.gz", "log-x-1.gz", false),
        ("a*b*c", "abc", true),
        ("a*b*c", "aXbYc", true),
        ("a*b*c", "aXbYcZ", false),
        ("a*b*c", "acb", false),
        ("**", "x", true),
        ("a**b", "ab", true),
        ("é*", "éa", true),
        ("?", "é", true),
        ("abc", "abc", true),
        ("abc", "abd", false),
    ];
    for (pattern, name, expected) in cases {
        assert_eq!(glob_matches(pattern, name), expected, "{:?} on {:?}", pattern, name);
    }
}

#[test]
fn chars_of_gives_every_character() {
    assert_eq!(chars_of(""), Vec::<char>::new());
    assert_eq!(chars_of("aé日"), vec!['a', 'é', '日']);
}

#[test]
fn in_ascending_order_sorts_names() {
    let names = |v: &[&str]| v.iter().map(|s| s.to_string()).collect::<Vec<String>>();
    assert_eq!(in_ascending_order(vec![]), Vec::<String>::new());
    assert_eq!(in_ascending_order(names(&["b"])), names(&["b"]));
    assert_eq!(
        in_ascending_order(names(&[
            "2021-03-01T00:00:00.json.gz",
            "2020-12-31T23:59:59.json.gz",
            "2021-03-01T00:00:00.json.gz",
            "2021-01-15T12:00:00.json.gz",
            "",
            "é",
            "z",
        ])),
        names(&[
            "",
            "2020-12-31T23:59:59.json.gz",
            "2021-01-15T12:00:00.json.gz",
            "2021-03-01T00:00:00.json.gz",
            "2021-03-01T00:00:00.json.gz",
            "z",
            "é",
        ])
    );
    let mut expected = names(&["b", "a", "c", "ab", "B", "10", "9"]);
    let sorted = in_ascending_order(expected.clone());
    expected.sort();
    assert_eq!(sorted, expected);
}

#[test]
fn signed_decimal_string_writes_the_sign() {
    assert_eq!(signed_decimal_string(0), "0");
    assert_eq!(signed_decimal_string(15), "15");
    assert_eq!(signed_decimal_string(-15), "-15");
    assert_eq!(signed_decimal_string(i64::MIN), i64::MIN.to_string());
}

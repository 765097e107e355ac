use bitswap_wantlist::text::{compare_text, same_text, TextOrder};

fn expected(a: &str, b: &str) -> TextOrder {
    if a < b {
        TextOrder::Before
    } else if a == b {
        TextOrder::Same
    } else {
        TextOrder::After
    }
}

#[test]
fn compare_text_orders_by_bytes() {
    assert_eq!(compare_text("", ""), TextOrder::Same);
    assert_eq!(compare_text("", "a"), TextOrder::Before);
    assert_eq!(compare_text("a", ""), TextOrder::After);
    assert_eq!(compare_text("Qm", "Qma"), TextOrder::Before);
    assert_eq!(compare_text("QmB", "QmA"), TextOrder::After);
    assert_eq!(compare_text("Z", "a"), TextOrder::Before);
    assert_eq!(compare_text("bafy2", "bafy2"), TextOrder::Same);
}

#[test]
fn compare_text_agrees_with_the_order_of_strings() {
    let samples = [
        "",
        "a",
        "A",
        "ab",
        "abc",
        "b",
        "é",
        "e",
        "z",
        "zz",
        "日本",
        "日本語",
        "\u{10FFFF}",
        "\u{7f}",
        "\u{80}",
        "QmYwAPJzv5CZsnA625s3Xf2nemtYgPpHdWEz79ojWnPbdG",
        "bafybeigdyrzt5sfp7udm7hu76uh7y26nf3",
    ];
    for a in samples.iter() {
        for b in samples.iter() {
            assert_eq!(compare_text(a, b), expected(a, b), "{:?} against {:?}", a, b);
            assert_eq!(same_text(a, b), a == b);
        }
    }
}

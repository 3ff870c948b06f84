use hc_helper::client_ip;
use hc_helper::text::{
    characters, cut_before, decimal_text, is_white_space, join, parse_u128, parse_u64, trim,
};

#[test]
fn client_is_named_or_unknown() {
    assert_eq!(client_ip(Some("203.0.113.7")), "203.0.113.7");
    assert_eq!(client_ip(None), "unknown");
}

#[test]
fn characters_are_not_bytes() {
    assert_eq!(characters("aé€😀"), vec!['a', 'é', '€', '😀']);
    assert!(characters("").is_empty());
}

#[test]
fn white_space_is_that_of_unicode() {
    for c in '\0'..=char::MAX {
        assert_eq!(is_white_space(c), c.is_whitespace(), "{:?}", c);
    }
}

#[test]
fn trimming_takes_both_ends_off() {
    for text in [
        "",
        " ",
        "a",
        "  a b  ",
        "\t\n a\u{3000}",
        "\u{2003}é\u{a0}\u{2029}",
        "a\u{200b}",
        "\u{feff}a",
    ] {
        assert_eq!(trim(text), text.trim());
    }
}

#[test]
fn cutting_keeps_what_is_in_front() {
    assert_eq!(cut_before("2024-05-06T07:08:09Z", 'T'), "2024-05-06");
    assert_eq!(cut_before("2024-05-06", 'T'), "2024-05-06");
    assert_eq!(cut_before("T1T2", 'T'), "");
    assert_eq!(cut_before("", 'T'), "");
}

#[test]
fn joining_separates_neighbours() {
    assert_eq!(join(&vec![], "+"), "");
    assert_eq!(join(&vec!["a"], "+"), "a");
    assert_eq!(join(&vec!["a", "", "b"], ", "), "a, , b");
}

#[test]
fn decimal_notation_is_that_of_std() {
    for n in [
        0,
        1,
        9,
        10,
        99,
        100,
        1_234_567_890,
        u64::MAX as u128,
        u128::MAX - 1,
        u128::MAX,
    ] {
        assert_eq!(decimal_text(n), n.to_string());
    }
}

#[test]
fn decimal_notation_reads_back() {
    for n in [0, 7, 10, 12_345, u128::MAX] {
        assert_eq!(parse_u128(&decimal_text(n)), Some(n));
    }
}

#[test]
fn numbers_are_read_as_std_reads_them() {
    for text in [
        "",
        "+",
        "-",
        "-0",
        "-1",
        "+5",
        "++5",
        "0",
        "007",
        "12a",
        "a12",
        " 12",
        "12 ",
        "1_000",
        "１２",
        "18446744073709551615",
        "18446744073709551616",
        "00000000000000000000000000018446744073709551615",
        "340282366920938463463374607431768211455",
        "340282366920938463463374607431768211456",
        "3402823669209384634633746074317682114550",
        "99999999999999999999999999999999999999999999x",
    ] {
        assert_eq!(parse_u128(text), text.parse::<u128>().ok(), "{text}");
        assert_eq!(parse_u64(text), text.parse::<u64>().ok(), "{text}");
    }
}

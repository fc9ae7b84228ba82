use task_manager::text::{append_decimal, is_whitespace, parse_u32, trim};

fn decimal_of(n: u32) -> String {
    let mut out = String::new();
    append_decimal(&mut out, n);
    out
}

#[test]
fn whitespace_is_what_std_calls_whitespace() {
    for code in 0u32..=0x10ffff {
        if let Some(c) = char::from_u32(code) {
            assert_eq!(is_whitespace(c), c.is_whitespace(), "U+{:04X}", code);
        }
    }
}

#[test]
fn trim_removes_white_space_at_both_ends_only() {
    assert_eq!(trim("  buy milk \n"), "buy milk");
    assert_eq!(trim("1\n"), "1");
    assert_eq!(trim("1\r\n"), "1");
    assert_eq!(trim("\t a  b \u{3000}"), "a  b");
    assert_eq!(trim("no-space"), "no-space");
}

#[test]
fn trim_of_nothing_but_white_space_is_empty() {
    assert_eq!(trim(""), "");
    assert_eq!(trim("\n"), "");
    assert_eq!(trim(" \t\r\n\u{a0}\u{2028}"), "");
}

#[test]
fn trim_keeps_text_that_is_not_ascii() {
    assert_eq!(trim("  Mua sữa  \n"), "Mua sữa");
    assert_eq!(trim("\u{2003}việc\u{2003}"), "việc");
}

#[test]
fn trim_agrees_with_std() {
    let lines = [
        "",
        " ",
        "a",
        " a",
        "a ",
        " a b ",
        "\u{85}x\u{85}",
        "\u{1680}x y\u{205f}",
        "\u{200b}x\u{200b}",
        "\u{feff}x",
        "  \u{0}  ",
        "\u{1c}\u{1d}\u{1e}\u{1f}",
    ];
    for line in lines {
        assert_eq!(trim(line), line.trim(), "{:?}", line);
    }
}

#[test]
fn decimal_writes_single_digits() {
    let digits = ["0", "1", "2", "3", "4", "5", "6", "7", "8", "9"];
    for (n, digit) in digits.iter().enumerate() {
        assert_eq!(decimal_of(n as u32), *digit);
    }
}

#[test]
fn decimal_writes_numbers_without_leading_zeros() {
    assert_eq!(decimal_of(10), "10");
    assert_eq!(decimal_of(42), "42");
    assert_eq!(decimal_of(100), "100");
    assert_eq!(decimal_of(1_000_000), "1000000");
    assert_eq!(decimal_of(4_294_967_295), "4294967295");
}

#[test]
fn decimal_is_appended_to_what_is_there() {
    let mut out = String::from("id: ");
    append_decimal(&mut out, 305);
    assert_eq!(out, "id: 305");
}

#[test]
fn decimal_agrees_with_std() {
    let mut n: u32 = 1;
    for _ in 0..40 {
        assert_eq!(decimal_of(n), n.to_string());
        assert_eq!(decimal_of(n - 1), (n - 1).to_string());
        n = n.wrapping_mul(7).wrapping_add(3);
    }
}

#[test]
fn parse_reads_plain_numbers() {
    assert_eq!(parse_u32("0"), Some(0));
    assert_eq!(parse_u32("7"), Some(7));
    assert_eq!(parse_u32("42"), Some(42));
    assert_eq!(parse_u32("4294967295"), Some(4_294_967_295));
}

#[test]
fn parse_accepts_a_plus_sign_and_leading_zeros() {
    assert_eq!(parse_u32("+5"), Some(5));
    assert_eq!(parse_u32("007"), Some(7));
    assert_eq!(parse_u32("+000"), Some(0));
    assert_eq!(parse_u32("00000000004294967295"), Some(4_294_967_295));
}

#[test]
fn parse_rejects_what_is_no_number() {
    assert_eq!(parse_u32(""), None);
    assert_eq!(parse_u32("+"), None);
    assert_eq!(parse_u32("-"), None);
    assert_eq!(parse_u32("-1"), None);
    assert_eq!(parse_u32("-0"), None);
    assert_eq!(parse_u32("++1"), None);
    assert_eq!(parse_u32("1+"), None);
    assert_eq!(parse_u32("abc"), None);
    assert_eq!(parse_u32("12a"), None);
    assert_eq!(parse_u32("1 2"), None);
    assert_eq!(parse_u32(" 1"), None);
    assert_eq!(parse_u32("1.0"), None);
    assert_eq!(parse_u32("1_000"), None);
    assert_eq!(parse_u32("٣"), None);
}

#[test]
fn parse_rejects_numbers_that_do_not_fit() {
    assert_eq!(parse_u32("4294967296"), None);
    assert_eq!(parse_u32("+4294967296"), None);
    assert_eq!(parse_u32("99999999999"), None);
    assert_eq!(parse_u32("18446744073709551616"), None);
    assert_eq!(parse_u32("42949672950"), None);
}

#[test]
fn parse_agrees_with_std() {
    let texts = [
        "", "+", "-", "0", "+0", "-0", "1", "+1", "-1", "12", "0012", "+0012", "4294967295",
        "4294967296", "4294967294", "5000000000", "x", "1x", "x1", "+x", "1+1", " 1", "1 ", "１",
        "1e3", "0x10",
    ];
    for text in texts {
        assert_eq!(parse_u32(text), text.parse::<u32>().ok(), "{:?}", text);
    }
}

#[test]
fn parse_reads_back_what_decimal_writes() {
    for n in [0u32, 1, 9, 10, 99, 100, 65_535, 65_536, 4_294_967_294, 4_294_967_295] {
        assert_eq!(parse_u32(&decimal_of(n)), Some(n));
    }
}

use sva_ui::text::{
    bits, decimal_text, parse_value, push_digits, quoted_text, radix_text, unsigned_text,
};
use sva_ui::ui::indicator_widget::ValueFormat;
use sva_ui::ui::ram_window::RamWidow;

#[test]
fn decimal_text_of_numbers() {
    assert_eq!(decimal_text(0), "0");
    assert_eq!(decimal_text(7), "7");
    assert_eq!(decimal_text(10), "10");
    assert_eq!(decimal_text(-1), "-1");
    assert_eq!(decimal_text(1234567890), "1234567890");
    assert_eq!(decimal_text(i32::MAX), "2147483647");
    assert_eq!(decimal_text(i32::MIN), "-2147483648");
    assert_eq!(unsigned_text(0), "0");
    assert_eq!(unsigned_text(90210), "90210");
}

#[test]
fn decimal_text_agrees_with_std() {
    for v in [0, 1, -1, 9, 10, 99, 100, -100, 65535, -65536, i32::MAX, i32::MIN] {
        assert_eq!(decimal_text(v), format!("{}", v));
    }
}

#[test]
fn radix_text_agrees_with_std() {
    for v in [0, 1, -1, 2, 15, 16, 255, 256, -256, 0x7fff_ffff, i32::MIN, 48879] {
        assert_eq!(radix_text("0x", v, 16), format!("0x{:X}", v));
        assert_eq!(radix_text("0b", v, 2), format!("0b{:b}", v));
    }
}

#[test]
fn radix_text_of_numbers() {
    assert_eq!(radix_text("0x", 255, 16), "0xFF");
    assert_eq!(radix_text("0x", -1, 16), "0xFFFFFFFF");
    assert_eq!(radix_text("0b", 5, 2), "0b101");
    assert_eq!(radix_text("", 0, 2), "0");
    assert_eq!(radix_text("#", 8, 8), "#10");
    assert_eq!(
        radix_text("0b", i32::MIN, 2),
        "0b10000000000000000000000000000000"
    );
}

#[test]
fn bits_are_twos_complement() {
    assert_eq!(bits(0), 0);
    assert_eq!(bits(1), 1);
    assert_eq!(bits(-1), u32::MAX);
    assert_eq!(bits(i32::MIN), 0x8000_0000);
    assert_eq!(bits(i32::MAX), 0x7fff_ffff);
}

#[test]
fn push_digits_appends() {
    let mut s = "n=".to_string();
    push_digits(0, 10, &mut s);
    push_digits(u64::MAX, 16, &mut s);
    push_digits(6, 2, &mut s);
    assert_eq!(s, "n=0FFFFFFFFFFFFFFFF110");
}

#[test]
fn quoted_text_of_characters() {
    assert_eq!(quoted_text(65), Some("'A'".to_string()));
    assert_eq!(quoted_text(0x20AC), Some("'\u{20AC}'".to_string()));
    assert_eq!(quoted_text(0), Some("'\0'".to_string()));
    assert_eq!(quoted_text(0x10FFFF), Some("'\u{10FFFF}'".to_string()));
    assert_eq!(quoted_text(0xD7FF), Some("'\u{D7FF}'".to_string()));
    assert_eq!(quoted_text(0xE000), Some("'\u{E000}'".to_string()));
}

#[test]
fn quoted_text_of_non_characters() {
    assert_eq!(quoted_text(-1), None);
    assert_eq!(quoted_text(i32::MIN), None);
    assert_eq!(quoted_text(0xD800), None);
    assert_eq!(quoted_text(0xDFFF), None);
    assert_eq!(quoted_text(0x110000), None);
    assert_eq!(quoted_text(i32::MAX), None);
}

#[test]
fn memory_window_formats() {
    let mut w = RamWidow::new(0);
    assert_eq!(w.format_value(-12, "?"), "-12");
    w.set_format(ValueFormat::Hex);
    assert_eq!(w.format_value(255, "?"), "0xFF");
    assert_eq!(w.format_value(-1, "?"), "0xFFFFFFFF");
    w.set_format(ValueFormat::Bin);
    assert_eq!(w.format_value(5, "?"), "0b101");
    w.set_format(ValueFormat::Unicode);
    assert_eq!(w.format_value(97, "?"), "'a'");
    assert_eq!(w.format_value(-97, "no character"), "no character");
    assert_eq!(w.format_value(0xD800, "?"), "?");
}

#[test]
fn parse_decimal() {
    assert_eq!(parse_value("0"), Some(0));
    assert_eq!(parse_value("42"), Some(42));
    assert_eq!(parse_value("-42"), Some(-42));
    assert_eq!(parse_value("007"), Some(7));
    assert_eq!(parse_value("-0"), Some(0));
    assert_eq!(parse_value("2147483647"), Some(i32::MAX));
    assert_eq!(parse_value("-2147483648"), Some(i32::MIN));
}

#[test]
fn parse_decimal_refuses() {
    assert_eq!(parse_value(""), None);
    assert_eq!(parse_value("-"), None);
    assert_eq!(parse_value("+5"), None);
    assert_eq!(parse_value("--5"), None);
    assert_eq!(parse_value("5-"), None);
    assert_eq!(parse_value("1 2"), None);
    assert_eq!(parse_value(" 12"), None);
    assert_eq!(parse_value("12a"), None);
    assert_eq!(parse_value("2147483648"), None);
    assert_eq!(parse_value("-2147483649"), None);
    assert_eq!(parse_value("99999999999999999999999999"), None);
    assert_eq!(parse_value("\u{0663}"), None);
}

#[test]
fn parse_binary() {
    assert_eq!(parse_value("0b0"), Some(0));
    assert_eq!(parse_value("0b101"), Some(5));
    assert_eq!(parse_value("0b-101"), Some(-5));
    assert_eq!(parse_value("0b+11"), Some(3));
    assert_eq!(
        parse_value("0b1111111111111111111111111111111"),
        Some(i32::MAX)
    );
    assert_eq!(
        parse_value("0b-10000000000000000000000000000000"),
        Some(i32::MIN)
    );
    assert_eq!(parse_value("0b"), None);
    assert_eq!(parse_value("0b-"), None);
    assert_eq!(parse_value("0b2"), None);
    assert_eq!(parse_value("0B1"), None);
    assert_eq!(parse_value("0b10000000000000000000000000000000"), None);
}

#[test]
fn parse_hexadecimal() {
    assert_eq!(parse_value("0xff"), Some(255));
    assert_eq!(parse_value("0xFF"), Some(255));
    assert_eq!(parse_value("0xAbC"), Some(0xabc));
    assert_eq!(parse_value("0x-10"), Some(-16));
    assert_eq!(parse_value("0x+7fffffff"), Some(i32::MAX));
    assert_eq!(parse_value("0x-80000000"), Some(i32::MIN));
    assert_eq!(parse_value("0x"), None);
    assert_eq!(parse_value("0xg"), None);
    assert_eq!(parse_value("0x80000000"), None);
    assert_eq!(parse_value("0xFFFFFFFF"), None);
    assert_eq!(parse_value("0X10"), None);
    assert_eq!(parse_value("x10"), None);
}

#[test]
fn parse_character() {
    assert_eq!(parse_value("'a'"), Some(97));
    assert_eq!(parse_value("' '"), Some(32));
    assert_eq!(parse_value("'''"), Some(39));
    assert_eq!(parse_value("'0'"), Some(48));
    assert_eq!(parse_value("'\u{7f}'"), Some(127));
    assert_eq!(parse_value("'\u{e9}'"), None);
    assert_eq!(parse_value("''"), None);
    assert_eq!(parse_value("'ab'"), None);
    assert_eq!(parse_value("'a"), None);
    assert_eq!(parse_value("a'"), None);
    assert_eq!(parse_value("\"a\""), None);
}

#[test]
fn parse_agrees_with_std() {
    for text in ["12", "-12", "0012", "4294967296", "-", "", "1_000"] {
        assert_eq!(parse_value(text), text.parse::<i32>().ok());
    }
    for digits in ["101", "-1", "+0", "2", "", "11111111111111111111111111111111"] {
        let text = format!("0b{}", digits);
        assert_eq!(parse_value(&text), i32::from_str_radix(digits, 2).ok());
    }
    for digits in ["ff", "-FF", "+a0", "g", "", "7FFFFFFF", "80000000"] {
        let text = format!("0x{}", digits);
        assert_eq!(parse_value(&text), i32::from_str_radix(digits, 16).ok());
    }
}

#[test]
fn written_numbers_are_read_back() {
    for v in [0, 1, -1, 31, -32, 1000, i32::MAX, i32::MIN] {
        assert_eq!(parse_value(&decimal_text(v)), Some(v));
    }
    for v in [0, 1, 31, 1000, i32::MAX] {
        assert_eq!(parse_value(&radix_text("0x", v, 16)), Some(v));
        assert_eq!(parse_value(&radix_text("0b", v, 2)), Some(v));
    }
    for v in [32, 65, 126] {
        assert_eq!(parse_value(&quoted_text(v).unwrap()), Some(v));
    }
}

use projson::decimal::{index_name, parse_index};
use projson::path::same_text;
use projson::trim::{is_space, trim};

fn chars(s: &str) -> Vec<char> {
    s.chars().collect()
}

#[test]
fn index_names_are_decimal() {
    assert_eq!(index_name(0), "0");
    assert_eq!(index_name(7), "7");
    assert_eq!(index_name(10), "10");
    assert_eq!(index_name(109), "109");
    assert_eq!(index_name(1234567890), "1234567890");
    assert_eq!(index_name(usize::MAX), usize::MAX.to_string());
}

#[test]
fn parse_index_reads_decimal_names() {
    assert_eq!(parse_index(&chars("0")), Some(0));
    assert_eq!(parse_index(&chars("9")), Some(9));
    assert_eq!(parse_index(&chars("10")), Some(10));
    assert_eq!(parse_index(&chars("1024")), Some(1024));
    assert_eq!(
        parse_index(&chars(&usize::MAX.to_string())),
        Some(usize::MAX)
    );
}

#[test]
fn parse_index_refuses_other_names() {
    assert_eq!(parse_index(&chars("")), None);
    assert_eq!(parse_index(&chars("00")), None);
    assert_eq!(parse_index(&chars("01")), None);
    assert_eq!(parse_index(&chars("+1")), None);
    assert_eq!(parse_index(&chars("-1")), None);
    assert_eq!(parse_index(&chars("1a")), None);
    assert_eq!(parse_index(&chars("a1")), None);
    assert_eq!(parse_index(&chars(" 1")), None);
    assert_eq!(parse_index(&chars("1.0")), None);
    assert_eq!(parse_index(&chars("١")), None);
    assert_eq!(parse_index(&chars("18446744073709551616")), None);
    assert_eq!(parse_index(&chars("99999999999999999999")), None);
    assert_eq!(parse_index(&chars("184467440737095516150")), None);
}

#[test]
fn index_names_parse_back() {
    for index in [0usize, 1, 9, 10, 11, 99, 100, 101, 65535, 4294967295] {
        assert_eq!(parse_index(&chars(&index_name(index))), Some(index));
    }
}

#[test]
fn same_text_compares_characters() {
    assert!(same_text("", &chars("")));
    assert!(same_text("key", &chars("key")));
    assert!(same_text("ключ", &chars("ключ")));
    assert!(!same_text("key", &chars("ke")));
    assert!(!same_text("ke", &chars("key")));
    assert!(!same_text("key", &chars("kay")));
    assert!(!same_text("key", &chars("Key")));
    assert!(!same_text("", &chars("a")));
    assert!(!same_text("a", &chars("")));
}

#[test]
fn trim_removes_white_space_at_both_ends() {
    assert_eq!(trim(""), "");
    assert_eq!(trim("   "), "");
    assert_eq!(trim("a"), "a");
    assert_eq!(trim("  a b  "), "a b");
    assert_eq!(trim("\t\r\n {\"a\": 1} \n"), "{\"a\": 1}");
    assert_eq!(trim("\u{3000}x\u{a0}"), "x");
    assert_eq!(trim("\u{2028}\u{2029}é \u{85}"), "é");
    assert_eq!(trim("\u{feff}x"), "\u{feff}x");
    assert_eq!(trim("\u{200b}x\u{200b}"), "\u{200b}x\u{200b}");
    let samples = [
        " \u{1680}a\u{2000}b\u{200a} ",
        "\u{b}\u{c}x y\u{202f}\u{205f}",
        "no space",
        " \u{180e} ",
    ];
    for sample in samples {
        assert_eq!(trim(sample), sample.trim());
    }
}

#[test]
fn white_space_is_what_char_says() {
    let mut code = 0u32;
    while code <= 0x10ffff {
        if let Some(c) = char::from_u32(code) {
            assert_eq!(is_space(c), c.is_whitespace(), "U+{:04X}", code);
        }
        code += 1;
    }
}

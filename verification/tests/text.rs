use frama_c_mcp::digits::{
    decimal_of, hex_digit, hex_of, parse_u32, signed_decimal_of,
};
use frama_c_mcp::order::{sort_distinct, text_before};
use frama_c_mcp::text::{
    blank, contains, cut_once, joined, lines_of, lowered, same, split_at_char, starts_with,
    strip_affixes, trimmed, words_of,
};

fn strings(items: &[&str]) -> Vec<String> {
    items.iter().map(|item| item.to_string()).collect()
}

#[test]
fn white_space_is_that_of_unicode() {
    for text in ["", " ", "  a b\t", "\u{a0}x\u{3000}", "\u{200b}x", "\r\nx\u{85}\u{2028}", "x"] {
        assert_eq!(trimmed(text), text.trim(), "{text:?}");
        assert_eq!(blank(text), text.trim().is_empty(), "{text:?}");
        assert_eq!(
            words_of(text),
            text.split_whitespace().map(|w| w.to_string()).collect::<Vec<_>>(),
            "{text:?}"
        );
    }
}

#[test]
fn lines_end_at_line_feeds() {
    for text in ["", "a", "a\n", "a\nb", "a\r\nb\r\n", "\n\n", "a\rb", "a\r", "a\r\r\nb"] {
        assert_eq!(
            lines_of(text),
            text.lines().map(|l| l.to_string()).collect::<Vec<_>>(),
            "{text:?}"
        );
    }
}

#[test]
fn splitting_keeps_empty_pieces() {
    for text in ["", ",", "a,b", ",a,,b,"] {
        assert_eq!(
            split_at_char(text, ','),
            text.split(',').map(|p| p.to_string()).collect::<Vec<_>>(),
            "{text:?}"
        );
    }
}

#[test]
fn cutting_takes_the_first_separator() {
    assert_eq!(cut_once("a: b: c", ": "), Some(("a".to_string(), "b: c".to_string())));
    assert_eq!(cut_once(": b", ": "), Some((String::new(), "b".to_string())));
    assert_eq!(cut_once("a:b", ": "), None);
}

#[test]
fn parts_and_prefixes_are_found() {
    assert!(contains("abcabd", "abd"));
    assert!(!contains("abcabd", "abe"));
    assert!(contains("", ""));
    assert!(starts_with("assigns x", "assigns"));
    assert!(!starts_with("as", "assigns"));
    assert!(same("a", "a"));
    assert!(!same("a", "ab"));
}

#[test]
fn affixes_are_dropped_as_often_as_they_stand_there() {
    for text in ["assigns x;", "assignsassigns x;;", "x", "", "assigns", ";;"] {
        assert_eq!(
            strip_affixes(text, "assigns", ';'),
            text.trim_start_matches("assigns").trim_end_matches(';'),
            "{text:?}"
        );
    }
}

#[test]
fn lower_case_is_that_of_ascii() {
    assert_eq!(lowered("AbZ[\u{c9}"), "abz[\u{c9}");
}

#[test]
fn joining_puts_the_separator_between() {
    assert_eq!(joined(&strings(&[]), ", "), "");
    assert_eq!(joined(&strings(&["a"]), ", "), "a");
    assert_eq!(joined(&strings(&["a", "", "b"]), ", "), "a, , b");
}

#[test]
fn numbers_are_written_in_decimal() {
    for n in [0u64, 9, 10, 12345, u64::MAX] {
        assert_eq!(decimal_of(n), n.to_string());
    }
    for n in [0i64, -1, 7, i64::MIN, i64::MAX] {
        assert_eq!(signed_decimal_of(n), n.to_string());
    }
}

#[test]
fn small_numbers_are_read_like_std_reads_them() {
    for text in ["", "0", "+7", "-7", "+", "4294967295", "4294967296", "007", "1x", " 1", "99999999999999999999999"] {
        assert_eq!(parse_u32(text), text.parse::<u32>().ok(), "{text:?}");
    }
}

#[test]
fn bytes_are_written_in_lower_case_hexadecimal() {
    assert_eq!(hex_of(&vec![0, 15, 16, 255]), "000f10ff");
    assert!(hex_digit('F') && hex_digit('a') && hex_digit('0'));
    assert!(!hex_digit('g') && !hex_digit('G'));
}

#[test]
fn texts_are_ordered_like_std_orders_them() {
    let texts = ["", "a", "ab", "b", "B", "\u{e9}", "\u{1f600}", "\u{ffff}", "a b", "a\u{0}"];
    for a in texts {
        for b in texts {
            assert_eq!(text_before(a, b), a < b, "{a:?} {b:?}");
        }
    }
    let mut sorted = strings(&texts);
    sorted.sort();
    let mut twice = strings(&texts);
    twice.extend(strings(&texts));
    assert_eq!(sort_distinct(&twice), sorted);
}

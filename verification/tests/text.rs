use aruaru_search::text::{
    at, begins, chars_of, cut_before, decimal_of, ends, has_text, joined, less, lowered, parsed_u64,
    position, replaced, split_on, squeezed, string_of, trimmed, trimmed_end_text, uppered, words_of,
};

fn back(v: Vec<char>) -> String {
    string_of(&v)
}

#[test]
fn texts_are_trimmed_of_every_kind_of_white_space() {
    for c in ['\t', '\n', '\u{b}', '\r', ' ', '\u{85}', '\u{a0}', '\u{1680}', '\u{2003}', '\u{2028}', '\u{202f}', '\u{205f}', '\u{3000}'] {
        assert!(c.is_whitespace());
        assert_eq!(back(trimmed(&chars_of(&format!("{c}a{c}b{c}{c}")))), format!("a{c}b"));
    }
    assert_eq!(back(trimmed(&chars_of("\u{200b}x"))), "\u{200b}x");
    assert_eq!(back(trimmed(&chars_of(" \n"))), "");
}

#[test]
fn white_space_is_that_of_the_standard_library() {
    for c in '\0'..='\u{ffff}' {
        assert_eq!(aruaru_search::text::white(c), c.is_whitespace(), "{:x}", c as u32);
    }
}

#[test]
fn case_is_changed_in_ascii_only() {
    assert_eq!(back(lowered(&chars_of("AbZ[@É"))), "abz[@É");
    assert_eq!(back(uppered(&chars_of("aBz{`é"))), "ABZ{`é");
}

#[test]
fn texts_are_searched_cut_and_replaced() {
    let s = chars_of("a-b-c");
    assert_eq!((position(&s, '-'), position(&s, 'x')), (1, 5));
    assert_eq!(back(cut_before(&s, '-')), "a");
    assert_eq!(back(cut_before(&s, 'x')), "a-b-c");
    assert_eq!(split_on(&s, '-').into_iter().map(back).collect::<Vec<_>>(), vec!["a", "b", "c"]);
    assert_eq!(split_on(&chars_of(""), '-').len(), 1);
    assert_eq!(back(replaced(&chars_of("aaa"), "aa", &chars_of("b"))), "ba");
    assert_eq!(back(replaced(&chars_of("{q}{q}"), "{q}", &chars_of("{q}x"))), "{q}x{q}x");
    assert_eq!(back(trimmed_end_text(&chars_of("x&cc=&cc="), "&cc=")), "x");
    assert!(begins(&s, "a-") && !begins(&s, "b") && ends(&s, "-c") && !ends(&s, "-b"));
    assert!(has_text(&s, "b-c") && has_text(&s, "") && !has_text(&s, "cb"));
    assert!(at(&s, &chars_of("b"), 2) && !at(&s, &chars_of("b"), 1));
}

#[test]
fn words_are_squeezed() {
    assert_eq!(back(squeezed(&chars_of(" a\u{3000}b \n c "))), "a b c");
    assert_eq!(words_of(&chars_of(" \n")).len(), 0);
    assert_eq!(back(joined(&words_of(&chars_of("x y")), "--")), "x--y");
}

#[test]
fn numbers_are_written_and_read() {
    for n in [0, 9, 10, 1790000000, u64::MAX] {
        assert_eq!(back(decimal_of(n)), n.to_string());
        assert_eq!(parsed_u64(&decimal_of(n)), Some(n));
    }
    for s in ["", "+", "-1", "1 ", "18446744073709551616", "1e3", "+ 1", "１"] {
        assert_eq!(parsed_u64(&chars_of(s)), s.parse::<u64>().ok(), "{s}");
    }
    assert_eq!(parsed_u64(&chars_of("+007")), Some(7));
}

#[test]
fn texts_are_ordered_like_strings() {
    let v = ["", "A", "a", "a/", "aa", "b", "é", "\u{ffff}", "\u{1f600}"];
    for a in v {
        for b in v {
            assert_eq!(less(&chars_of(a), &chars_of(b)), a < b, "{a} {b}");
        }
    }
}

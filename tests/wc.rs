use jsonparser::wc::{counter, make_printable, Config, Counter};

#[test]
fn counts_of_plain_text() {
    let c = counter("one two\nthree\n".to_string());
    assert_eq!((c.lines, c.words, c.chars, c.bytes), (2, 3, 14, 14));
}

#[test]
fn last_line_without_newline_counts() {
    let c = counter("a\nb".to_string());
    assert_eq!(c.lines, 2);
    let e = counter(String::new());
    assert_eq!((e.lines, e.words, e.chars, e.bytes), (0, 0, 0, 0));
}

#[test]
fn characters_and_bytes_differ_beyond_ascii() {
    let c = counter("héllo wörld".to_string());
    assert_eq!((c.lines, c.words, c.chars, c.bytes), (1, 2, 11, 13));
}

#[test]
fn unicode_white_space_separates_words() {
    let c = counter("a\u{3000}b\u{a0}c  \t d".to_string());
    assert_eq!(c.words, 4);
}

#[test]
fn config_defaults_to_lines_words_bytes() {
    let c = Config::from(&[]);
    assert!(c.lines && c.words && c.bytes && !c.chars);
    let d = Config::from(&['x']);
    assert!(d.lines && d.words && d.bytes && !d.chars);
}

#[test]
fn config_takes_selected_letters() {
    let c = Config::from(&['m', 'l']);
    assert!(c.lines && !c.words && !c.bytes && c.chars);
    assert!(Config::supports('c'));
    assert!(!Config::supports('z'));
}

#[test]
fn report_orders_columns() {
    let counts = Counter { lines: 3, words: 101, bytes: 0, chars: 42 };
    let all = Config { lines: true, words: true, bytes: true, chars: true };
    assert_eq!(make_printable(counts, &all), "  3  101  42  0");
    let counts = Counter { lines: 3, words: 101, bytes: 0, chars: 42 };
    let some = Config { lines: false, words: true, bytes: false, chars: false };
    assert_eq!(make_printable(counts, &some), "  101");
}

use a3s_dev::text::{
    chars_of, contains, find, find_char, find_ink, find_space, is_white_space, lines, matches_at,
    number_text,
    replace_all, same_text, slice_of, split, split_n, starts_with, string_of, strip_prefix,
    strip_suffix, to_string, to_strings, trim, trim_char, words,
};

fn cs(s: &str) -> Vec<char> {
    s.chars().collect()
}

fn strs(v: &[Vec<char>]) -> Vec<String> {
    v.iter().map(|c| c.iter().collect()).collect()
}

fn text(v: &[char]) -> String {
    v.iter().collect()
}

#[test]
fn chars_and_strings_go_both_ways() {
    assert_eq!(chars_of("a\u{df}\u{4e2d}"), vec!['a', '\u{df}', '\u{4e2d}']);
    assert_eq!(to_string(&cs("a\u{df}\u{4e2d}")), "a\u{df}\u{4e2d}");
    assert_eq!(string_of(&cs("hello"), 1, 3), "el");
    assert_eq!(string_of(&cs("hello"), 2, 2), "");
    assert_eq!(slice_of(&cs("hello"), 3, 5), cs("lo"));
    assert_eq!(to_strings(&vec![cs("a"), cs("")]), vec!["a".to_string(), "".to_string()]);
}

#[test]
fn trim_takes_off_white_space_at_both_ends() {
    assert_eq!(text(&trim(&cs("  a b \t\r\n"))), "a b");
    assert_eq!(text(&trim(&cs("a"))), "a");
    assert_eq!(text(&trim(&cs(" \t "))), "");
    assert_eq!(text(&trim(&cs(""))), "");
}

#[test]
fn trim_knows_white_space_beyond_ascii() {
    assert_eq!(text(&trim(&cs("\u{a0}\u{3000}x\u{2003}\u{85}"))), "x");
    assert_eq!(text(&trim(&cs("\u{200b}x"))), "\u{200b}x");
}

#[test]
fn trim_char_takes_off_every_such_char() {
    assert_eq!(text(&trim_char(&cs("\"\"a\"b\"\""), '"')), "a\"b");
    assert_eq!(text(&trim_char(&cs("'''"), '\'')), "");
    assert_eq!(text(&trim_char(&cs("abc"), 'x')), "abc");
}

#[test]
fn lines_end_at_line_feeds() {
    assert_eq!(strs(&lines(&cs("a\nb\r\nc"))), vec!["a", "b", "c"]);
    assert_eq!(strs(&lines(&cs("a\n"))), vec!["a"]);
    assert_eq!(strs(&lines(&cs("a\n\nb\n"))), vec!["a", "", "b"]);
    assert_eq!(strs(&lines(&cs("\n"))), vec![""]);
    assert_eq!(strs(&lines(&cs(""))), Vec::<String>::new());
    assert_eq!(strs(&lines(&cs("a\r"))), vec!["a\r"]);
    assert_eq!(strs(&lines(&cs("a\r\r\nb"))), vec!["a\r", "b"]);
    assert_eq!(strs(&lines(&cs("\r\n"))), vec![""]);
}

#[test]
fn lines_agree_with_the_standard_library() {
    for s in ["", "a", "a\n", "\n\n", "a\r\nb\rc\n\r\n", "x\ry", "\r", "one\ntwo\r\n\r\nthree\r"] {
        let expected: Vec<String> = s.lines().map(|l| l.to_string()).collect();
        assert_eq!(strs(&lines(&cs(s))), expected);
    }
}

#[test]
fn split_keeps_empty_pieces() {
    assert_eq!(strs(&split(&cs("a,b,,c"), ',')), vec!["a", "b", "", "c"]);
    assert_eq!(strs(&split(&cs("a,"), ',')), vec!["a", ""]);
    assert_eq!(strs(&split(&cs(","), ',')), vec!["", ""]);
    assert_eq!(strs(&split(&cs(""), ',')), vec![""]);
    assert_eq!(strs(&split(&cs("abc"), ',')), vec!["abc"]);
}

#[test]
fn words_are_runs_without_white_space() {
    assert_eq!(strs(&words(&cs("  one two\t\tthree\n"))), vec!["one", "two", "three"]);
    assert_eq!(strs(&words(&cs("one"))), vec!["one"]);
    assert_eq!(strs(&words(&cs("   "))), Vec::<String>::new());
    assert_eq!(strs(&words(&cs(""))), Vec::<String>::new());
    assert_eq!(strs(&words(&cs("a\u{a0}b"))), vec!["a", "b"]);
}

#[test]
fn split_n_stops_after_n_pieces() {
    let gap = cs("  ");
    assert_eq!(strs(&split_n(&cs("a  b  c"), &gap, 20)), vec!["a", "b", "c"]);
    assert_eq!(strs(&split_n(&cs("a  b  c"), &gap, 2)), vec!["a", "b  c"]);
    assert_eq!(strs(&split_n(&cs("a  b  c"), &gap, 1)), vec!["a  b  c"]);
    assert_eq!(strs(&split_n(&cs("a  b  c"), &gap, 0)), Vec::<String>::new());
    assert_eq!(strs(&split_n(&cs("a   b"), &gap, 20)), vec!["a", " b"]);
    assert_eq!(strs(&split_n(&cs("a    b"), &gap, 20)), vec!["a", "", "b"]);
    assert_eq!(strs(&split_n(&cs("a  "), &gap, 20)), vec!["a", ""]);
    assert_eq!(strs(&split_n(&cs(""), &gap, 20)), vec![""]);
}

#[test]
fn split_n_agrees_with_the_standard_library() {
    for s in ["", " ", "  ", "   ", "     ", "a  b", "  a", "a b  c   d    e", "x  y  z"] {
        for n in [0usize, 1, 2, 3, 20] {
            let expected: Vec<String> = s.splitn(n, "  ").map(|p| p.to_string()).collect();
            assert_eq!(strs(&split_n(&cs(s), &cs("  "), n)), expected);
        }
    }
}

#[test]
fn find_gives_the_first_position_or_the_length() {
    let t = cs("hello world");
    assert_eq!(find_char(&t, 0, 'o'), 4);
    assert_eq!(find_char(&t, 5, 'o'), 7);
    assert_eq!(find_char(&t, 8, 'o'), 11);
    assert_eq!(find_char(&t, 11, 'o'), 11);
    assert_eq!(find_space(&t, 0), 5);
    assert_eq!(find_ink(&t, 5), 6);
    assert_eq!(find(&t, &cs("wor"), 0), 6);
    assert_eq!(find(&t, &cs("l"), 3), 3);
    assert_eq!(find(&t, &cs("xyz"), 0), 11);
    assert_eq!(find(&t, &cs("world!"), 0), 11);
}

#[test]
fn matching_and_containing() {
    let t = cs("hello world");
    assert!(matches_at(&t, &cs("hello"), 0));
    assert!(matches_at(&t, &cs("world"), 6));
    assert!(!matches_at(&t, &cs("world"), 7));
    assert!(!matches_at(&t, &cs("world"), 60));
    assert!(matches_at(&t, &cs(""), 11));
    assert!(starts_with(&t, &cs("hell")));
    assert!(!starts_with(&t, &cs("ello")));
    assert!(contains(&t, &cs("o w")));
    assert!(!contains(&t, &cs("ow")));
}

#[test]
fn prefix_and_suffix_are_taken_off() {
    let t = cs("hello world");
    assert_eq!(strip_prefix(&t, &cs("hello ")), Some(cs("world")));
    assert_eq!(strip_prefix(&t, &cs("world")), None);
    assert_eq!(strip_prefix(&t, &cs("")), Some(cs("hello world")));
    assert_eq!(strip_suffix(&t, &cs(" world")), Some(cs("hello")));
    assert_eq!(strip_suffix(&t, &cs("hello")), None);
    assert_eq!(strip_suffix(&cs("s"), &cs("ms")), None);
    assert_eq!(strip_suffix(&cs("ms"), &cs("ms")), Some(cs("")));
}

#[test]
fn replace_all_goes_from_the_left() {
    assert_eq!(text(&replace_all(&cs("aaa"), &cs("aa"), &cs("b"))), "ba");
    assert_eq!(text(&replace_all(&cs("abcabc"), &cs("bc"), &cs(""))), "aa");
    assert_eq!(text(&replace_all(&cs("abc"), &cs("x"), &cs("y"))), "abc");
    assert_eq!(text(&replace_all(&cs("xx"), &cs("x"), &cs("xx"))), "xxxx");
}

#[test]
fn replace_all_agrees_with_the_standard_library() {
    for s in ["", "default", "a default b defaultdefault c", "defaul", "ddefault", "defaultt"] {
        assert_eq!(text(&replace_all(&cs(s), &cs("default"), &cs("k3s"))), s.replace("default", "k3s"));
    }
}

#[test]
fn number_text_writes_decimal_digits() {
    assert_eq!(number_text(0), "0");
    assert_eq!(number_text(7), "7");
    assert_eq!(number_text(10), "10");
    assert_eq!(number_text(3000), "3000");
    assert_eq!(number_text(65535), "65535");
    assert_eq!(number_text(u64::MAX), "18446744073709551615");
}

#[test]
fn number_text_agrees_with_the_standard_library() {
    for n in [0u64, 1, 9, 10, 11, 99, 100, 101, 12345, 1 << 32, u64::MAX - 1] {
        assert_eq!(number_text(n), n.to_string());
    }
}

#[test]
fn same_text_compares_texts() {
    assert!(same_text("web", "web"));
    assert!(!same_text("web", "Web"));
    assert!(!same_text("web", "webs"));
    assert!(same_text("", ""));
}

#[test]
fn white_space_is_what_the_standard_library_says() {
    for n in 0u32..=0x10FFFF {
        if let Some(c) = char::from_u32(n) {
            assert_eq!(is_white_space(c), c.is_whitespace());
        }
    }
    assert!(trim(&vec!['\u{85}', 'x', '\u{2028}']) == vec!['x']);
}

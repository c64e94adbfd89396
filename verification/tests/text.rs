use hameln_publish::search::find_bytes;
use hameln_publish::text::{between, cut, skip_until, skip_while, split_first_char, utf8_width};

#[test]
fn find_bytes_leftmost() {
    assert_eq!(find_bytes(b"abcabc", b"bc"), Some(1));
    assert_eq!(find_bytes(b"abcabc", b"abc"), Some(0));
    assert_eq!(find_bytes(b"abcabc", b"cab"), Some(2));
    assert_eq!(find_bytes(b"aaab", b"aab"), Some(1));
}

#[test]
fn find_bytes_absent() {
    assert_eq!(find_bytes(b"abcabc", b"cb"), None);
    assert_eq!(find_bytes(b"ab", b"abc"), None);
    assert_eq!(find_bytes(b"", b"a"), None);
}

#[test]
fn find_bytes_empty_needle() {
    assert_eq!(find_bytes(b"abc", b""), Some(0));
    assert_eq!(find_bytes(b"", b""), Some(0));
}

#[test]
fn find_bytes_at_end() {
    assert_eq!(find_bytes(b"xxabc", b"abc"), Some(2));
}

#[test]
fn cut_around_first_occurrence() {
    assert_eq!(cut("a--b--c", "--"), Some(("a", "b--c")));
    assert_eq!(cut("abc", "abc"), Some(("", "")));
    assert_eq!(cut("abc", "x"), None);
}

#[test]
fn between_exact_substring() {
    assert_eq!(between("x<a>hello</a>tail", "<a>", "</a>"), Some(("hello", "tail")));
}

#[test]
fn between_uses_first_occurrences() {
    assert_eq!(between("[1][2][3]", "[", "]"), Some(("1", "[2][3]")));
    assert_eq!(between("a]b[c]d]e", "[", "]"), Some(("c", "d]e")));
}

#[test]
fn between_start_absent() {
    assert_eq!(between("no markers here", "<a>", "</a>"), None);
    assert_eq!(between("only </a> here", "<a>", "</a>"), None);
}

#[test]
fn between_end_absent_after_start() {
    assert_eq!(between("<a>never closed", "<a>", "</a>"), None);
    assert_eq!(between("</a> before <a> only", "<a>", "</a>"), None);
}

#[test]
fn between_same_marker_takes_successive_occurrences() {
    assert_eq!(between("a|b|c|d", "|", "|"), Some(("b", "c|d")));
    assert_eq!(between("a|b", "|", "|"), None);
    assert_eq!(between("||", "|", "|"), Some(("", "")));
}

#[test]
fn between_never_overlaps_start() {
    assert_eq!(between("aba", "ab", "ba"), None);
    assert_eq!(between("ababa", "ab", "ba"), Some(("a", "")));
}

#[test]
fn between_empty_match_and_remainder() {
    assert_eq!(between("<>", "<", ">"), Some(("", "")));
}

#[test]
fn between_empty_markers() {
    assert_eq!(between("abc", "", "b"), Some(("a", "c")));
    assert_eq!(between("abc", "a", ""), Some(("", "bc")));
    assert_eq!(between("", "", ""), Some(("", "")));
}

#[test]
fn between_multibyte_text() {
    let text = "前書き「題名」本文です";
    assert_eq!(between(text, "「", "」"), Some(("題名", "本文です")));
    assert_eq!(between("é<ü>ß", "<", ">"), Some(("ü", "ß")));
    assert_eq!(between("𝄞a𝄞b𝄞", "𝄞", "𝄞"), Some(("a", "b𝄞")));
}

#[test]
fn between_borrows_from_input() {
    let text = String::from("k=[value];rest");
    let (m, rest) = between(&text, "[", "]").unwrap();
    let base = text.as_ptr() as usize;
    assert_eq!(m.as_ptr() as usize - base, 3);
    assert_eq!(rest.as_ptr() as usize - base, 9);
    assert_eq!(m, "value");
    assert_eq!(rest, ";rest");
}

#[test]
fn between_repeated_on_remainders() {
    let mut rest = "(a)(b)(c)";
    let mut found = Vec::new();
    while let Some((m, r)) = between(rest, "(", ")") {
        found.push(m);
        assert!(r.len() < rest.len());
        rest = r;
    }
    assert_eq!(found, vec!["a", "b", "c"]);
    assert_eq!(rest, "");
}

#[test]
fn skip_until_after_first_occurrence() {
    assert_eq!(skip_until("key=value=more", "="), Some("value=more"));
    assert_eq!(skip_until("abc", "abc"), Some(""));
    assert_eq!(skip_until("abc", ""), Some("abc"));
}

#[test]
fn skip_until_absent() {
    assert_eq!(skip_until("key value", "="), None);
    assert_eq!(skip_until("", "="), None);
}

#[test]
fn skip_until_multibyte() {
    assert_eq!(skip_until("作者：山田", "："), Some("山田"));
}

#[test]
fn skip_while_removes_leading_run_only() {
    assert_eq!(skip_while("123>A", |c: char| c.is_ascii_digit()), ">A");
    assert_eq!(skip_while("12a34", |c: char| c.is_ascii_digit()), "a34");
}

#[test]
fn skip_while_first_fails_returns_all() {
    assert_eq!(skip_while("abc123", |c: char| c.is_ascii_digit()), "abc123");
}

#[test]
fn skip_while_all_pass_returns_empty() {
    assert_eq!(skip_while("2024", |c: char| c.is_ascii_digit()), "");
    assert_eq!(skip_while("", |c: char| c.is_ascii_digit()), "");
}

#[test]
fn skip_while_counts_characters_not_bytes() {
    assert_eq!(skip_while("ああいう", |c: char| c == 'あ'), "いう");
    assert_eq!(skip_while("𝄞𝄞x", |c: char| c == '𝄞'), "x");
    assert_eq!(skip_while("ééé", |c: char| c == 'é'), "");
}

#[test]
fn skip_while_idempotent() {
    let inputs = ["123>A", "12a34", "", "abc", "999", "1あ2"];
    for text in inputs {
        let once = skip_while(text, |c: char| c.is_ascii_digit());
        let twice = skip_while(once, |c: char| c.is_ascii_digit());
        assert_eq!(once, twice);
    }
}

#[test]
fn split_first_char_cases() {
    assert_eq!(split_first_char(""), None);
    assert_eq!(split_first_char("a"), Some(('a', "a", "")));
    assert_eq!(split_first_char("あい"), Some(('あ', "あ", "い")));
    assert_eq!(split_first_char("𝄞x"), Some(('𝄞', "𝄞", "x")));
}

#[test]
fn utf8_width_of_each_class() {
    assert_eq!(utf8_width('a'), 1);
    assert_eq!(utf8_width('\u{7f}'), 1);
    assert_eq!(utf8_width('\u{80}'), 2);
    assert_eq!(utf8_width('é'), 2);
    assert_eq!(utf8_width('\u{7ff}'), 2);
    assert_eq!(utf8_width('\u{800}'), 3);
    assert_eq!(utf8_width('あ'), 3);
    assert_eq!(utf8_width('\u{ffff}'), 3);
    assert_eq!(utf8_width('\u{10000}'), 4);
    assert_eq!(utf8_width('𝄞'), 4);
}

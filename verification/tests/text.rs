use coresched::table::Table;
use coresched::text::{
    contains, decimal_string, ends_with, from_chars, join_strings, line_list, parse_unsigned,
    piece_list, push_centered, push_left, push_right, push_zero_padded, same, split_chars,
    starts_with, to_chars, to_strings, trimmed, trimmed_back, word_list, CharSet,
};

fn strings(s: &str, parts: fn(&Vec<char>) -> Vec<Vec<char>>) -> Vec<String> {
    to_strings(&parts(&to_chars(s)))
}

#[test]
fn splitting_agrees_with_std() {
    for s in ["", " a  b\tc\u{3000}d\n", "a\r\nb\n\nc\r", "\n", "x\r\n"] {
        let words: Vec<&str> = s.split_whitespace().collect();
        assert_eq!(strings(s, word_list), words);
        let lines: Vec<&str> = s.lines().collect();
        assert_eq!(strings(s, line_list), lines);
    }
    let pieces = to_strings(&split_chars(&to_chars("/a//b"), CharSet::One('/')));
    assert_eq!(pieces, vec!["", "a", "", "b"]);
    let full = to_strings(&piece_list(&to_chars("/a//b"), CharSet::One('/')));
    assert_eq!(full, vec!["a", "b"]);
}

#[test]
fn trimming_agrees_with_std() {
    for s in ["", "  ", " a b ", "\u{85}x\u{2028}", "\"q'"] {
        assert_eq!(from_chars(&trimmed(&to_chars(s), CharSet::Space)), s.trim());
        assert_eq!(
            from_chars(&trimmed(&to_chars(s), CharSet::Quote)),
            s.trim_matches(|c| c == '\'' || c == '"')
        );
    }
    assert_eq!(from_chars(&trimmed_back(&to_chars("a//"), CharSet::One('/'))), "a");
}

#[test]
fn white_space_agrees_with_std() {
    for n in 0..=0x10FFFFu32 {
        if let Some(c) = char::from_u32(n) {
            assert_eq!(CharSet::Space.admits(c), c.is_whitespace());
        }
    }
}

#[test]
fn numbers_read_and_write() {
    for n in [0, 9, 10, 255, u64::MAX] {
        assert_eq!(decimal_string(n), n.to_string());
        assert_eq!(parse_unsigned(&to_chars(&n.to_string()), u64::MAX), Some(n));
    }
    for s in ["", "+", "-1", "+7", "007", "1x", "18446744073709551616"] {
        assert_eq!(parse_unsigned(&to_chars(s), u64::MAX), s.parse::<u64>().ok());
    }
    assert_eq!(parse_unsigned(&to_chars("256"), 255), None);
}

#[test]
fn searching() {
    let s = to_chars("simpleFoam");
    assert!(starts_with(&s, "simple"));
    assert!(ends_with(&s, "Foam"));
    assert!(contains(&s, "leF"));
    assert!(contains(&s, ""));
    assert!(!contains(&s, "foam"));
    assert!(same("a", "a"));
    assert!(!same("a", "b"));
    assert_eq!(join_strings(&vec!["a".to_string(), "b".to_string()], ", "), "a, b");
}

#[test]
fn padding_agrees_with_std() {
    for s in ["", "ab", "物理核", "abcdefghij"] {
        let mut r = String::new();
        push_left(&mut r, s, 8);
        push_right(&mut r, s, 7);
        push_centered(&mut r, s, 9);
        push_zero_padded(&mut r, 7, 3);
        assert_eq!(r, format!("{:<8}{:>7}{:^9}{:03}", s, s, s, 7));
    }
}

#[test]
fn a_table_keeps_one_entry_for_each_key() {
    let mut t: Table<bool> = Table::new();
    t.insert("b".to_string(), false);
    t.insert("a".to_string(), true);
    t.insert("b".to_string(), true);
    assert_eq!(t.len(), 2);
    assert_eq!(t.get("b"), Some(&true));
    assert_eq!(t.key_at(0), "b");
    assert!(*t.value_at(1));
    assert_eq!(t.remove("b"), Some(true));
    assert_eq!(t.remove("b"), None);
    assert!(!t.contains_key("b"));
    assert_eq!(t.len(), 1);
}

use coyote::words::{is_white_space, parse_subreddit_list};

#[test]
fn names_split_on_whitespace() {
    assert_eq!(
        parse_subreddit_list("rust  clojure\tgolang\n"),
        vec!["rust".to_string(), "clojure".to_string(), "golang".to_string()]
    );
}

#[test]
fn empty_and_blank_input_give_no_names() {
    assert!(parse_subreddit_list("").is_empty());
    assert!(parse_subreddit_list("   \n\t ").is_empty());
}

#[test]
fn names_match_split_whitespace() {
    for s in ["a", " a", "a ", "a b", "a\u{A0}b", "x\u{3000}y  z", "héllo wörld", "one\r\ntwo", "zero\u{200B}width", "a\u{85}b\u{2029}c"] {
        let expected: Vec<String> = s.split_whitespace().map(|w| w.to_string()).collect();
        assert_eq!(parse_subreddit_list(s), expected, "input {:?}", s);
    }
}

#[test]
fn every_name_is_a_word() {
    for name in parse_subreddit_list(" a  bb\tccc \n") {
        assert!(!name.is_empty());
        assert!(!name.chars().any(|c| c.is_whitespace()));
    }
}

#[test]
fn white_space_matches_char_is_whitespace() {
    for n in 0u32..=0x10FFFF {
        if let Some(c) = char::from_u32(n) {
            assert_eq!(is_white_space(c), c.is_whitespace(), "code point {:#x}", n);
        }
    }
}

#[test]
fn tab_splits_and_letters_do_not() {
    assert!(is_white_space('\t'));
    assert!(is_white_space('\u{3000}'));
    assert!(!is_white_space('a'));
    assert!(!is_white_space('\u{200B}'));
    assert_eq!(parse_subreddit_list("a\tb"), vec!["a".to_string(), "b".to_string()]);
}

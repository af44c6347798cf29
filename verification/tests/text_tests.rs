use epdrunner::text::{dec_string, find_sub, lines, split_char, str_eq, tokens};

#[test]
fn tokens_split_on_whitespace_runs() {
    let t = tokens("  a\tbb   ccc ");
    assert_eq!(t, vec!["a".to_string(), "bb".to_string(), "ccc".to_string()]);
    assert!(tokens("").is_empty());
    assert!(tokens("   ").is_empty());
}

#[test]
fn find_sub_returns_the_first_occurrence() {
    assert_eq!(find_sub("abcabc", "bc"), Some(1));
    assert_eq!(find_sub("abc", "d"), None);
    assert_eq!(find_sub("abc", ""), Some(0));
    assert_eq!(find_sub("info bestmove x", "bestmove"), Some(5));
}

#[test]
fn split_char_keeps_empty_pieces() {
    assert_eq!(split_char("a b", ' '), vec!["a".to_string(), "b".to_string()]);
    assert_eq!(split_char("", ' '), vec!["".to_string()]);
    assert_eq!(
        split_char("a  b", ' '),
        vec!["a".to_string(), "".to_string(), "b".to_string()]
    );
    assert_eq!(split_char("a;", ';'), vec!["a".to_string(), "".to_string()]);
}

#[test]
fn lines_handle_crlf_and_final_newlines() {
    assert_eq!(lines("a\nb"), vec!["a".to_string(), "b".to_string()]);
    assert_eq!(lines("a\r\nb\r\n"), vec!["a".to_string(), "b".to_string()]);
    assert_eq!(lines("a\n"), vec!["a".to_string()]);
    assert_eq!(lines("a\n\nb"), vec!["a".to_string(), "".to_string(), "b".to_string()]);
    assert!(lines("").is_empty());
}

#[test]
fn decimal_rendering() {
    assert_eq!(dec_string(0), "0");
    assert_eq!(dec_string(7), "7");
    assert_eq!(dec_string(10), "10");
    assert_eq!(dec_string(90210), "90210");
}

#[test]
fn string_equality_by_characters() {
    assert!(str_eq("", ""));
    assert!(str_eq("pv", "pv"));
    assert!(!str_eq("pv", "pV"));
    assert!(!str_eq("pv", "pvx"));
}

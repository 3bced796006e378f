use shell::tokenizer::{quotes_closed, split_input};

fn chars(s: &str) -> Vec<char> {
    s.chars().collect()
}

fn words(input: &str) -> Vec<String> {
    split_input(&chars(input))
        .into_iter()
        .map(|w| w.into_iter().collect())
        .collect()
}

fn closed(input: &str) -> bool {
    quotes_closed(&chars(input))
}

#[test]
fn splits_quoted_and_escaped_words() {
    assert_eq!(
        words("a 'b c' \"d\\\"e\" f\\ g"),
        vec!["a", "b c", "d\"e", "f g"]
    );
}

#[test]
fn empty_line_has_no_words() {
    assert_eq!(words(""), Vec::<String>::new());
    assert_eq!(words("    "), Vec::<String>::new());
}

#[test]
fn runs_of_spaces_separate_once() {
    assert_eq!(words("  echo   hi  "), vec!["echo", "hi"]);
}

#[test]
fn backslash_is_literal_in_single_quotes() {
    assert_eq!(words("'a\\b'"), vec!["a\\b"]);
    assert_eq!(words("'a\\'"), vec!["a\\"]);
}

#[test]
fn double_quotes_keep_backslash_before_other_characters() {
    assert_eq!(words("\"a\\nb\""), vec!["a\\nb"]);
    assert_eq!(words("\"a\\\\b\""), vec!["a\\b"]);
    assert_eq!(words("\"a\\\"b\""), vec!["a\"b"]);
}

#[test]
fn unquoted_backslash_escapes_anything() {
    assert_eq!(words("a\\nb"), vec!["anb"]);
    assert_eq!(words("\\'x\\'"), vec!["'x'"]);
    assert_eq!(words("a\\\\b"), vec!["a\\b"]);
}

#[test]
fn quotes_do_not_nest() {
    assert_eq!(words("'a \"b\" c'"), vec!["a \"b\" c"]);
    assert_eq!(words("\"a 'b' c\""), vec!["a 'b' c"]);
}

#[test]
fn adjacent_quoted_parts_join() {
    assert_eq!(words("a'b'\"c\"d"), vec!["abcd"]);
}

#[test]
fn empty_quotes_make_no_word() {
    assert_eq!(words("''"), Vec::<String>::new());
    assert_eq!(words("a '' b"), vec!["a", "b"]);
}

#[test]
fn redirection_words_are_plain_words() {
    assert_eq!(words("echo hi 2>&1"), vec!["echo", "hi", "2>&1"]);
}

#[test]
fn paired_quotes_are_closed() {
    assert!(closed(""));
    assert!(closed("abc"));
    assert!(closed("'abc'"));
    assert!(closed("\"abc\""));
    assert!(closed("'a' \"b\" 'c'"));
}

#[test]
fn open_quotes_are_not_closed() {
    assert!(!closed("'abc"));
    assert!(!closed("\"abc"));
    assert!(!closed("'a' 'b"));
}

#[test]
fn other_quote_inside_does_not_count() {
    assert!(closed("'a\"b'"));
    assert!(closed("\"a'b\""));
    assert!(!closed("'a\"b"));
    assert!(!closed("\"a'b"));
}

#[test]
fn escaped_quotes_do_not_open() {
    assert!(closed("\\'"));
    assert!(closed("\\\""));
    assert!(closed("\"a\\\"b\""));
    assert!(!closed("\"a\\\""));
}

#[test]
fn backslash_in_single_quotes_does_not_escape_the_closing_quote() {
    assert!(closed("'a\\'"));
    assert!(!closed("'a\\''"));
}

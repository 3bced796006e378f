use shell::dispatch::{classify, echo_text, same_text, type_one, Builtin};
use shell::paths::{begins_at_home, expand_home, has_execute_bit, resolve_home};
use shell::text::{
    char_is_control, char_width, copy, copy_from, encoded_len, encoded_len_from, find_after_last,
    find_first,
};

fn chars(s: &str) -> Vec<char> {
    s.chars().collect()
}

fn text(v: &[char]) -> String {
    v.iter().collect()
}

#[test]
fn builtins_are_recognised() {
    assert_eq!(classify(&chars("cd")), Some(Builtin::Cd));
    assert_eq!(classify(&chars("pwd")), Some(Builtin::Pwd));
    assert_eq!(classify(&chars("exit")), Some(Builtin::Exit));
    assert_eq!(classify(&chars("echo")), Some(Builtin::Echo));
    assert_eq!(classify(&chars("type")), Some(Builtin::Type));
}

#[test]
fn other_names_are_programs() {
    assert_eq!(classify(&chars("ls")), None);
    assert_eq!(classify(&chars("")), None);
    assert_eq!(classify(&chars("ech")), None);
    assert_eq!(classify(&chars("echoo")), None);
    assert_eq!(classify(&chars("CD")), None);
}

#[test]
fn echo_joins_with_spaces_and_ends_with_a_space() {
    assert_eq!(text(&echo_text(&vec![chars("a"), chars("b c")])), "a b c \n");
    assert_eq!(text(&echo_text(&vec![chars("hi")])), "hi \n");
    assert_eq!(text(&echo_text(&vec![])), " \n");
}

#[test]
fn type_names_builtins() {
    let (line, status) = type_one(&chars("echo"), None, 1);
    assert_eq!(text(&line), "echo is a shell builtin\n");
    assert_eq!(status, 1);
    let (line, status) = type_one(&chars("cd"), Some(chars("/bin/cd")), 0);
    assert_eq!(text(&line), "cd is a shell builtin\n");
    assert_eq!(status, 0);
}

#[test]
fn type_prints_the_path_found() {
    let (line, status) = type_one(&chars("ls"), Some(chars("/bin/ls")), 1);
    assert_eq!(text(&line), "/bin/ls\n");
    assert_eq!(status, 0);
}

#[test]
fn type_reports_what_was_not_found() {
    let (line, status) = type_one(&chars("nope"), None, 0);
    assert_eq!(text(&line), "nope: not found\n");
    assert_eq!(status, 1);
}

#[test]
fn equal_texts() {
    assert!(same_text(&chars("abc"), &chars("abc")));
    assert!(same_text(&chars(""), &chars("")));
    assert!(!same_text(&chars("abc"), &chars("abd")));
    assert!(!same_text(&chars("abc"), &chars("ab")));
}

#[test]
fn control_codes_agree_with_char() {
    for v in 0u32..0x300 {
        let c = char::from_u32(v).unwrap();
        assert_eq!(char_is_control(c), c.is_control());
    }
}

#[test]
fn widths_agree_with_char() {
    for c in ['\0', 'a', '\x7f', '\u{80}', '\u{e9}', '\u{7ff}', '\u{800}', '\u{ffff}', '\u{10000}', '\u{10ffff}'] {
        assert_eq!(char_width(c), c.len_utf8() as u128);
    }
    assert_eq!(encoded_len(&chars("a\u{e9}\u{20ac}\u{1f600}")), 10);
    assert_eq!(encoded_len(&chars("")), 0);
    assert_eq!(encoded_len_from(&chars("a\u{e9}\u{20ac}"), 1), 5);
}

#[test]
fn searching_characters() {
    assert_eq!(find_first(&chars("a>b>c"), '>'), 1);
    assert_eq!(find_first(&chars("abc"), '>'), 3);
    assert_eq!(find_first(&chars(""), '>'), 0);
    assert_eq!(find_after_last(&chars("a b c"), ' '), 4);
    assert_eq!(find_after_last(&chars("abc"), ' '), 0);
    assert_eq!(find_after_last(&chars("abc "), ' '), 4);
}

#[test]
fn copies() {
    assert_eq!(copy(&chars("abc")), chars("abc"));
    assert_eq!(copy_from(&chars("abc"), 1), chars("bc"));
    assert_eq!(copy_from(&chars("abc"), 3), chars(""));
}

#[test]
fn tilde_alone_is_the_home_directory() {
    assert_eq!(text(&expand_home(&chars("~"), Some(chars("/home/u")))), "/home/u");
}

#[test]
fn tilde_and_slash_lead_below_the_home_directory() {
    assert_eq!(text(&expand_home(&chars("~/x/y"), Some(chars("/home/u")))), "/home/u/x/y");
    assert_eq!(text(&expand_home(&chars("~/"), Some(chars("/home/u")))), "/home/u/");
}

#[test]
fn other_paths_are_not_expanded() {
    assert_eq!(text(&expand_home(&chars("~x"), Some(chars("/home/u")))), "~x");
    assert_eq!(text(&expand_home(&chars("a/~"), Some(chars("/home/u")))), "a/~");
    assert_eq!(text(&expand_home(&chars(""), Some(chars("/home/u")))), "");
    assert_eq!(text(&expand_home(&chars("/etc"), Some(chars("/home/u")))), "/etc");
}

#[test]
fn an_unknown_home_directory_leaves_the_path() {
    assert_eq!(text(&expand_home(&chars("~/x"), None)), "~/x");
    assert_eq!(text(&expand_home(&chars("~"), None)), "~");
}

#[test]
fn only_paths_with_a_tilde_ask_for_the_home_directory() {
    assert!(begins_at_home(&chars("~")));
    assert!(begins_at_home(&chars("~/a")));
    assert!(!begins_at_home(&chars("~a")));
    assert!(!begins_at_home(&chars("")));
    assert_eq!(text(&resolve_home(&chars("src/lib"))), "src/lib");
    assert_eq!(text(&resolve_home(&chars("~user"))), "~user");
    let below = text(&resolve_home(&chars("~/x")));
    assert!(below == "~/x" || below.ends_with("/x"));
}

#[test]
fn any_execute_bit_makes_a_file_runnable() {
    assert!(has_execute_bit(0o755));
    assert!(has_execute_bit(0o100));
    assert!(has_execute_bit(0o010));
    assert!(has_execute_bit(0o001));
    assert!(has_execute_bit(0o100644 | 0o001));
    assert!(!has_execute_bit(0o644));
    assert!(!has_execute_bit(0o100666));
    assert!(!has_execute_bit(0));
}

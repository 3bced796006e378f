use shell::completion::{builtins, get_completions, lex_no_later, starts_with};

fn chars(s: &str) -> Vec<char> {
    s.chars().collect()
}

fn complete(commands: &[&str], prefix: &str) -> Vec<String> {
    let pool: Vec<Vec<char>> = commands.iter().map(|c| chars(c)).collect();
    get_completions(&pool, &chars(prefix))
        .into_iter()
        .map(|w| w.into_iter().collect())
        .collect()
}

#[test]
fn equal_lengths_come_in_character_order() {
    assert_eq!(complete(&["cd", "cat", "car"], "ca"), vec!["car", "cat"]);
}

#[test]
fn the_order_of_the_pool_does_not_matter() {
    assert_eq!(complete(&["car", "cat", "cd"], "ca"), vec!["car", "cat"]);
    assert_eq!(complete(&["cat", "cd", "car"], "ca"), vec!["car", "cat"]);
}

#[test]
fn shorter_names_come_first() {
    assert_eq!(
        complete(&["zz", "zebra", "za", "zoo"], "z"),
        vec!["za", "zz", "zoo", "zebra"]
    );
}

#[test]
fn builtins_are_candidates() {
    assert_eq!(complete(&[], "e"), vec!["echo", "exit"]);
    assert_eq!(complete(&[], "ty"), vec!["type"]);
    assert_eq!(complete(&["pwdx"], "pw"), vec!["pwd", "pwdx"]);
}

#[test]
fn a_name_found_twice_is_listed_twice() {
    assert_eq!(complete(&["ls", "ls"], "l"), vec!["ls", "ls"]);
    assert_eq!(complete(&["echo"], "ec"), vec!["echo", "echo"]);
}

#[test]
fn no_match_gives_an_empty_list() {
    assert_eq!(complete(&["ls"], "x"), Vec::<String>::new());
}

#[test]
fn empty_prefix_matches_everything() {
    assert_eq!(
        complete(&["a"], ""),
        vec!["a", "cd", "pwd", "echo", "exit", "type"]
    );
}

#[test]
fn length_is_counted_in_encoded_bytes() {
    // two characters of two bytes each rank after three of one byte each
    assert_eq!(complete(&["x\u{e9}\u{e9}", "xabc"], "x"), vec!["xabc", "x\u{e9}\u{e9}"]);
    assert_eq!(complete(&["x\u{e9}", "xab"], "x"), vec!["xab", "x\u{e9}"]);
}

#[test]
fn builtin_names_are_the_five() {
    let names: Vec<String> = builtins().into_iter().map(|w| w.into_iter().collect()).collect();
    assert_eq!(names, vec!["cd", "pwd", "exit", "echo", "type"]);
}

#[test]
fn prefix_test_agrees_with_str() {
    assert!(starts_with(&chars("echo"), &chars("ec")));
    assert!(starts_with(&chars("echo"), &chars("")));
    assert!(starts_with(&chars("echo"), &chars("echo")));
    assert!(!starts_with(&chars("echo"), &chars("echoo")));
    assert!(!starts_with(&chars("echo"), &chars("ex")));
}

#[test]
fn character_order_agrees_with_str() {
    let samples = ["", "a", "ab", "b", "abc", "abd", "B", "\u{e9}", "z"];
    for a in samples {
        for b in samples {
            assert_eq!(lex_no_later(&chars(a), &chars(b)), a <= b);
        }
    }
}

use shell::redirect::{resolve, ParseError, Plan, Target};
use shell::tokenizer::split_input;

fn chars(s: &str) -> Vec<char> {
    s.chars().collect()
}

fn plan(line: &str) -> Result<Plan, ParseError> {
    resolve(&split_input(&chars(line)))
}

fn file(path: &str) -> Target {
    Target::File(chars(path))
}

fn args(p: &Plan) -> Vec<String> {
    p.args.iter().map(|w| w.iter().collect()).collect()
}

#[test]
fn a_command_alone_keeps_its_streams() {
    let p = plan("ls").unwrap();
    assert_eq!(p.command, chars("ls"));
    assert_eq!(args(&p), Vec::<String>::new());
    assert_eq!(p.stdout, Target::Stdout);
    assert_eq!(p.stderr, Target::Stderr);
    assert!(p.stdout_truncate);
    assert!(p.stderr_truncate);
}

#[test]
fn output_to_a_file_truncates() {
    let p = plan("echo hi > out.txt").unwrap();
    assert_eq!(p.command, chars("echo"));
    assert_eq!(args(&p), vec!["hi"]);
    assert_eq!(p.stdout, file("out.txt"));
    assert!(p.stdout_truncate);
    assert_eq!(p.stderr, Target::Stderr);
    assert!(p.stderr_truncate);
}

#[test]
fn doubled_marker_appends() {
    let p = plan("echo hi >> out.txt").unwrap();
    assert_eq!(args(&p), vec!["hi"]);
    assert_eq!(p.stdout, file("out.txt"));
    assert!(!p.stdout_truncate);
    assert!(p.stderr_truncate);
}

#[test]
fn error_stream_follows_output_stream() {
    let p = plan("echo hi 2>&1").unwrap();
    assert_eq!(args(&p), vec!["hi"]);
    assert_eq!(p.stdout, Target::Stdout);
    assert_eq!(p.stderr, Target::Stdout);
}

#[test]
fn alias_takes_the_target_of_that_moment() {
    let p = plan("cmd > f 2>&1").unwrap();
    assert_eq!(p.stdout, file("f"));
    assert_eq!(p.stderr, file("f"));
    let q = plan("cmd 2>&1 > f").unwrap();
    assert_eq!(q.stdout, file("f"));
    assert_eq!(q.stderr, Target::Stdout);
}

#[test]
fn output_stream_follows_error_stream() {
    let p = plan("cmd 2> e 1>&2").unwrap();
    assert_eq!(p.stdout, file("e"));
    assert_eq!(p.stderr, file("e"));
    let q = plan("cmd >&2").unwrap();
    assert_eq!(q.stdout, Target::Stderr);
    assert_eq!(q.stderr, Target::Stderr);
}

#[test]
fn a_stream_aliased_to_itself_stays() {
    let p = plan("cmd > f 1>&1 2>&2").unwrap();
    assert_eq!(p.stdout, file("f"));
    assert_eq!(p.stderr, Target::Stderr);
}

#[test]
fn alias_sets_the_mode_of_its_stream() {
    let p = plan("cmd 2>>&1").unwrap();
    assert_eq!(p.stderr, Target::Stdout);
    assert!(!p.stderr_truncate);
    assert!(p.stdout_truncate);
}

#[test]
fn target_may_stand_in_the_same_word() {
    let p = plan("cmd 2>err.log 1>>out.log x").unwrap();
    assert_eq!(args(&p), vec!["x"]);
    assert_eq!(p.stdout, file("out.log"));
    assert_eq!(p.stderr, file("err.log"));
    assert!(!p.stdout_truncate);
    assert!(p.stderr_truncate);
}

#[test]
fn later_redirections_overwrite_earlier_ones() {
    let p = plan("cmd > a >> b").unwrap();
    assert_eq!(p.stdout, file("b"));
    assert!(!p.stdout_truncate);
}

#[test]
fn missing_target_is_an_error() {
    assert_eq!(plan("echo hi >"), Err(ParseError::MissingTarget));
    assert_eq!(plan("echo hi 2>>"), Err(ParseError::MissingTarget));
    assert_eq!(plan("echo 7>"), Err(ParseError::MissingTarget));
}

#[test]
fn unknown_descriptor_is_an_error() {
    assert_eq!(plan("echo hi 2>&3"), Err(ParseError::BadDescriptor));
    assert_eq!(plan("echo hi >&"), Err(ParseError::BadDescriptor));
    assert_eq!(plan("echo hi > &12"), Err(ParseError::BadDescriptor));
}

#[test]
fn other_sources_are_skipped() {
    let p = plan("echo a>b c").unwrap();
    assert_eq!(args(&p), vec!["c"]);
    assert_eq!(p.stdout, Target::Stdout);
    let q = plan("echo 3> x y").unwrap();
    assert_eq!(args(&q), vec!["y"]);
    assert_eq!(q.stdout, Target::Stdout);
    assert_eq!(q.stderr, Target::Stderr);
    assert!(q.stdout_truncate);
}

#[test]
fn a_file_may_be_named_like_a_descriptor() {
    let p = plan("echo > 1").unwrap();
    assert_eq!(p.stdout, file("1"));
}

#[test]
fn error_texts() {
    assert_eq!(
        ParseError::MissingTarget.message(),
        "sh: Redirection expected a string, but found end of the input"
    );
    assert_eq!(ParseError::BadDescriptor.message(), "sh: Bad file descriptor");
}

#[test]
fn duplicate_is_equal() {
    assert_eq!(file("a b").duplicate(), file("a b"));
    assert_eq!(Target::Stdout.duplicate(), Target::Stdout);
    assert_eq!(Target::Stderr.duplicate(), Target::Stderr);
}

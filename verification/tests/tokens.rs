use dispatcher::fault::Fault;
use dispatcher::runner::{command, command_tokens, on_script, CommandLine, RunnerStep};

fn words(cmd: &str) -> Vec<String> {
    command_tokens(cmd)
}

#[test]
fn splits_words_quotes_and_escapes() {
    assert_eq!(words("run --flag 'a b' c\\ d"), vec!["run", "--flag", "a b", "c d"]);
}

#[test]
fn joins_adjacent_quoted_parts() {
    assert_eq!(words("'123''456'"), vec!["123456"]);
}

#[test]
fn empty_input_has_no_words() {
    assert_eq!(words(""), Vec::<String>::new());
}

#[test]
fn white_space_alone_has_no_words() {
    assert_eq!(words("  \t \n "), Vec::<String>::new());
}

#[test]
fn runs_of_white_space_separate_once() {
    assert_eq!(words("  a \t\t b\n\nc  "), vec!["a", "b", "c"]);
}

#[test]
fn last_word_needs_no_white_space_after_it() {
    assert_eq!(words("notepad.exe"), vec!["notepad.exe"]);
    assert_eq!(words("a b"), vec!["a", "b"]);
}

#[test]
fn double_quotes_keep_white_space() {
    assert_eq!(words("say \"hello  world\" now"), vec!["say", "hello  world", "now"]);
}

#[test]
fn other_quote_inside_quotes_is_plain() {
    assert_eq!(words("\"it's\" 'say \"hi\"'"), vec!["it's", "say \"hi\""]);
}

#[test]
fn quoted_and_plain_parts_join() {
    assert_eq!(words("pre'mid dle'post next"), vec!["premid dlepost", "next"]);
    assert_eq!(words("a'b'\"c\"d"), vec!["abcd"]);
}

#[test]
fn empty_quotes_are_an_empty_word() {
    assert_eq!(words("''"), vec![""]);
    assert_eq!(words("a \"\" b"), vec!["a", "", "b"]);
}

#[test]
fn open_quote_runs_to_the_end() {
    assert_eq!(words("echo 'a b"), vec!["echo", "a b"]);
    assert_eq!(words("'"), vec![""]);
}

#[test]
fn backslash_escapes_any_character() {
    assert_eq!(words("a\\'b"), vec!["a'b"]);
    assert_eq!(words("a\\\\b"), vec!["a\\b"]);
    assert_eq!(words("\\ "), vec![" "]);
    assert_eq!(words("\\\"x"), vec!["\"x"]);
}

#[test]
fn backslash_escapes_inside_quotes_too() {
    assert_eq!(words("'a\\'b'"), vec!["a'b"]);
    assert_eq!(words("\"a\\\"b c\""), vec!["a\"b c"]);
}

#[test]
fn backslash_at_the_end_adds_nothing() {
    assert_eq!(words("\\"), Vec::<String>::new());
    assert_eq!(words("ab\\"), vec!["ab"]);
    assert_eq!(words("ab \\"), vec!["ab"]);
}

#[test]
fn word_after_a_closed_quote_ends_at_white_space() {
    assert_eq!(words("'a'b  c"), vec!["ab", "c"]);
    assert_eq!(words("'a'b "), vec!["ab"]);
    assert_eq!(words("'a' b"), vec!["a", "b"]);
}

#[test]
fn unicode_white_space_separates() {
    assert_eq!(words("a\u{a0}b\u{2003}c\u{3000}d"), vec!["a", "b", "c", "d"]);
    assert_eq!(words("a\u{200b}b"), vec!["a\u{200b}b"]);
}

#[test]
fn words_keep_other_characters() {
    assert_eq!(words("caf\u{e9} \u{4f60}\u{597d}"), vec!["caf\u{e9}", "\u{4f60}\u{597d}"]);
}

fn parts(line: &CommandLine) -> (String, Vec<String>) {
    (line.program.clone(), line.args.clone())
}

#[test]
fn command_takes_first_word_as_program() {
    let line = command("notepad.exe 'my file.txt' -x");
    assert_eq!(
        parts(&line),
        ("notepad.exe".to_string(), vec!["my file.txt".to_string(), "-x".to_string()])
    );
}

#[test]
fn command_of_one_word_has_no_arguments() {
    assert_eq!(parts(&command("calc")), ("calc".to_string(), Vec::<String>::new()));
}

#[test]
fn command_of_nothing_names_no_program() {
    assert_eq!(parts(&command("")), (String::new(), Vec::<String>::new()));
    assert_eq!(parts(&command("   ")), (String::new(), Vec::<String>::new()));
}

#[test]
fn command_line_from_words() {
    let line = CommandLine::from_words(vec!["a".to_string(), "b".to_string(), "c".to_string()]);
    assert_eq!(parts(&line), ("a".to_string(), vec!["b".to_string(), "c".to_string()]));
    let none = CommandLine::from_words(Vec::new());
    assert_eq!(parts(&none), (String::new(), Vec::<String>::new()));
}

#[test]
fn runner_launches_what_it_receives() {
    match on_script(Some("cmd /c \"echo hi\"".to_string())) {
        RunnerStep::Launch(line) => assert_eq!(
            parts(&line),
            ("cmd".to_string(), vec!["/c".to_string(), "echo hi".to_string()])
        ),
        RunnerStep::Fail(fault) => panic!("{:?}", fault),
    }
}

#[test]
fn runner_fails_when_the_filter_is_gone() {
    assert!(matches!(on_script(None), RunnerStep::Fail(Fault::ChannelClosed)));
}

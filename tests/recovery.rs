use maud_macros_impl::recover::{choose_source, find_keyword, recover, recover_from_lines, RecoverError, SourceChoice};

fn lines(ls: &[&str]) -> Vec<String> {
    ls.iter().map(|l| l.to_string()).collect()
}

#[test]
fn recovery_matches_brackets() {
    let r = recover_from_lines(&lines(&["foo{ bar{baz} qux }more"]), 1, "foo");
    assert_eq!(r.ok(), Some(" bar{baz} qux ".to_string()));
}

#[test]
fn recovery_spans_lines() {
    let src = lines(&["fn main() {", "    let x = html! {", "        p { \"a\" }", "    };", "}"]);
    let r = recover_from_lines(&src, 2, "html! {");
    assert_eq!(r.ok(), Some("\n        p { \"a\" }\n    ".to_string()));
}

#[test]
fn recovery_scans_downward_from_start_line() {
    let src = lines(&["foo{ first }", "", "foo{ second }"]);
    assert_eq!(recover_from_lines(&src, 2, "foo").ok(), Some(" second ".to_string()));
    assert_eq!(recover_from_lines(&src, 1, "foo").ok(), Some(" first ".to_string()));
}

#[test]
fn recovery_of_empty_body_fails() {
    let r = recover_from_lines(&lines(&["foo{}"]), 1, "foo");
    assert!(matches!(r, Err(RecoverError::EmptyRecovery)));
    let r = recover_from_lines(&lines(&["foo{  }"]), 1, "foo");
    assert!(matches!(r, Err(RecoverError::EmptyRecovery)));
}

#[test]
fn recovery_without_keyword_fails() {
    let r = recover_from_lines(&lines(&["bar{ x }"]), 1, "foo");
    assert!(matches!(r, Err(RecoverError::EmptyRecovery)));
    let r = recover_from_lines(&lines(&["foo{ x }"]), 9, "foo");
    assert!(matches!(r, Err(RecoverError::EmptyRecovery)));
}

#[test]
fn recovery_without_closing_bracket_reads_to_end() {
    let r = recover_from_lines(&lines(&["foo( a", "b"]), 1, "foo");
    assert_eq!(r.ok(), Some(" a\nb\n".to_string()));
}

#[test]
fn missing_files_concatenate_errors() {
    let attempts: Vec<Result<Vec<String>, String>> =
        vec![Err("no such file: a.rs".to_string()), Err("no such file: ../a.rs".to_string())];
    let r = recover(&attempts, 1, "foo");
    match r {
        Err(e @ RecoverError::SourceNotFound { .. }) => {
            assert_eq!(e.message(), "no such file: a.rs\nno such file: ../a.rs\n");
        }
        _ => panic!("expected SourceNotFound"),
    }
}

#[test]
fn first_file_that_opens_is_used() {
    let attempts: Vec<Result<Vec<String>, String>> =
        vec![Err("missing".to_string()), Ok(lines(&["foo{ x }"])), Ok(lines(&["foo{ y }"]))];
    assert_eq!(recover(&attempts, 1, "foo").ok(), Some(" x ".to_string()));
}

#[test]
fn empty_recovery_message() {
    assert_eq!(RecoverError::EmptyRecovery.message(), "output is empty");
}

#[test]
fn fallback_uses_compiled_text_unless_strict() {
    assert!(matches!(
        choose_source(Err(RecoverError::EmptyRecovery), false, "src/a.rs", 12, "html!{"),
        SourceChoice::Compiled
    ));
    assert!(matches!(
        choose_source(Err(RecoverError::EmptyRecovery), true, "src/a.rs", 12, "html!{"),
        SourceChoice::Fatal { message }
            if message == "failed to find sourcecode for src/a.rs:12, scanning for: \"html!{\", error: output is empty"
    ));
    assert!(matches!(
        choose_source(Ok("x".to_string()), true, "src/a.rs", 12, "html!{"),
        SourceChoice::Recovered { text } if text == "x"
    ));
}

#[test]
fn keyword_search_finds_first_occurrence() {
    assert_eq!(find_keyword("a foo foo", "foo"), Some(2));
    assert_eq!(find_keyword("fo", "foo"), None);
    assert_eq!(find_keyword("abc", ""), Some(0));
}

use fpgrep::failure::{Failure, ERROR, NO_SELECTED, SELECTED};
use fpgrep::pattern::Pattern;
use fpgrep::session::{Session, Source, Step};

fn session(pattern_text: &str, files: usize) -> Session {
    match Session::start(pattern_text, files) {
        Ok(session) => session,
        Err(_) => panic!("pattern {:?} should compile", pattern_text),
    }
}

fn rendered(session: &mut Session, buffer: &str) -> Vec<String> {
    session.scan(buffer).iter().map(|e| e.render()).collect()
}

#[test]
fn exit_codes_follow_convention() {
    assert_eq!(SELECTED, 0);
    assert_eq!(NO_SELECTED, 1);
    assert_eq!(ERROR, 2);
}

#[test]
fn no_files_means_standard_input() {
    let s = session("foo", 0);
    assert_eq!(s.next_step(), Step::Read(Source::Stdin));
    assert!(!s.outcome());
}

#[test]
fn empty_standard_input_exits_with_one() {
    let mut s = session("foo", 0);
    assert!(s.scan("").is_empty());
    assert!(!s.outcome());
    assert_eq!(s.next_step(), Step::Exit(NO_SELECTED));
}

#[test]
fn standard_input_is_read_once() {
    let mut s = session("foo", 0);
    assert_eq!(rendered(&mut s, "foo\n"), vec!["1:foo"]);
    assert_eq!(s.next_step(), Step::Exit(SELECTED));
    assert!(s.scan("foo\n").is_empty());
    assert_eq!(s.next_step(), Step::Exit(SELECTED));
}

#[test]
fn match_in_a_file_exits_with_zero() {
    let mut s = session("foo", 1);
    assert_eq!(s.next_step(), Step::Read(Source::File(0)));
    assert_eq!(rendered(&mut s, "foo\nbar\nfoobar\n"), vec!["1:foo", "3:foobar"]);
    assert_eq!(s.next_step(), Step::Exit(SELECTED));
}

#[test]
fn no_match_in_a_file_exits_with_one() {
    let mut s = session("zzz", 1);
    assert!(rendered(&mut s, "foo\nbar\n").is_empty());
    assert_eq!(s.next_step(), Step::Exit(NO_SELECTED));
}

#[test]
fn invalid_pattern_ends_the_run_with_two() {
    match Session::start("(", 3) {
        Err(failure) => {
            assert!(matches!(failure, Failure::InvalidPattern { .. }));
            assert_eq!(failure.exit_code(), ERROR);
            assert!(failure.diagnostic().starts_with("Invalid regex: "));
        }
        Ok(_) => panic!("an unclosed group must not compile"),
    }
}

#[test]
fn unreadable_file_ends_the_run_with_two() {
    let mut s = session("foo", 2);
    assert_eq!(s.next_step(), Step::Read(Source::File(0)));
    s.fail();
    assert_eq!(s.next_step(), Step::Exit(ERROR));
    assert!(s.scan("foo\n").is_empty());
    assert_eq!(s.next_step(), Step::Exit(ERROR));
}

#[test]
fn failure_after_a_match_still_exits_with_two() {
    let mut s = session("foo", 2);
    assert_eq!(rendered(&mut s, "foo\n"), vec!["1:foo"]);
    assert_eq!(s.next_step(), Step::Read(Source::File(1)));
    s.fail();
    assert!(s.outcome());
    assert_eq!(s.next_step(), Step::Exit(ERROR));
}

#[test]
fn files_are_scanned_in_order_each_numbered_from_one() {
    let mut s = session("x", 2);
    assert_eq!(s.next_step(), Step::Read(Source::File(0)));
    assert_eq!(rendered(&mut s, "a\nx first\n"), vec!["2:x first"]);
    assert_eq!(s.next_step(), Step::Read(Source::File(1)));
    assert_eq!(rendered(&mut s, "x second\nb\n"), vec!["1:x second"]);
    assert_eq!(s.next_step(), Step::Exit(SELECTED));
}

#[test]
fn one_match_among_many_files_is_enough() {
    let mut s = session("x", 3);
    s.advance(false);
    s.advance(true);
    assert_eq!(s.next_step(), Step::Read(Source::File(2)));
    s.advance(false);
    assert!(s.outcome());
    assert_eq!(s.next_step(), Step::Exit(SELECTED));
}

#[test]
fn advance_after_the_end_changes_nothing() {
    let mut s = session("x", 1);
    s.advance(false);
    assert_eq!(s.next_step(), Step::Exit(NO_SELECTED));
    s.advance(true);
    assert!(!s.outcome());
    assert_eq!(s.next_step(), Step::Exit(NO_SELECTED));
}

#[test]
fn empty_pattern_selects_any_text() {
    let mut s = session("", 0);
    assert_eq!(rendered(&mut s, "\n"), vec!["1:"]);
    assert_eq!(s.next_step(), Step::Exit(SELECTED));
    let mut t = session("", 1);
    assert_eq!(rendered(&mut t, "a"), vec!["1:a"]);
    assert_eq!(t.next_step(), Step::Exit(SELECTED));
}

#[test]
fn empty_pattern_on_empty_input_selects_nothing() {
    let mut s = session("", 0);
    assert!(s.scan("").is_empty());
    assert_eq!(s.next_step(), Step::Exit(NO_SELECTED));
}

#[test]
fn session_can_take_a_compiled_pattern() {
    let pattern = match Pattern::new("b+") {
        Ok(pattern) => pattern,
        Err(_) => panic!("pattern should compile"),
    };
    let mut s = Session::with_pattern(pattern, 1);
    assert_eq!(rendered(&mut s, "abba\n"), vec!["1:abba"]);
    assert_eq!(s.next_step(), Step::Exit(SELECTED));
}

#[test]
fn diagnostics_name_the_failure() {
    let open = Failure::SourceOpen { message: "No such file or directory".to_string() };
    assert_eq!(open.diagnostic(), "Error opening file: No such file or directory");
    assert_eq!(open.exit_code(), 2);
    let read = Failure::SourceRead { message: "stream did not contain valid UTF-8".to_string() };
    assert_eq!(read.diagnostic(), "Error reading input: stream did not contain valid UTF-8");
    assert_eq!(read.exit_code(), 2);
    let bad = Failure::InvalidPattern { message: "unclosed group".to_string() };
    assert_eq!(bad.diagnostic(), "Invalid regex: unclosed group");
    assert_eq!(bad.exit_code(), 2);
}

use fpgrep::lines::split_lines;

fn expect_lines(buffer: &str, expected: &[&str]) {
    let lines = split_lines(buffer);
    let expected: Vec<String> = expected.iter().map(|s| s.to_string()).collect();
    assert_eq!(lines, expected);
}

#[test]
fn empty_buffer_has_no_lines() {
    expect_lines("", &[]);
}

#[test]
fn terminated_lines_are_split() {
    expect_lines("foo\nbar\nfoobar\n", &["foo", "bar", "foobar"]);
}

#[test]
fn trailing_newline_adds_no_empty_line() {
    assert_eq!(split_lines("foo\nbar\n").len(), 2);
    assert_eq!(split_lines("foo\nbar\n"), split_lines("foo\nbar"));
}

#[test]
fn unterminated_last_line_is_kept() {
    expect_lines("foo\nbar", &["foo", "bar"]);
    expect_lines("only", &["only"]);
}

#[test]
fn single_newline_is_one_empty_line() {
    expect_lines("\n", &[""]);
}

#[test]
fn empty_lines_between_text_are_kept() {
    expect_lines("a\n\nb\n\n", &["a", "", "b", ""]);
}

#[test]
fn carriage_return_before_newline_is_dropped() {
    expect_lines("a\r\nb\r\n", &["a", "b"]);
    expect_lines("\r\n", &[""]);
}

#[test]
fn only_one_carriage_return_is_dropped() {
    expect_lines("a\r\r\nb", &["a\r", "b"]);
}

#[test]
fn bare_carriage_return_stays_in_line() {
    expect_lines("a\rb\n", &["a\rb"]);
    expect_lines("a\r", &["a\r"]);
    expect_lines("\r", &["\r"]);
}

#[test]
fn text_beyond_ascii_is_split_by_character() {
    expect_lines("grüße\nπ≈3\r\n💩", &["grüße", "π≈3", "💩"]);
}

#[test]
fn split_agrees_with_std_lines() {
    let samples = [
        "",
        "\n",
        "\r",
        "\r\n",
        "\n\n",
        "a",
        "a\n",
        "a\r",
        "a\r\n",
        "a\n\r",
        "a\r\rb",
        "\ra\n\rb\r\n\n",
        "one\ntwo\r\nthree",
        "x\r\n\r\ny\n",
        "tab\tand space \n trailing\r",
        "ünï\ncødé\r\n",
    ];
    for sample in samples {
        let expected: Vec<String> = sample.lines().map(|line| line.to_string()).collect();
        assert_eq!(split_lines(sample), expected, "buffer {:?}", sample);
    }
}

#[test]
fn line_count_is_newlines_plus_open_tail() {
    let samples = ["", "a", "a\n", "a\nb", "a\nb\n", "\n\n\n", "\n\nx"];
    for sample in samples {
        let newlines = sample.chars().filter(|c| *c == '\n').count();
        let open_tail = !sample.is_empty() && !sample.ends_with('\n');
        let expected = newlines + if open_tail { 1 } else { 0 };
        assert_eq!(split_lines(sample).len(), expected, "buffer {:?}", sample);
    }
}

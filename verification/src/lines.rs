//! Splitting a text buffer into lines.

use crate::text::push_char;
use vstd::prelude::*;

verus! {

/// The position of the first line feed in `s`, or `s.len()` if there is none.
pub open spec fn first_newline(s: Seq<char>) -> int
    decreases s.len(),
{
    if s.len() == 0 || s[0] == '\n' {
        0
    } else {
        1 + first_newline(s.drop_first())
    }
}

/// `line` without the carriage return that precedes its line feed, if any.
pub open spec fn strip_cr(line: Seq<char>) -> Seq<char> {
    if line.len() > 0 && line.last() == '\r' {
        line.drop_last()
    } else {
        line
    }
}

/// The lines of `s`, in order. A line ends at a line feed; the line feed, and
/// a carriage return directly before it, belong to no line. Text after the
/// last line feed is a line of its own when it is not empty.
pub open spec fn lines_of(s: Seq<char>) -> Seq<Seq<char>>
    decreases s.len(),
{
    let k = first_newline(s);
    if s.len() == 0 {
        Seq::empty()
    } else if 0 <= k < s.len() {
        seq![strip_cr(s.subrange(0, k))] + lines_of(s.subrange(k + 1, s.len() as int))
    } else {
        seq![s]
    }
}

/// Whether `s` holds no line feed.
pub open spec fn no_newline(s: Seq<char>) -> bool {
    forall|i: int| 0 <= i < s.len() ==> s[i] != '\n'
}

/// Whether a line can begin right after `s`: `s` is empty or ends in a line feed.
pub open spec fn at_line_start(s: Seq<char>) -> bool {
    s.len() == 0 || s.last() == '\n'
}

/// The number of line feeds in `s`.
pub open spec fn count_newlines(s: Seq<char>) -> nat
    decreases s.len(),
{
    if s.len() == 0 {
        0
    } else if s[0] == '\n' {
        1 + count_newlines(s.drop_first())
    } else {
        count_newlines(s.drop_first())
    }
}

/// Splits `buffer` into its lines, in one pass over its characters. There is
/// one line for each line feed, and one more for text after the last of them.
pub fn split_lines(buffer: &str) -> (lines: Vec<String>)
    ensures
        lines.deep_view() == lines_of(buffer@),
        lines.len() == count_newlines(buffer@) + if at_line_start(buffer@) {
            0nat
        } else {
            1nat
        },
{
    let mut lines: Vec<String> = Vec::new();
    let mut current = String::new();
    // A carriage return was read and is held back until the next character
    // shows whether it ends the line.
    let mut held_cr = false;
    let ghost start: int = 0;
    for c in it: buffer.chars()
        invariant
            it.seq() == buffer@,
            0 <= start <= it.index(),
            at_line_start(buffer@.subrange(0, start)),
            no_newline(buffer@.subrange(start, it.index())),
            lines.deep_view() == lines_of(buffer@.subrange(0, start)),
            buffer@.subrange(start, it.index()) == if held_cr {
                current@.push('\r')
            } else {
                current@
            },
            !held_cr && current@.len() > 0 ==> current@.last() != '\r',
    {
        let ghost i: int = it.index();
        let ghost head = buffer@.subrange(0, start);
        let ghost open = buffer@.subrange(start, i);
        assert(buffer@.subrange(start, i + 1) == open.push(c));
        if c == '\n' {
            proof {
                lemma_lines_of_closed(open);
                lemma_lines_concat(head, open.push(c));
                assert(head + open.push(c) == buffer@.subrange(0, i + 1));
                assert(strip_cr(open) == current@);
                assert(buffer@.subrange(i + 1, i + 1) == Seq::<char>::empty());
            }
            let ghost before = lines.deep_view();
            lines.push(current);
            assert(lines.deep_view() == before.push(current@));
            current = String::new();
            held_cr = false;
            proof {
                start = i + 1;
            }
        } else {
            if held_cr {
                push_char(&mut current, '\r');
            }
            if c == '\r' {
                held_cr = true;
            } else {
                push_char(&mut current, c);
                held_cr = false;
            }
        }
    }
    if held_cr {
        push_char(&mut current, '\r');
    }
    proof {
        let head = buffer@.subrange(0, start);
        let open = buffer@.subrange(start, buffer@.len() as int);
        lemma_lines_of_open(open);
        lemma_lines_concat(head, open);
        assert(head + open == buffer@);
        lemma_line_count(buffer@);
    }
    if current.as_str().is_empty() {
        assert(lines.deep_view() + Seq::<Seq<char>>::empty() == lines.deep_view());
    } else {
        let ghost before = lines.deep_view();
        lines.push(current);
        assert(lines.deep_view() == before.push(current@));
        assert(before + seq![current@] == before.push(current@));
    }
    assert(lines.deep_view().len() == lines.len());
    lines
}

/// `first_newline` lies within `s` or at its end, holds a line feed when it
/// lies within, and has none before it.
pub proof fn lemma_first_newline_bounds(s: Seq<char>)
    ensures
        0 <= first_newline(s) <= s.len(),
        first_newline(s) < s.len() ==> s[first_newline(s)] == '\n',
        forall|i: int| 0 <= i < first_newline(s) ==> s[i] != '\n',
    decreases s.len(),
{
    if s.len() == 0 || s[0] == '\n' {
    } else {
        let t = s.drop_first();
        lemma_first_newline_bounds(t);
        assert forall|i: int| 0 <= i < first_newline(s) implies s[i] != '\n' by {
            if i > 0 {
                assert(s[i] == t[i - 1]);
            }
        }
    }
}

/// The first line feed of `s` is found at `k` when `k` holds one and nothing
/// before `k` does.
pub proof fn lemma_first_newline_is(s: Seq<char>, k: int)
    requires
        0 <= k <= s.len(),
        k < s.len() ==> s[k] == '\n',
        forall|i: int| 0 <= i < k ==> s[i] != '\n',
    ensures
        first_newline(s) == k,
{
    lemma_first_newline_bounds(s);
}

/// Text that begins at a line start is split on its own: the lines of `a + t`
/// are those of `a` followed by those of `t`.
pub proof fn lemma_lines_concat(a: Seq<char>, t: Seq<char>)
    requires
        at_line_start(a),
    ensures
        lines_of(a + t) == lines_of(a) + lines_of(t),
    decreases a.len(),
{
    if a.len() == 0 {
        assert(a + t == t);
        assert(lines_of(a) + lines_of(t) == lines_of(t));
    } else {
        let s = a + t;
        let k = first_newline(a);
        lemma_first_newline_bounds(a);
        assert(k < a.len()) by {
            if k >= a.len() {
                assert(a[a.len() - 1] != '\n');
            }
        }
        assert forall|i: int| 0 <= i < k implies s[i] != '\n' by {
            assert(s[i] == a[i]);
        }
        assert(s[k] == a[k]);
        lemma_first_newline_is(s, k);
        let rest = a.subrange(k + 1, a.len() as int);
        assert(at_line_start(rest)) by {
            if rest.len() > 0 {
                assert(rest.last() == a.last());
            }
        }
        assert(s.subrange(0, k) == a.subrange(0, k));
        assert(s.subrange(k + 1, s.len() as int) == rest + t);
        lemma_lines_concat(rest, t);
        assert(lines_of(s) == seq![strip_cr(a.subrange(0, k))] + (lines_of(rest) + lines_of(t)));
        assert(lines_of(a) == seq![strip_cr(a.subrange(0, k))] + lines_of(rest));
    }
}

/// Text without a line feed is one line, or none when it is empty.
pub proof fn lemma_lines_of_open(b: Seq<char>)
    requires
        no_newline(b),
    ensures
        lines_of(b) == if b.len() == 0 {
            Seq::<Seq<char>>::empty()
        } else {
            seq![b]
        },
{
    if b.len() > 0 {
        lemma_first_newline_is(b, b.len() as int);
    }
}

/// Text without a line feed, closed by one, is exactly one line: the text
/// without a carriage return at its end.
pub proof fn lemma_lines_of_closed(b: Seq<char>)
    requires
        no_newline(b),
    ensures
        lines_of(b.push('\n')) == seq![strip_cr(b)],
{
    let s = b.push('\n');
    let k = b.len() as int;
    assert forall|i: int| 0 <= i < k implies s[i] != '\n' by {
        assert(s[i] == b[i]);
    }
    lemma_first_newline_is(s, k);
    assert(s.subrange(0, k) == b);
    assert(s.subrange(k + 1, s.len() as int).len() == 0);
    assert(lines_of(s.subrange(k + 1, s.len() as int)) == Seq::<Seq<char>>::empty());
}

/// Line feeds are counted part by part.
proof fn lemma_count_newlines_concat(a: Seq<char>, b: Seq<char>)
    ensures
        count_newlines(a + b) == count_newlines(a) + count_newlines(b),
    decreases a.len(),
{
    if a.len() == 0 {
        assert(a + b == b);
    } else {
        assert((a + b).drop_first() == a.drop_first() + b);
        lemma_count_newlines_concat(a.drop_first(), b);
    }
}

/// Text without a line feed counts none.
proof fn lemma_count_newlines_none(s: Seq<char>)
    requires
        no_newline(s),
    ensures
        count_newlines(s) == 0,
    decreases s.len(),
{
    if s.len() > 0 {
        assert forall|i: int| 0 <= i < s.drop_first().len() implies s.drop_first()[i] != '\n' by {
            assert(s.drop_first()[i] == s[i + 1]);
        }
        lemma_count_newlines_none(s.drop_first());
    }
}

/// A buffer has one line for each line feed, and one more when text follows
/// the last line feed: a final line feed adds no empty line, and a final
/// line without one is still counted, once.
pub proof fn lemma_line_count(s: Seq<char>)
    ensures
        lines_of(s).len() == count_newlines(s) + if at_line_start(s) {
            0nat
        } else {
            1nat
        },
    decreases s.len(),
{
    if s.len() > 0 {
        let k = first_newline(s);
        lemma_first_newline_bounds(s);
        if k < s.len() {
            let first = s.subrange(0, k);
            let rest = s.subrange(k + 1, s.len() as int);
            lemma_line_count(rest);
            assert(s == first + (seq!['\n'] + rest));
            lemma_count_newlines_concat(first, seq!['\n'] + rest);
            lemma_count_newlines_none(first);
            assert((seq!['\n'] + rest).drop_first() == rest);
            if rest.len() > 0 {
                assert(rest.last() == s.last());
            }
        } else {
            lemma_count_newlines_none(s);
            assert(s[s.len() - 1] != '\n');
        }
    }
}

/// A buffer that holds any text has at least one line.
pub proof fn lemma_nonempty_buffer_has_line(s: Seq<char>)
    requires
        s.len() > 0,
    ensures
        lines_of(s).len() >= 1,
{
    lemma_first_newline_bounds(s);
}

/// Text that follows the last line feed of a buffer is its last line, whole
/// and unchanged, numbered one past the lines before it.
pub proof fn lemma_unterminated_last_line(head: Seq<char>, open: Seq<char>)
    requires
        at_line_start(head),
        no_newline(open),
        open.len() > 0,
    ensures
        lines_of(head + open) == lines_of(head).push(open),
        lines_of(head + open).len() == count_newlines(head + open) + 1,
{
    lemma_lines_concat(head, open);
    lemma_lines_of_open(open);
    lemma_line_count(head + open);
    assert((head + open).last() == open.last());
}

/// A line feed at the very end of a buffer closes its last line and opens no
/// new one: the lines are those of the buffer without it.
pub proof fn lemma_final_newline_optional(s: Seq<char>)
    requires
        s.len() > 0,
        s.last() != '\n',
        s.last() != '\r',
    ensures
        lines_of(s.push('\n')) == lines_of(s),
    decreases s.len(),
{
    let t = s.push('\n');
    let k = first_newline(s);
    lemma_first_newline_bounds(s);
    if k < s.len() {
        assert forall|i: int| 0 <= i < k implies t[i] != '\n' by {
            assert(t[i] == s[i]);
        }
        assert(t[k] == s[k]);
        lemma_first_newline_is(t, k);
        let rest = s.subrange(k + 1, s.len() as int);
        assert(rest.len() > 0);
        assert(rest.last() == s.last());
        assert(t.subrange(k + 1, t.len() as int) == rest.push('\n'));
        assert(t.subrange(0, k) == s.subrange(0, k));
        lemma_final_newline_optional(rest);
    } else {
        lemma_lines_of_closed(s);
        lemma_lines_of_open(s);
    }
}

} // verus!

//! Scanning the lines of a buffer for the ones a pattern matches.

use crate::lines::{lines_of, split_lines};
use crate::pattern::Pattern;
use crate::text::{decimal, push_char, push_decimal};
use vstd::prelude::*;
use vstd::string::StringExecFns;

verus! {

/// A matching line as a mathematical value.
pub struct Hit {
    /// The one-based position of the line in its buffer.
    pub line_number: nat,
    /// The text of the line, without its line ending.
    pub line_text: Seq<char>,
}

/// One line that satisfied the pattern.
#[derive(Debug, PartialEq, Eq)]
pub struct MatchEvent {
    /// The one-based position of the line in its buffer.
    pub line_number: usize,
    /// The text of the line, without its line ending.
    pub line_text: String,
}

impl View for MatchEvent {
    type V = Hit;

    open spec fn view(&self) -> Hit {
        Hit { line_number: self.line_number as nat, line_text: self.line_text@ }
    }
}

impl DeepView for MatchEvent {
    type V = Hit;

    open spec fn deep_view(&self) -> Hit {
        self@
    }
}

/// The output line for a hit: its line number in decimal, a colon, and the
/// text of the line as it stood in the buffer.
pub open spec fn rendered(hit: Hit) -> Seq<char> {
    decimal(hit.line_number).push(':') + hit.line_text
}

/// The hits among `lines`, in line order: line `i` (counted from one) is
/// reported, under the number `i`, exactly when `pattern` matches its text.
pub open spec fn hits_among(pattern: Pattern, lines: Seq<Seq<char>>) -> Seq<Hit>
    decreases lines.len(),
{
    if lines.len() == 0 {
        Seq::empty()
    } else {
        let earlier = hits_among(pattern, lines.drop_last());
        if pattern.matches(lines.last()) {
            earlier.push(Hit { line_number: lines.len(), line_text: lines.last() })
        } else {
            earlier
        }
    }
}

/// What a scan of `buffer` with `pattern` reports.
pub open spec fn matching_lines(pattern: Pattern, buffer: Seq<char>) -> Seq<Hit> {
    hits_among(pattern, lines_of(buffer))
}

/// Every line of `lines` as a hit, numbered from one.
pub open spec fn numbered(lines: Seq<Seq<char>>) -> Seq<Hit> {
    Seq::new(lines.len(), |i: int| Hit { line_number: (i + 1) as nat, line_text: lines[i] })
}

/// Notes the outcome of testing one line: the line joins `events` under its
/// number if it was `found` to match, and is dropped otherwise.
pub fn record(events: &mut Vec<MatchEvent>, line_number: usize, line_text: String, found: bool)
    ensures
        final(events).deep_view() == if found {
            old(events).deep_view().push(Hit { line_number: line_number as nat, line_text: line_text@ })
        } else {
            old(events).deep_view()
        },
{
    if found {
        let ghost before = events.deep_view();
        events.push(MatchEvent { line_number, line_text });
        assert(events.deep_view() == before.push(
            Hit { line_number: line_number as nat, line_text: line_text@ },
        ));
    }
}

/// Scans `buffer` line by line and returns an event for each line that
/// `pattern` matches somewhere within, in line order. Each event carries the
/// one-based position of its line in the buffer, so the numbers strictly
/// increase. A buffer without text yields no event; with the empty pattern
/// every line is reported.
pub fn search(pattern: &Pattern, buffer: &str) -> (events: Vec<MatchEvent>)
    ensures
        events.deep_view() == matching_lines(*pattern, buffer@),
        forall|j: int|
            0 <= j < events.len() ==> {
                let event = #[trigger] events[j];
                &&& 1 <= event.line_number <= lines_of(buffer@).len()
                &&& event.line_text@ == lines_of(buffer@)[event.line_number - 1]
                &&& pattern.matches(event.line_text@)
            },
        forall|j: int, k: int|
            0 <= j < k < events.len() ==> (#[trigger] events[j]).line_number
                < (#[trigger] events[k]).line_number,
        buffer@.len() == 0 ==> events.len() == 0,
        pattern@.len() == 0 ==> events.deep_view() == numbered(lines_of(buffer@)),
{
    let lines = split_lines(buffer);
    let ghost all = lines.deep_view();
    let ghost texts = lines@;
    let mut events: Vec<MatchEvent> = Vec::new();
    let mut line_number: usize = 0;
    let ghost total: usize = lines.len();
    for line in it: lines.into_iter()
        invariant
            it.seq() == texts,
            all.len() == texts.len() == total,
            forall|i: int| 0 <= i < texts.len() ==> all[i] == texts[i]@,
            line_number == it.index(),
            events.deep_view() == hits_among(*pattern, all.take(it.index())),
            pattern@.len() == 0 ==> events.deep_view() == numbered(all.take(it.index())),
    {
        let ghost i: int = it.index();
        line_number = line_number + 1;
        let found = pattern.is_match(line.as_str());
        proof {
            assert(all.take(i + 1).drop_last() == all.take(i));
            assert(all.take(i + 1).last() == line@);
            assert(hits_among(*pattern, all.take(i + 1)) == if found {
                hits_among(*pattern, all.take(i)).push(
                    Hit { line_number: (i + 1) as nat, line_text: line@ },
                )
            } else {
                hits_among(*pattern, all.take(i))
            });
            if pattern@.len() == 0 {
                assert(numbered(all.take(i + 1)) == numbered(all.take(i)).push(
                    Hit { line_number: (i + 1) as nat, line_text: line@ },
                ));
            }
        }
        record(&mut events, line_number, line, found);
    }
    proof {
        assert(all.take(all.len() as int) == all);
        lemma_hits_numbering(*pattern, all);
        let hits = events.deep_view();
        assert(hits.len() == events.len());
        assert forall|j: int| 0 <= j < events.len() implies {
            let event = #[trigger] events[j];
            &&& 1 <= event.line_number <= all.len()
            &&& event.line_text@ == all[event.line_number - 1]
            &&& pattern.matches(event.line_text@)
        } by {
            assert(hits[j] == events[j]@);
        }
        assert forall|j: int, k: int| 0 <= j < k < events.len() implies (#[trigger] events[j]).line_number
            < (#[trigger] events[k]).line_number by {
            assert(hits[j] == events[j]@);
            assert(hits[k] == events[k]@);
        }
    }
    events
}

impl MatchEvent {
    /// Formats the event as `<line_number>:<line_text>`.
    pub fn render(&self) -> (text: String)
        ensures
            text@ == rendered(self@),
    {
        let mut text = String::new();
        push_decimal(&mut text, self.line_number);
        push_char(&mut text, ':');
        text.append(self.line_text.as_str());
        assert(Seq::<char>::empty() + decimal(self.line_number as nat) == decimal(
            self.line_number as nat,
        ));
        text
    }
}

/// Every hit stands for a line that the pattern matches, under that line's
/// one-based position in `lines`; hits come in strictly increasing line
/// order; and no matching line is left out.
pub proof fn lemma_hits_numbering(pattern: Pattern, lines: Seq<Seq<char>>)
    ensures
        hits_among(pattern, lines).len() <= lines.len(),
        forall|j: int|
            0 <= j < hits_among(pattern, lines).len() ==> {
                let hit = #[trigger] hits_among(pattern, lines)[j];
                &&& 1 <= hit.line_number <= lines.len()
                &&& hit.line_text == lines[hit.line_number - 1]
                &&& pattern.matches(hit.line_text)
            },
        forall|j: int, k: int|
            0 <= j < k < hits_among(pattern, lines).len() ==> (#[trigger] hits_among(
                pattern,
                lines,
            )[j]).line_number < (#[trigger] hits_among(pattern, lines)[k]).line_number,
        forall|i: int|
            0 <= i < lines.len() && pattern.matches(#[trigger] lines[i]) ==> hits_among(
                pattern,
                lines,
            ).contains(Hit { line_number: (i + 1) as nat, line_text: lines[i] }),
    decreases lines.len(),
{
    let hits = hits_among(pattern, lines);
    if lines.len() > 0 {
        let front = lines.drop_last();
        let earlier = hits_among(pattern, front);
        lemma_hits_numbering(pattern, front);
        assert forall|j: int| 0 <= j < hits.len() implies {
            let hit = #[trigger] hits[j];
            &&& 1 <= hit.line_number <= lines.len()
            &&& hit.line_text == lines[hit.line_number - 1]
            &&& pattern.matches(hit.line_text)
        } by {
            if j < earlier.len() {
                assert(hits[j] == earlier[j]);
                assert(front[earlier[j].line_number - 1] == lines[earlier[j].line_number - 1]);
            }
        }
        assert forall|j: int, k: int| 0 <= j < k < hits.len() implies (#[trigger] hits[j]).line_number
            < (#[trigger] hits[k]).line_number by {
            assert(hits[j] == earlier[j]);
            if k < earlier.len() {
                assert(hits[k] == earlier[k]);
            }
        }
        assert forall|i: int| 0 <= i < lines.len() && pattern.matches(#[trigger] lines[i]) implies hits.contains(
            Hit { line_number: (i + 1) as nat, line_text: lines[i] },
        ) by {
            let wanted = Hit { line_number: (i + 1) as nat, line_text: lines[i] };
            if i < front.len() {
                assert(front[i] == lines[i]);
                assert(earlier.contains(wanted));
                let j = choose|j: int| 0 <= j < earlier.len() && earlier[j] == wanted;
                assert(hits[j] == wanted);
            } else {
                assert(hits[hits.len() - 1] == wanted);
            }
        }
    }
}

/// In one buffer, each reported line number is the one-based position of its
/// line in that buffer, and the numbers strictly increase in report order.
pub proof fn lemma_line_numbers(pattern: Pattern, buffer: Seq<char>)
    ensures
        forall|j: int|
            0 <= j < matching_lines(pattern, buffer).len() ==> {
                let hit = #[trigger] matching_lines(pattern, buffer)[j];
                &&& 1 <= hit.line_number <= lines_of(buffer).len()
                &&& hit.line_text == lines_of(buffer)[hit.line_number - 1]
            },
        forall|j: int, k: int|
            0 <= j < k < matching_lines(pattern, buffer).len() ==> (#[trigger] matching_lines(
                pattern,
                buffer,
            )[j]).line_number < (#[trigger] matching_lines(pattern, buffer)[k]).line_number,
{
    lemma_hits_numbering(pattern, lines_of(buffer));
}

/// The output of a scan of `buffer` with `pattern`: one rendered line for
/// each hit, in report order.
pub open spec fn output_of(pattern: Pattern, buffer: Seq<char>) -> Seq<Seq<char>> {
    matching_lines(pattern, buffer).map_values(|hit: Hit| rendered(hit))
}

/// Scanning the same buffer with the same pattern a second time reports the
/// same hits and renders the same output, character for character: both
/// depend on the pattern and the buffer alone.
pub proof fn lemma_scan_repeatable(pattern: Pattern, buffer: Seq<char>, first: Seq<Hit>, second: Seq<Hit>)
    requires
        first == matching_lines(pattern, buffer),
        second == matching_lines(pattern, buffer),
    ensures
        first == second,
        first.map_values(|hit: Hit| rendered(hit)) == output_of(pattern, buffer),
        second.map_values(|hit: Hit| rendered(hit)) == output_of(pattern, buffer),
{
}

/// A buffer without text has no lines, so nothing is reported for it.
pub proof fn lemma_empty_buffer_reports_nothing(pattern: Pattern)
    ensures
        matching_lines(pattern, Seq::<char>::empty()).len() == 0,
{
}

} // verus!

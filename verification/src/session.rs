//! The course of one run: which source is read next, what has been found so
//! far, and the exit status the run ends with.

use crate::failure::{Failure, ERROR, NO_SELECTED, SELECTED};
use crate::lines::lemma_nonempty_buffer_has_line;
use crate::matcher::{matching_lines, search, MatchEvent};
use crate::pattern::{regex_accepts, Pattern};
use vstd::prelude::*;

verus! {

/// An origin of text.
#[derive(Clone, Copy, Debug, PartialEq, Eq, Structural)]
pub enum Source {
    /// Standard input, read when no file is named.
    Stdin,
    /// The named file at this position in the list of paths.
    File(usize),
}

/// What the driver of a run has to do next.
#[derive(Clone, Copy, Debug, PartialEq, Eq, Structural)]
pub enum Step {
    /// Read this source to its end and hand its text to the session.
    Read(Source),
    /// End the process with this status.
    Exit(i32),
}

/// What became of one source.
pub enum SourceEvent {
    /// It was read and scanned; the flag says whether any line matched.
    Scanned(bool),
    /// It could not be opened or read.
    Failed,
}

/// A session as a mathematical value.
pub struct SessionState {
    /// The pattern every source is scanned with.
    pub pattern: Pattern,
    /// How many files were named.
    pub files: nat,
    /// How many sources have been scanned.
    pub position: nat,
    /// Whether any line of any source has matched so far.
    pub matched: bool,
    /// Whether a fatal error has ended the run.
    pub failed: bool,
}

impl SessionState {
    /// The state before any source is touched.
    pub open spec fn initial(pattern: Pattern, files: nat) -> SessionState {
        SessionState { pattern, files, position: 0, matched: false, failed: false }
    }

    /// The number of sources: the named files, or standard input alone.
    pub open spec fn source_count(self) -> nat {
        if self.files == 0 {
            1
        } else {
            self.files
        }
    }

    /// The source at position `index`.
    pub open spec fn source_at(self, index: nat) -> Source {
        if self.files == 0 {
            Source::Stdin
        } else {
            Source::File(index as usize)
        }
    }

    /// Whether the run is waiting for a source to be read.
    pub open spec fn awaiting(self) -> bool {
        !self.failed && self.position < self.source_count()
    }

    /// The next thing to do.
    pub open spec fn step(self) -> Step {
        if self.failed {
            Step::Exit(ERROR)
        } else if self.position < self.source_count() {
            Step::Read(self.source_at(self.position))
        } else if self.matched {
            Step::Exit(SELECTED)
        } else {
            Step::Exit(NO_SELECTED)
        }
    }

    /// The state after the awaited source was scanned, with or without a
    /// match. A run that awaits no source is left as it is.
    pub open spec fn scanned(self, found: bool) -> SessionState {
        if self.awaiting() {
            SessionState { position: self.position + 1, matched: self.matched || found, ..self }
        } else {
            self
        }
    }

    /// The state after a fatal error.
    pub open spec fn broken(self) -> SessionState {
        SessionState { failed: true, ..self }
    }

    /// The state after `event`.
    pub open spec fn after(self, event: SourceEvent) -> SessionState {
        match event {
            SourceEvent::Scanned(found) => self.scanned(found),
            SourceEvent::Failed => self.broken(),
        }
    }

    /// The state after all of `events`, in order.
    pub open spec fn after_all(self, events: Seq<SourceEvent>) -> SessionState
        decreases events.len(),
    {
        if events.len() == 0 {
            self
        } else {
            self.after_all(events.drop_last()).after(events.last())
        }
    }
}

/// Whether every one of `events` is a completed scan.
pub open spec fn all_scanned(events: Seq<SourceEvent>) -> bool {
    forall|i: int| 0 <= i < events.len() ==> #[trigger] events[i] is Scanned
}

/// Whether one of `events` is a scan that found a matching line.
pub open spec fn any_found(events: Seq<SourceEvent>) -> bool {
    exists|i: int| 0 <= i < events.len() && #[trigger] events[i] == SourceEvent::Scanned(true)
}

/// Whether one of `events` is a failure.
pub open spec fn any_failed(events: Seq<SourceEvent>) -> bool {
    exists|i: int| 0 <= i < events.len() && #[trigger] events[i] is Failed
}

/// While sources are scanned without error, they are taken one at a time in
/// the order given, and the outcome is the disjunction of what the scans found.
pub proof fn lemma_scans_in_order(pattern: Pattern, files: nat, events: Seq<SourceEvent>)
    requires
        all_scanned(events),
        events.len() <= SessionState::initial(pattern, files).source_count(),
    ensures
        SessionState::initial(pattern, files).after_all(events) == (SessionState {
            position: events.len(),
            matched: any_found(events),
            ..SessionState::initial(pattern, files)
        }),
    decreases events.len(),
{
    if events.len() > 0 {
        let front = events.drop_last();
        assert forall|i: int| 0 <= i < front.len() implies #[trigger] front[i] is Scanned by {
            assert(front[i] == events[i]);
        }
        lemma_scans_in_order(pattern, files, front);
        if any_found(front) {
            let i = choose|i: int| 0 <= i < front.len() && #[trigger] front[i] == SourceEvent::Scanned(true);
            assert(events[i] == SourceEvent::Scanned(true));
        }
        if any_found(events) && !any_found(front) {
            let i = choose|i: int| 0 <= i < events.len() && #[trigger] events[i] == SourceEvent::Scanned(true);
            if i < front.len() {
                assert(front[i] == SourceEvent::Scanned(true));
            }
        }
        assert(events[events.len() - 1] is Scanned);
        if events.last() == SourceEvent::Scanned(true) {
            assert(events[events.len() - 1] == SourceEvent::Scanned(true));
        }
    }
}

/// Before every source is scanned, a run without error asks for the next
/// source in the order given: standard input when no file is named, else
/// the file at the position reached.
pub proof fn lemma_next_source(pattern: Pattern, files: nat, events: Seq<SourceEvent>)
    requires
        all_scanned(events),
        events.len() < SessionState::initial(pattern, files).source_count(),
    ensures
        SessionState::initial(pattern, files).after_all(events).step() == Step::Read(
            SessionState::initial(pattern, files).source_at(events.len()),
        ),
{
    lemma_scans_in_order(pattern, files, events);
}

/// A run that scans all its sources without error ends with `SELECTED` if a
/// line of any source matched, and with `NO_SELECTED` if none did.
pub proof fn lemma_exit_status(pattern: Pattern, files: nat, events: Seq<SourceEvent>)
    requires
        all_scanned(events),
        events.len() == SessionState::initial(pattern, files).source_count(),
    ensures
        SessionState::initial(pattern, files).after_all(events).step() == Step::Exit(
            if any_found(events) {
                SELECTED
            } else {
                NO_SELECTED
            },
        ),
{
    lemma_scans_in_order(pattern, files, events);
}

/// A failure is final: whatever came before it and whatever is reported
/// after it, the run ends with `ERROR`, and no source is scanned after it.
pub proof fn lemma_fail_fast(state: SessionState, events: Seq<SourceEvent>)
    requires
        state.failed,
    ensures
        state.after_all(events) == state,
        state.step() == Step::Exit(ERROR),
    decreases events.len(),
{
    if events.len() > 0 {
        lemma_fail_fast(state, events.drop_last());
    }
}

/// A run in which any source fails ends with `ERROR`.
pub proof fn lemma_failure_exits_with_error(pattern: Pattern, files: nat, events: Seq<SourceEvent>)
    requires
        any_failed(events),
    ensures
        SessionState::initial(pattern, files).after_all(events).step() == Step::Exit(ERROR),
    decreases events.len(),
{
    let start = SessionState::initial(pattern, files);
    let front = events.drop_last();
    if events.last() is Failed {
    } else {
        let i = choose|i: int| 0 <= i < events.len() && #[trigger] events[i] is Failed;
        assert(front[i] is Failed);
        lemma_failure_exits_with_error(pattern, files, front);
    }
}

/// A run that is given no text at all (standard input, and nothing on it)
/// reports no line and ends with `NO_SELECTED`.
pub proof fn lemma_no_text_selects_nothing(pattern: Pattern)
    ensures
        matching_lines(pattern, Seq::<char>::empty()).len() == 0,
        SessionState::initial(pattern, 0).scanned(false).step() == Step::Exit(NO_SELECTED),
{
}

/// One run of the search over its sources.
pub struct Session {
    pattern: Pattern,
    files: usize,
    position: usize,
    matched: bool,
    failed: bool,
}

impl View for Session {
    type V = SessionState;

    closed spec fn view(&self) -> SessionState {
        SessionState {
            pattern: self.pattern,
            files: self.files as nat,
            position: self.position as nat,
            matched: self.matched,
            failed: self.failed,
        }
    }
}

impl Session {
    /// Begins a run over `files` named files with an already compiled pattern.
    pub fn with_pattern(pattern: Pattern, files: usize) -> (session: Session)
        ensures
            session@ == SessionState::initial(pattern, files as nat),
    {
        Session { pattern, files, position: 0, matched: false, failed: false }
    }

    /// Compiles the pattern and begins a run over `files` named files. An
    /// expression that the engine refuses ends the run before any source is
    /// touched.
    pub fn start(pattern_text: &str, files: usize) -> (r: Result<Session, Failure>)
        ensures
            r is Ok <==> regex_accepts(pattern_text@),
            pattern_text@.len() == 0 ==> r is Ok,
            r matches Ok(session) ==> {
                &&& session@ == SessionState::initial(session@.pattern, files as nat)
                &&& session@.pattern@ == pattern_text@
            },
            r matches Err(failure) ==> failure is InvalidPattern,
    {
        match Pattern::new(pattern_text) {
            Ok(pattern) => Ok(Session::with_pattern(pattern, files)),
            Err(failure) => Err(failure),
        }
    }

    /// The next thing to do: read the next source, in the order given, or
    /// end the process.
    pub fn next_step(&self) -> (step: Step)
        ensures
            step == self@.step(),
    {
        if self.failed {
            Step::Exit(ERROR)
        } else if self.files == 0 {
            if self.position == 0 {
                Step::Read(Source::Stdin)
            } else if self.matched {
                Step::Exit(SELECTED)
            } else {
                Step::Exit(NO_SELECTED)
            }
        } else if self.position < self.files {
            Step::Read(Source::File(self.position))
        } else if self.matched {
            Step::Exit(SELECTED)
        } else {
            Step::Exit(NO_SELECTED)
        }
    }

    /// Whether any line has matched so far.
    pub fn outcome(&self) -> (matched: bool)
        ensures
            matched == self@.matched,
    {
        self.matched
    }

    /// Notes that the awaited source was scanned, and whether a line of it
    /// matched.
    pub fn advance(&mut self, found: bool)
        ensures
            final(self)@ == old(self)@.scanned(found),
    {
        if !self.failed && (self.position < self.files || (self.files == 0 && self.position == 0)) {
            self.position = self.position + 1;
            self.matched = self.matched || found;
        }
    }

    /// Notes that a source could not be opened or read. The run is over: no
    /// later source will be asked for.
    pub fn fail(&mut self)
        ensures
            final(self)@ == old(self)@.broken(),
    {
        self.failed = true;
    }

    /// Scans the text of the awaited source and moves on to the next one.
    /// The events are those of this buffer alone, numbered from its first
    /// line. A run that awaits no source scans nothing.
    pub fn scan(&mut self, buffer: &str) -> (events: Vec<MatchEvent>)
        ensures
            old(self)@.awaiting() ==> events.deep_view() == matching_lines(
                old(self)@.pattern,
                buffer@,
            ),
            !old(self)@.awaiting() ==> events.len() == 0,
            final(self)@ == old(self)@.scanned(events.len() > 0),
            old(self)@.awaiting() && old(self)@.pattern@.len() == 0 && buffer@.len() > 0
                ==> final(self)@.matched,
    {
        match self.next_step() {
            Step::Read(_) => {
                let events = search(&self.pattern, buffer);
                proof {
                    if buffer@.len() > 0 {
                        lemma_nonempty_buffer_has_line(buffer@);
                    }
                    assert(events.deep_view().len() == events.len());
                }
                self.advance(events.len() > 0);
                events
            },
            Step::Exit(_) => Vec::new(),
        }
    }
}

} // verus!

//! Watching a recording session: when the game has started, what its log tells,
//! and when the session is over.
use vstd::prelude::*;
use crate::text::{
    chars_occur_at, chars_of, contains_text, has_text, list_contains, occurs_at, same_text,
    split_words, string_between, views, words,
};

verus! {

/// How long the game may take to start, in milliseconds.
pub const START_WAIT_MS: u64 = 120_000;

/// How many checks in a row must find no game before it counts as closed.
pub const TF2_ABSENT_CONFIRMATIONS: u8 = 8;

/// How long the game may stay open after the last clip, in milliseconds.
pub const FINISHED_WAIT_MS: u64 = 5_000;

/// How long a session may go without finishing a clip, in milliseconds.
pub const STALLED_WAIT_MS: u64 = 2_700_000;

/// What to do while the game starts.
#[derive(Clone, Copy, Debug, PartialEq, Eq, Structural)]
pub enum LaunchStep {
    /// Look again later.
    Wait,
    /// The game runs.
    Started,
    /// The game did not start.
    GaveUp,
}

/// What to do while the game starts, after some time, where `running` is what a
/// look at the processes told, if it told anything. Says too whether to warn that
/// the processes cannot be looked at, which is done once.
pub fn launch_step(elapsed_ms: u64, running: Option<bool>, launcher_exited: bool, warned: bool) -> (out:
    (LaunchStep, bool))
    ensures
        out.0 == (if elapsed_ms >= 120_000 {
            LaunchStep::GaveUp
        } else if running == Some(true) {
            LaunchStep::Started
        } else if launcher_exited {
            LaunchStep::GaveUp
        } else {
            LaunchStep::Wait
        }),
        out.1 == (elapsed_ms < 120_000 && running is None && !warned),
{
    if elapsed_ms >= START_WAIT_MS {
        return (LaunchStep::GaveUp, false);
    }
    match running {
        Some(true) => (LaunchStep::Started, false),
        Some(false) => if launcher_exited {
            (LaunchStep::GaveUp, false)
        } else {
            (LaunchStep::Wait, false)
        },
        None => if launcher_exited {
            (LaunchStep::GaveUp, !warned)
        } else {
            (LaunchStep::Wait, !warned)
        },
    }
}

/// What is kept between two looks at a running session.
#[derive(Clone, Copy, Debug, PartialEq, Eq, Structural)]
pub struct SessionWatch {
    /// How many looks in a row found no game.
    pub absent: u8,
    /// When the log told that the last clip was done.
    pub finished_at: Option<u64>,
    /// When a clip was last done.
    pub progress_at: u64,
    /// How many clips were done.
    pub done: usize,
    /// Whether it was warned that the processes cannot be looked at.
    pub warned: bool,
}

/// A look at a running session.
#[derive(Clone, Copy, Debug, PartialEq, Eq, Structural)]
pub struct SessionLook {
    pub now_ms: u64,
    pub batch_finished: bool,
    pub done: usize,
    pub running: Option<bool>,
}

/// What to do after a look.
#[derive(Clone, Copy, Debug, PartialEq, Eq, Structural)]
pub enum SessionStep {
    /// Look again later.
    Continue,
    /// The game is closed.
    Closed,
    /// Close the game, which stayed open after the last clip, and look again.
    CloseFinished,
    /// Close the game, which records nothing any more, and stop.
    CloseStalled,
}

/// What came of a look.
#[derive(Clone, Copy, Debug, PartialEq, Eq, Structural)]
pub struct SessionOutcome {
    pub watch: SessionWatch,
    /// Whether to note that all clips were recorded.
    pub note_finished: bool,
    /// Whether to warn that the processes cannot be looked at.
    pub warn: bool,
    pub step: SessionStep,
}

/// The number of looks in a row that found no game.
pub open spec fn absent_after(absent: u8, running: Option<bool>) -> u8 {
    if running != Some(false) {
        0
    } else if absent == 255 {
        255
    } else {
        (absent + 1) as u8
    }
}

/// What comes of a look.
pub open spec fn looked(watch: SessionWatch, look: SessionLook) -> SessionOutcome {
    let progress_at = if look.done != watch.done {
        look.now_ms
    } else {
        watch.progress_at
    };
    let noted = look.batch_finished && watch.finished_at is None;
    let finished_at = if noted {
        Some(look.now_ms)
    } else {
        watch.finished_at
    };
    let absent = absent_after(watch.absent, look.running);
    let step = if absent >= TF2_ABSENT_CONFIRMATIONS {
        SessionStep::Closed
    } else if finished_at matches Some(at) && look.now_ms - at >= FINISHED_WAIT_MS {
        SessionStep::CloseFinished
    } else if look.now_ms - progress_at >= STALLED_WAIT_MS {
        SessionStep::CloseStalled
    } else {
        SessionStep::Continue
    };
    SessionOutcome {
        watch: SessionWatch {
            absent,
            finished_at: if step == SessionStep::CloseFinished {
                None
            } else {
                finished_at
            },
            progress_at,
            done: look.done,
            warned: watch.warned || look.running is None,
        },
        note_finished: noted,
        warn: look.running is None && !watch.warned,
        step,
    }
}

impl SessionWatch {
    /// A watch that begins.
    pub fn begin(now_ms: u64, warned: bool) -> (out: SessionWatch)
        ensures
            out == (SessionWatch {
                absent: 0,
                finished_at: None,
                progress_at: now_ms,
                done: 0,
                warned,
            }),
    {
        SessionWatch { absent: 0, finished_at: None, progress_at: now_ms, done: 0, warned }
    }

    /// Takes a look.
    pub fn look(&self, look: &SessionLook) -> (out: SessionOutcome)
        ensures
            out == looked(*self, *look),
    {
        let progress_at: u64 = if look.done != self.done {
            look.now_ms
        } else {
            self.progress_at
        };
        let noted = look.batch_finished && self.finished_at.is_none();
        let finished_at: Option<u64> = if noted {
            Some(look.now_ms)
        } else {
            self.finished_at
        };
        let absent: u8 = match look.running {
            Some(false) => if self.absent == 255 {
                255
            } else {
                self.absent + 1
            },
            _ => 0,
        };
        let overdue = match finished_at {
            Some(at) => look.now_ms >= at && look.now_ms - at >= FINISHED_WAIT_MS,
            None => false,
        };
        let step = if absent >= TF2_ABSENT_CONFIRMATIONS {
            SessionStep::Closed
        } else if overdue {
            SessionStep::CloseFinished
        } else if look.now_ms >= progress_at && look.now_ms - progress_at >= STALLED_WAIT_MS {
            SessionStep::CloseStalled
        } else {
            SessionStep::Continue
        };
        SessionOutcome {
            watch: SessionWatch {
                absent,
                finished_at: if step == SessionStep::CloseFinished {
                    None
                } else {
                    finished_at
                },
                progress_at,
                done: look.done,
                warned: self.warned || look.running.is_none(),
            },
            note_finished: noted,
            warn: look.running.is_none() && !self.warned,
            step,
        }
    }
}

/// What is kept after a number of looks.
pub open spec fn watched(start: SessionWatch, looks: Seq<SessionLook>) -> SessionWatch
    decreases looks.len(),
{
    if looks.len() == 0 {
        start
    } else {
        looked(watched(start, looks.drop_last()), looks.last()).watch
    }
}

/// A session counts as closed only where the last eight looks, each by itself,
/// found no game.
pub proof fn law_closing_is_confirmed(start: SessionWatch, looks: Seq<SessionLook>, i: int)
    requires
        start.absent == 0,
        looks.len() > 0,
        looked(watched(start, looks.drop_last()), looks.last()).step == SessionStep::Closed,
        looks.len() - 8 <= i < looks.len(),
    ensures
        looks.len() >= 8,
        looks[i].running == Some(false),
{
    lemma_absences(start, looks);
}

proof fn lemma_absences(start: SessionWatch, looks: Seq<SessionLook>)
    requires
        start.absent == 0,
    ensures
        watched(start, looks).absent <= looks.len(),
        forall|i: int|
            looks.len() - watched(start, looks).absent <= i < looks.len() ==> (#[trigger] looks[i]).running
                == Some(false),
    decreases looks.len(),
{
    if looks.len() > 0 {
        let before = looks.drop_last();
        lemma_absences(start, before);
        assert forall|i: int|
            looks.len() - watched(start, looks).absent <= i < looks.len() implies (#[trigger] looks[i]).running
            == Some(false) by {
            if i < before.len() {
                assert(before[i] == looks[i]);
            }
        }
    }
}

/// A watch warns at most once that the processes cannot be looked at.
pub proof fn law_warns_once(watch: SessionWatch, first: SessionLook, then: SessionLook)
    ensures
        !(looked(watch, first).warn && looked(looked(watch, first).watch, then).warn),
{
}

// ---------------------------------------------------------------------------
// The log of the game
// ---------------------------------------------------------------------------

/// What stands behind a mark in a line, up to the next such mark.
pub open spec fn behind(line: Seq<char>, mark: Seq<char>) -> Option<Seq<char>>
    decreases line.len(),
{
    if line.len() < mark.len() || mark.len() == 0 {
        None
    } else if occurs_at(line, mark, 0) {
        Some(until(line.skip(mark.len() as int), mark))
    } else {
        behind(line.skip(1), mark)
    }
}

/// A line up to a mark, or all of it.
pub open spec fn until(line: Seq<char>, mark: Seq<char>) -> Seq<char>
    decreases line.len(),
{
    if line.len() == 0 || occurs_at(line, mark, 0) {
        Seq::empty()
    } else {
        seq![line[0]] + until(line.skip(1), mark)
    }
}

/// The word behind a mark in a line.
pub open spec fn marked_word(line: Seq<char>, mark: Seq<char>) -> Option<Seq<char>> {
    match behind(line, mark) {
        Some(rest) if words(rest).len() > 0 => Some(words(rest)[0]),
        _ => None,
    }
}

proof fn lemma_behind_at(line: Seq<char>, mark: Seq<char>, at: int)
    requires
        mark.len() > 0,
        occurs_at(line, mark, at),
        forall|k: int| 0 <= k < at ==> !occurs_at(line, mark, k),
    ensures
        behind(line, mark) == Some(until(line.skip(at + mark.len()), mark)),
    decreases at,
{
    if at > 0 {
        let rest = line.skip(1);
        assert(!occurs_at(line, mark, 0));
        assert(rest.subrange(at - 1, at - 1 + mark.len()) =~= line.subrange(at, at + mark.len()));
        assert forall|k: int| 0 <= k < at - 1 implies !occurs_at(rest, mark, k) by {
            assert(!occurs_at(line, mark, k + 1));
            if occurs_at(rest, mark, k) {
                assert(rest.subrange(k, k + mark.len()) =~= line.subrange(
                    k + 1,
                    k + 1 + mark.len(),
                ));
            }
        }
        lemma_behind_at(rest, mark, at - 1);
        assert(rest.skip(at - 1 + mark.len()) =~= line.skip(at + mark.len()));
    }
}

proof fn lemma_behind_none(line: Seq<char>, mark: Seq<char>)
    requires
        forall|k: int| 0 <= k <= line.len() ==> !occurs_at(line, mark, k),
    ensures
        behind(line, mark) is None,
    decreases line.len(),
{
    if line.len() >= mark.len() && mark.len() > 0 {
        assert(!occurs_at(line, mark, 0));
        let rest = line.skip(1);
        assert forall|k: int| 0 <= k <= rest.len() implies !occurs_at(rest, mark, k) by {
            assert(!occurs_at(line, mark, k + 1));
            if occurs_at(rest, mark, k) {
                assert(rest.subrange(k, k + mark.len()) =~= line.subrange(
                    k + 1,
                    k + 1 + mark.len(),
                ));
            }
        }
        lemma_behind_none(rest, mark);
    }
}

proof fn lemma_until(line: Seq<char>, mark: Seq<char>, to: int)
    requires
        0 <= to <= line.len(),
        to == line.len() || occurs_at(line, mark, to),
        forall|k: int| 0 <= k < to ==> !occurs_at(line, mark, k),
    ensures
        until(line, mark) == line.take(to),
    decreases to,
{
    if to == 0 {
        assert(line.take(0) =~= Seq::empty());
    } else {
        let rest = line.skip(1);
        assert(!occurs_at(line, mark, 0));
        if to < line.len() {
            assert(rest.subrange(to - 1, to - 1 + mark.len()) =~= line.subrange(
                to,
                to + mark.len(),
            ));
        }
        assert forall|k: int| 0 <= k < to - 1 implies !occurs_at(rest, mark, k) by {
            assert(!occurs_at(line, mark, k + 1));
            if occurs_at(rest, mark, k) {
                assert(rest.subrange(k, k + mark.len()) =~= line.subrange(
                    k + 1,
                    k + 1 + mark.len(),
                ));
            }
        }
        lemma_until(rest, mark, to - 1);
        assert(seq![line[0]] + rest.take(to - 1) =~= line.take(to));
    }
}

fn find_mark(line: &Vec<char>, mark: &Vec<char>, from: usize) -> (out: usize)
    requires
        from <= line.len(),
        mark.len() > 0,
    ensures
        from <= out <= line.len(),
        out == line.len() || occurs_at(line@, mark@, out as int),
        forall|k: int| from <= k < out ==> !occurs_at(line@, mark@, k),
{
    let mut i: usize = from;
    while i < line.len()
        invariant
            from <= i <= line.len(),
            mark.len() > 0,
            forall|k: int| from <= k < i ==> !occurs_at(line@, mark@, k),
        decreases line.len() - i,
    {
        if chars_occur_at(line, mark, i) {
            return i;
        }
        i += 1;
    }
    i
}

/// The word behind a mark in a line.
pub fn word_behind(line: &str, mark: &str) -> (out: Option<String>)
    requires
        mark@.len() > 0,
    ensures
        match out {
            Some(word) => marked_word(line@, mark@) == Some(word@),
            None => marked_word(line@, mark@) is None,
        },
{
    let chars = chars_of(line);
    let needle = chars_of(mark);
    let at = find_mark(&chars, &needle, 0);
    if at == chars.len() {
        proof {
            assert(!occurs_at(chars@, needle@, chars@.len() as int));
            lemma_behind_none(line@, mark@);
        }
        return None;
    }
    let from = at + needle.len();
    let to = find_mark(&chars, &needle, from);
    let rest = string_between(&chars, from, to);
    proof {
        lemma_behind_at(line@, mark@, at as int);
        let tail = line@.skip(from as int);
        assert forall|k: int| 0 <= k < to - from implies !occurs_at(tail, mark@, k) by {
            assert(!occurs_at(line@, mark@, k + from));
            if occurs_at(tail, mark@, k) {
                assert(tail.subrange(k, k + mark@.len()) =~= line@.subrange(
                    k + from,
                    k + from + mark@.len(),
                ));
            }
        }
        if to < line@.len() {
            assert(tail.subrange(to - from, to - from + mark@.len()) =~= line@.subrange(
                to as int,
                to + mark@.len(),
            ));
        }
        lemma_until(tail, mark@, to - from);
        assert(tail.take(to - from) =~= line@.subrange(from as int, to as int));
    }
    let list = split_words(rest.as_str());
    if list.len() == 0 {
        assert(views(list@).len() == 0);
        return None;
    }
    let word = list[0].clone();
    assert(views(list@)[0] == word@);
    Some(word)
}

/// What a line of the log tells of a clip.
#[derive(Clone, Copy, Debug, PartialEq, Eq, Structural)]
pub enum MarkerEvent {
    /// A clip is recorded, as the current one of the clips so far.
    Started { clip: usize, current: usize },
    /// A clip is recorded to its end.
    Finalized { clip: usize },
}

/// What is known from the log.
#[derive(Debug)]
pub struct RecordingMarkerState {
    pub processed_lines: usize,
    pub batch_finished: bool,
    pub finalized_markers: usize,
    pub started_clips: Vec<String>,
}

/// What is known from the log, with its texts as sequences.
pub struct MarkerModel {
    pub batch_finished: bool,
    pub finalized_markers: int,
    pub started_clips: Seq<Seq<char>>,
    pub events: Seq<MarkerEvent>,
}

/// The first clip of a name.
pub open spec fn clip_named(clips: Seq<Seq<char>>, name: Seq<char>) -> Option<int>
    decreases clips.len(),
{
    if clips.len() == 0 {
        None
    } else {
        match clip_named(clips.drop_last(), name) {
            Some(i) => Some(i),
            None => if clips.last() == name {
                Some(clips.len() - 1)
            } else {
                None
            },
        }
    }
}

/// What is known once a line was read.
pub open spec fn line_read(state: MarkerModel, line: Seq<char>, clips: Seq<Seq<char>>) -> MarkerModel {
    let batch_finished = state.batch_finished || has_text(line, "TF2FRAG_BATCH_FINISHED"@);
    let (started_clips, begun) = match marked_word(line, "TF2FRAG_RECORD_START "@) {
        Some(name) if !state.started_clips.contains(name) => (
            state.started_clips.push(name),
            match clip_named(clips, name) {
                Some(i) => seq![
                    MarkerEvent::Started {
                        clip: i as usize,
                        current: (state.started_clips.len() + 1) as usize,
                    },
                ],
                None => Seq::empty(),
            },
        ),
        _ => (state.started_clips, Seq::empty()),
    };
    match marked_word(line, "TF2FRAG_RECORD_FINALIZED "@) {
        Some(name) => MarkerModel {
            batch_finished,
            finalized_markers: if state.finalized_markers < usize::MAX {
                state.finalized_markers + 1
            } else {
                state.finalized_markers
            },
            started_clips,
            events: state.events + begun + (match clip_named(clips, name) {
                Some(i) => seq![MarkerEvent::Finalized { clip: i as usize }],
                None => Seq::empty(),
            }),
        },
        None => MarkerModel {
            batch_finished,
            finalized_markers: state.finalized_markers,
            started_clips,
            events: state.events + begun,
        },
    }
}

/// What is known once a number of lines was read.
pub open spec fn lines_read(
    state: MarkerModel,
    lines: Seq<Seq<char>>,
    clips: Seq<Seq<char>>,
) -> MarkerModel
    decreases lines.len(),
{
    if lines.len() == 0 {
        state
    } else {
        line_read(lines_read(state, lines.drop_last(), clips), lines.last(), clips)
    }
}

/// How many of the lines were read already; where the log has become shorter, it
/// is read anew.
pub open spec fn lines_known(processed: int, count: int) -> int {
    if processed > count {
        0
    } else {
        processed
    }
}

fn find_clip(clips: &Vec<String>, name: &str) -> (out: Option<usize>)
    ensures
        match out {
            Some(i) => i < clips.len() && clip_named(views(clips@), name@) == Some(i as int),
            None => clip_named(views(clips@), name@) is None,
        },
{
    let ghost all = views(clips@);
    let mut found: Option<usize> = None;
    let mut i: usize = 0;
    while i < clips.len()
        invariant
            i <= clips.len(),
            all == views(clips@),
            match found {
                Some(at) => at < i && clip_named(all.take(i as int), name@) == Some(at as int),
                None => clip_named(all.take(i as int), name@) is None,
            },
        decreases clips.len() - i,
    {
        proof {
            assert(all.take(i + 1).drop_last() =~= all.take(i as int));
            assert(all.take(i + 1).last() == clips@[i as int]@);
        }
        if found.is_none() && same_text(clips[i].as_str(), name) {
            found = Some(i);
        }
        i += 1;
    }
    assert(all.take(clips.len() as int) =~= all);
    found
}

impl RecordingMarkerState {
    /// What is known, with events.
    pub open spec fn model(&self, events: Seq<MarkerEvent>) -> MarkerModel {
        MarkerModel {
            batch_finished: self.batch_finished,
            finalized_markers: self.finalized_markers as int,
            started_clips: views(self.started_clips@),
            events,
        }
    }

    /// Nothing known.
    pub fn new() -> (out: RecordingMarkerState)
        ensures
            out.processed_lines == 0,
            !out.batch_finished,
            out.finalized_markers == 0,
            views(out.started_clips@) == Seq::<Seq<char>>::empty(),
    {
        let out = RecordingMarkerState {
            processed_lines: 0,
            batch_finished: false,
            finalized_markers: 0,
            started_clips: Vec::new(),
        };
        assert(views(out.started_clips@) =~= Seq::empty());
        out
    }

    fn read_line(&mut self, line: &str, clips: &Vec<String>, events: &mut Vec<MarkerEvent>)
        requires
            old(self).started_clips.len() < usize::MAX,
        ensures
            final(self).processed_lines == old(self).processed_lines,
            final(self).started_clips.len() <= old(self).started_clips.len() + 1,
            final(self).model(final(events)@) == line_read(
                old(self).model(old(events)@),
                line@,
                views(clips@),
            ),
    {
        proof {
            reveal_strlit("TF2FRAG_RECORD_START ");
            reveal_strlit("TF2FRAG_RECORD_FINALIZED ");
        }
        let ghost before = self.model(events@);
        if contains_text(line, "TF2FRAG_BATCH_FINISHED") {
            self.batch_finished = true;
        }
        let started = word_behind(line, "TF2FRAG_RECORD_START ");
        if let Some(name) = started {
            if !list_contains(&self.started_clips, name.as_str()) {
                let ghost known = views(self.started_clips@);
                let found = find_clip(clips, name.as_str());
                let current = self.started_clips.len() + 1;
                self.started_clips.push(name);
                assert(views(self.started_clips@) =~= known.push(name@));
                if let Some(clip) = found {
                    let ghost so_far = events@;
                    events.push(MarkerEvent::Started { clip, current });
                    assert(events@ =~= so_far + seq![MarkerEvent::Started { clip, current }]);
                } else {
                    assert(events@ =~= events@ + Seq::<MarkerEvent>::empty());
                }
            } else {
                assert(events@ =~= events@ + Seq::<MarkerEvent>::empty());
            }
        } else {
            assert(events@ =~= events@ + Seq::<MarkerEvent>::empty());
        }
        let done = word_behind(line, "TF2FRAG_RECORD_FINALIZED ");
        if let Some(name) = done {
            if self.finalized_markers < usize::MAX {
                self.finalized_markers = self.finalized_markers + 1;
            }
            if let Some(clip) = find_clip(clips, name.as_str()) {
                let ghost so_far = events@;
                events.push(MarkerEvent::Finalized { clip });
                assert(events@ =~= so_far + seq![MarkerEvent::Finalized { clip }]);
            } else {
                assert(events@ =~= events@ + Seq::<MarkerEvent>::empty());
            }
        }
    }

    /// Reads the lines of the log that are new, and gives what they tell of the
    /// clips.
    pub fn process_recording_markers(&mut self, lines: &Vec<String>, clips: &Vec<String>) -> (out:
        Vec<MarkerEvent>)
        requires
            old(self).started_clips.len() + lines.len() < usize::MAX,
        ensures
            final(self).processed_lines == lines.len(),
            final(self).model(out@) == lines_read(
                old(self).model(Seq::empty()),
                views(lines@).skip(
                    lines_known(old(self).processed_lines as int, lines.len() as int),
                ),
                views(clips@),
            ),
    {
        let start: usize = if self.processed_lines > lines.len() {
            0
        } else {
            self.processed_lines
        };
        let ghost all = views(lines@);
        let ghost fresh = all.skip(start as int);
        let ghost before = self.model(Seq::empty());
        let ghost names = views(clips@);
        let mut events: Vec<MarkerEvent> = Vec::new();
        let mut i: usize = start;
        proof {
            assert(fresh.take(0) =~= Seq::empty());
            assert(events@ =~= Seq::empty());
        }
        while i < lines.len()
            invariant
                start <= i <= lines.len(),
                all == views(lines@),
                fresh == all.skip(start as int),
                names == views(clips@),
                self.started_clips.len() <= old(self).started_clips.len() + (i - start),
                old(self).started_clips.len() + lines.len() < usize::MAX,
                self.model(events@) == lines_read(before, fresh.take(i - start), names),
            decreases lines.len() - i,
        {
            proof {
                let next = fresh.take(i + 1 - start);
                assert(next.drop_last() =~= fresh.take(i - start));
                assert(next.last() == all[i as int]);
            }
            self.read_line(lines[i].as_str(), clips, &mut events);
            i += 1;
        }
        assert(fresh.take(lines.len() - start) =~= fresh);
        self.processed_lines = lines.len();
        events
    }
}

// ---------------------------------------------------------------------------
// The end of a session
// ---------------------------------------------------------------------------

/// What becomes of a clip that the log does not tell of.
#[derive(Clone, Copy, Debug, PartialEq, Eq, Structural)]
pub enum LeftoverStep {
    /// It was dealt with.
    Nothing,
    /// There is something of it: make it whole.
    Consolidate,
    /// There is nothing of it, since the session was cut short.
    Interrupted,
    /// There is nothing of it.
    Failed,
}

impl LeftoverStep {
    /// The state that is noted for the clip.
    pub fn status(&self) -> (out: &'static str)
        ensures
            out@ == (match *self {
                LeftoverStep::Interrupted => "Interrupted"@,
                LeftoverStep::Failed => "Failed"@,
                LeftoverStep::Consolidate => "Finalizing"@,
                LeftoverStep::Nothing => ""@,
            }),
    {
        match self {
            LeftoverStep::Interrupted => "Interrupted",
            LeftoverStep::Failed => "Failed",
            LeftoverStep::Consolidate => "Finalizing",
            LeftoverStep::Nothing => "",
        }
    }

    /// What is noted as the reason.
    pub fn reason(&self) -> (out: Option<&'static str>)
        ensures
            match *self {
                LeftoverStep::Interrupted => out matches Some(words) && words@
                    == "recording ended before this clip produced capture artifacts"@,
                LeftoverStep::Failed => out matches Some(words) && words@
                    == "recording batch finished but this clip produced no capture artifacts"@,
                _ => out is None,
            },
    {
        match self {
            LeftoverStep::Interrupted => Some(
                "recording ended before this clip produced capture artifacts",
            ),
            LeftoverStep::Failed => Some(
                "recording batch finished but this clip produced no capture artifacts",
            ),
            _ => None,
        }
    }
}

/// What becomes of a clip at the end of a session.
pub fn leftover_step(completed: bool, failed: bool, artifacts: bool, interrupted: bool) -> (out:
    LeftoverStep)
    ensures
        out == (if completed || failed {
            LeftoverStep::Nothing
        } else if artifacts {
            LeftoverStep::Consolidate
        } else if interrupted {
            LeftoverStep::Interrupted
        } else {
            LeftoverStep::Failed
        }),
{
    if completed || failed {
        LeftoverStep::Nothing
    } else if artifacts {
        LeftoverStep::Consolidate
    } else if interrupted {
        LeftoverStep::Interrupted
    } else {
        LeftoverStep::Failed
    }
}

/// Whether a session was cut short.
pub fn session_interrupted(batch_finished: bool, stalled: bool) -> (r: bool)
    ensures
        r == (!batch_finished || stalled),
{
    !batch_finished || stalled
}

/// The state of a whole session, and the reason for it.
pub fn batch_verdict(interrupted: bool, completed: usize, failed: usize) -> (out: (
    &'static str,
    Option<&'static str>,
))
    ensures
        out.0@ == (if interrupted {
            "Interrupted"@
        } else if failed == 0 {
            "Completed"@
        } else if completed == 0 {
            "Failed"@
        } else {
            "CompletedWithErrors"@
        }),
        if interrupted {
            out.1 matches Some(words) && words@
                == "TF2 closed before the final batch marker; completed clips were preserved"@
        } else {
            out.1 is None
        },
{
    if interrupted {
        (
            "Interrupted",
            Some("TF2 closed before the final batch marker; completed clips were preserved"),
        )
    } else if failed == 0 {
        ("Completed", None)
    } else if completed == 0 {
        ("Failed", None)
    } else {
        ("CompletedWithErrors", None)
    }
}

// ---------------------------------------------------------------------------
// Files that are still written
// ---------------------------------------------------------------------------

/// What is kept between two looks at the size of a file.
#[derive(Clone, Copy, Debug, PartialEq, Eq, Structural)]
pub struct SizeWatch {
    pub previous: u64,
    pub stable: u8,
}

/// What is kept after a look at the size of a file.
pub open spec fn size_seen(watch: SizeWatch, size: u64) -> SizeWatch {
    SizeWatch {
        previous: size,
        stable: if size > 0 && size == watch.previous {
            if watch.stable < 3 {
                (watch.stable + 1) as u8
            } else {
                3
            }
        } else {
            0
        },
    }
}

/// What is kept after looks at the size of a file.
pub open spec fn sizes_seen(sizes: Seq<u64>) -> SizeWatch
    decreases sizes.len(),
{
    if sizes.len() == 0 {
        SizeWatch { previous: 0, stable: 0 }
    } else {
        size_seen(sizes_seen(sizes.drop_last()), sizes.last())
    }
}

impl SizeWatch {
    /// A watch that begins.
    pub fn begin() -> (out: SizeWatch)
        ensures
            out == sizes_seen(Seq::empty()),
    {
        SizeWatch { previous: 0, stable: 0 }
    }

    /// Takes a look; tells whether the file is whole.
    pub fn look(&mut self, size: u64) -> (whole: bool)
        ensures
            *final(self) == size_seen(*old(self), size),
            whole == (final(self).stable == 3),
    {
        if size > 0 && size == self.previous {
            if self.stable < 3 {
                self.stable = self.stable + 1;
            } else {
                self.stable = 3;
            }
        } else {
            self.stable = 0;
        }
        self.previous = size;
        self.stable == 3
    }
}

/// A file counts as whole where, and only where, its size was the same, and not
/// nothing, at the last four looks.
pub proof fn law_whole_file_keeps_its_size(sizes: Seq<u64>)
    ensures
        sizes_seen(sizes).stable == 3 <==> (sizes.len() >= 4 && sizes.last() > 0 && sizes[sizes.len()
            - 2] == sizes.last() && sizes[sizes.len() - 3] == sizes.last() && sizes[sizes.len() - 4]
            == sizes.last()),
{
    lemma_size_runs(sizes);
    let n = sizes.len() as int;
    if n > 0 {
        lemma_size_runs(sizes.drop_last());
        if n > 1 {
            lemma_size_runs(sizes.take(n - 2));
            assert(sizes.drop_last().drop_last() =~= sizes.take(n - 2));
            if n > 2 {
                lemma_size_runs(sizes.take(n - 3));
                assert(sizes.take(n - 2).drop_last() =~= sizes.take(n - 3));
            }
        }
    }
}

proof fn lemma_size_runs(sizes: Seq<u64>)
    ensures
        sizes.len() > 0 ==> sizes_seen(sizes).previous == sizes.last(),
        sizes_seen(sizes).stable <= 3,
        sizes.len() == 0 ==> sizes_seen(sizes) == (SizeWatch { previous: 0, stable: 0 }),
    decreases sizes.len(),
{
    if sizes.len() > 0 {
        lemma_size_runs(sizes.drop_last());
    }
}

/// Eight looks in a row that find no game close a session.
pub proof fn law_eight_absences_close(start: SessionWatch, looks: Seq<SessionLook>)
    requires
        looks.len() >= 8,
        forall|i: int|
            looks.len() - 8 <= i < looks.len() ==> (#[trigger] looks[i]).running == Some(false),
    ensures
        looked(watched(start, looks.drop_last()), looks.last()).step == SessionStep::Closed,
{
    lemma_absent_at_least(start, looks, 8);
    assert(watched(start, looks).absent >= 8);
}

proof fn lemma_absent_at_least(start: SessionWatch, looks: Seq<SessionLook>, count: int)
    requires
        0 <= count <= 8,
        count <= looks.len(),
        forall|i: int|
            looks.len() - count <= i < looks.len() ==> (#[trigger] looks[i]).running == Some(false),
    ensures
        watched(start, looks).absent >= count,
    decreases count,
{
    if count > 0 {
        let rest = looks.drop_last();
        assert forall|i: int|
            rest.len() - (count - 1) <= i < rest.len() implies (#[trigger] rest[i]).running == Some(
            false,
        ) by {
            assert(rest[i] == looks[i]);
        }
        lemma_absent_at_least(start, rest, count - 1);
        assert(looks[looks.len() - 1].running == Some(false));
    }
}

/// A game that is still there is closed five seconds after its last clip was done, and
/// after 45 minutes in which none was; a game that is not found is never closed for that.
pub proof fn law_games_are_closed_in_time(watch: SessionWatch, look: SessionLook)
    requires
        look.running == Some(true),
    ensures
        watch.finished_at matches Some(at) ==> (looked(watch, look).step
            == SessionStep::CloseFinished <==> look.now_ms - at >= 5_000),
        watch.finished_at is None ==> looked(watch, look).step != SessionStep::CloseFinished,
        watch.finished_at is None && look.done == watch.done ==> (looked(watch, look).step
            == SessionStep::CloseStalled <==> look.now_ms - watch.progress_at >= 2_700_000),
        look.done != watch.done && watch.finished_at is None ==> looked(watch, look).step
            == SessionStep::Continue,
        looked(watch, look).step != SessionStep::Closed,
{
}

/// What a line of the log tells stays: a batch that is finished stays so, a clip that was
/// started is started, and only the line of a clip that is done counts one.
pub proof fn law_lines_add_to_what_is_known(
    state: MarkerModel,
    line: Seq<char>,
    clips: Seq<Seq<char>>,
)
    ensures
        ({
            let read = line_read(state, line, clips);
            &&& read.batch_finished <==> state.batch_finished || has_text(
                line,
                "TF2FRAG_BATCH_FINISHED"@,
            )
            &&& forall|name: Seq<char>|
                state.started_clips.contains(name) ==> #[trigger] read.started_clips.contains(name)
            &&& marked_word(line, "TF2FRAG_RECORD_START "@) matches Some(name)
                ==> read.started_clips.contains(name)
            &&& marked_word(line, "TF2FRAG_RECORD_FINALIZED "@) is None ==> read.finalized_markers
                == state.finalized_markers
            &&& marked_word(line, "TF2FRAG_RECORD_FINALIZED "@) is Some
                && state.finalized_markers < usize::MAX ==> read.finalized_markers
                == state.finalized_markers + 1
            &&& state.events.is_prefix_of(read.events)
        }),
{
    let read = line_read(state, line, clips);
    assert forall|name: Seq<char>| state.started_clips.contains(name) implies
        #[trigger] read.started_clips.contains(name) by {
        let k = choose|k: int| 0 <= k < state.started_clips.len() && state.started_clips[k] == name;
        assert(read.started_clips[k] == name);
    }
    if let Some(name) = marked_word(line, "TF2FRAG_RECORD_START "@) {
        if !state.started_clips.contains(name) {
            assert(read.started_clips[state.started_clips.len() as int] == name);
        }
    }
    assert(state.events =~= read.events.take(state.events.len() as int));
}

} // verus!

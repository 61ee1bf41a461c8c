//! Bookmarks that a player set while recording, and the candidates that they
//! make or mark.
use vstd::prelude::*;
use crate::arrange::{arrange, in_order, law_order_keeps_all, Ranked};
use crate::candidates::{same_context, tags_are_united, tick_tag, POST_ROLL, PRE_ROLL};
use crate::events::int_field;
use crate::models::{primary_from, Candidate, CandidateMetrics, DemoContext, ScoreItem};
use crate::number::{i64_text, int_text, u64_text};
use crate::order::{ascending, insert_text, members, sorted_distinct};
use crate::record::{lookup, text_of, Record, RecordModel};
use crate::sequence::{CAPTURE_DENIAL_TICKS, OBJECTIVE_CONVERSION_TICKS};
use crate::text::{contains_text, has_text, lower, same_text, to_lower, trim, trimmed, views};

verus! {

/// What a bookmark is worth, in hundredths of a point.
pub const BOOKMARK_SCORE: i64 = 3000;

/// A mark at a tick.
#[derive(Debug)]
pub struct Bookmark {
    pub tick: i64,
    pub comment: String,
}

impl Bookmark {
    /// The mark, with its comment as a text.
    pub open spec fn model(&self) -> (i64, Seq<char>) {
        (self.tick, self.comment@)
    }
}

/// The marks that a list holds.
pub open spec fn bookmark_models(list: Seq<Bookmark>) -> Seq<(i64, Seq<char>)> {
    Seq::new(list.len(), |i: int| list[i].model())
}

// ---------------------------------------------------------------------------
// Reading
// ---------------------------------------------------------------------------

/// The first text among four fields; empty where none is a text.
pub open spec fn first_text(
    record: RecordModel,
    a: Seq<char>,
    b: Seq<char>,
    c: Seq<char>,
    d: Seq<char>,
) -> Seq<char> {
    match text_of(lookup(record, a)) {
        Some(text) => text,
        None => match text_of(lookup(record, b)) {
            Some(text) => text,
            None => match text_of(lookup(record, c)) {
                Some(text) => text,
                None => match text_of(lookup(record, d)) {
                    Some(text) => text,
                    None => Seq::empty(),
                },
            },
        },
    }
}

fn find_text(record: &Record, a: &str, b: &str, c: &str, d: &str) -> (out: String)
    ensures
        out@ == first_text(record.model(), a@, b@, c@, d@),
{
    if let Some(text) = record.string(a) {
        return text.clone();
    }
    if let Some(text) = record.string(b) {
        return text.clone();
    }
    if let Some(text) = record.string(c) {
        return text.clone();
    }
    match record.string(d) {
        Some(text) => text.clone(),
        None => String::new(),
    }
}

/// The mark that a record of a list of bookmarks makes, if any.
pub open spec fn listed_mark(record: RecordModel) -> Option<(i64, Seq<char>)> {
    let tick = int_field(record, "tick"@);
    if tick > 0 {
        Some(
            (
                tick as i64,
                first_text(record, "comment"@, "value"@, "title"@, "description"@),
            ),
        )
    } else {
        None
    }
}

/// Whether an event of this kind is a mark.
pub open spec fn marks(kind: Seq<char>) -> bool {
    has_text(kind, "bookmark"@) || kind == "mark"@ || kind == "ds_mark"@
}

/// The mark that a record of a list of events makes, if any.
pub open spec fn event_mark(record: RecordModel) -> Option<(i64, Seq<char>)> {
    let kind = lower(trimmed(first_text(record, "name"@, "type"@, "event"@, "event_type"@)));
    let tick = int_field(record, "tick"@);
    if marks(kind) && tick > 0 {
        Some(
            (
                tick as i64,
                first_text(record, "value"@, "comment"@, "title"@, "description"@),
            ),
        )
    } else {
        None
    }
}

/// The marks of a list of bookmarks.
pub open spec fn listed_marks(list: Seq<Record>) -> Seq<(i64, Seq<char>)>
    decreases list.len(),
{
    if list.len() == 0 {
        Seq::empty()
    } else {
        let before = listed_marks(list.drop_last());
        match listed_mark(list.last().model()) {
            Some(mark) => before.push(mark),
            None => before,
        }
    }
}

/// The marks of a list of events.
pub open spec fn event_marks(list: Seq<Record>) -> Seq<(i64, Seq<char>)>
    decreases list.len(),
{
    if list.len() == 0 {
        Seq::empty()
    } else {
        let before = event_marks(list.drop_last());
        match event_mark(list.last().model()) {
            Some(mark) => before.push(mark),
            None => before,
        }
    }
}

fn tick_of(record: &Record) -> (out: i64)
    ensures
        out == int_field(record.model(), "tick"@),
{
    match record.integer("tick") {
        Some(tick) => tick,
        None => 0,
    }
}

/// The marks of a file: those listed as bookmarks, then those among its events.
pub fn bookmark_entries(bookmarks: &Vec<Record>, events: &Vec<Record>) -> (out: Vec<Bookmark>)
    ensures
        bookmark_models(out@) == listed_marks(bookmarks@) + event_marks(events@),
{
    let mut out: Vec<Bookmark> = Vec::new();
    let mut i: usize = 0;
    assert(bookmark_models(out@) =~= listed_marks(bookmarks@.take(0)));
    while i < bookmarks.len()
        invariant
            i <= bookmarks.len(),
            bookmark_models(out@) == listed_marks(bookmarks@.take(i as int)),
        decreases bookmarks.len() - i,
    {
        proof {
            assert(bookmarks@.take(i + 1).drop_last() =~= bookmarks@.take(i as int));
            assert(bookmarks@.take(i + 1).last() == bookmarks@[i as int]);
        }
        let record = &bookmarks[i];
        let tick: i64 = tick_of(record);
        if tick > 0 {
            let comment = find_text(record, "comment", "value", "title", "description");
            let ghost before = out@;
            out.push(Bookmark { tick, comment });
            assert(bookmark_models(out@) =~= bookmark_models(before).push((tick, comment@)));
        }
        i += 1;
    }
    let ghost listed = bookmark_models(out@);
    proof {
        assert(bookmarks@.take(bookmarks.len() as int) =~= bookmarks@);
        assert(listed + event_marks(events@.take(0)) =~= listed);
    }
    let mut k: usize = 0;
    while k < events.len()
        invariant
            k <= events.len(),
            bookmark_models(out@) == listed + event_marks(events@.take(k as int)),
        decreases events.len() - k,
    {
        proof {
            assert(events@.take(k + 1).drop_last() =~= events@.take(k as int));
            assert(events@.take(k + 1).last() == events@[k as int]);
        }
        let record = &events[k];
        let kind = to_lower(
            trim(find_text(record, "name", "type", "event", "event_type").as_str()).as_str(),
        );
        let tick: i64 = tick_of(record);
        if (contains_text(kind.as_str(), "bookmark") || same_text(kind.as_str(), "mark")
            || same_text(kind.as_str(), "ds_mark")) && tick > 0 {
            let comment = find_text(record, "value", "comment", "title", "description");
            let ghost before = out@;
            out.push(Bookmark { tick, comment });
            proof {
                assert(bookmark_models(out@) =~= bookmark_models(before).push((tick, comment@)));
                assert(listed + event_marks(events@.take(k as int)).push((tick, comment@)) =~= (
                listed + event_marks(events@.take(k as int))).push((tick, comment@)));
            }
        }
        k += 1;
    }
    assert(events@.take(events.len() as int) =~= events@);
    out
}

// ---------------------------------------------------------------------------
// Merging
// ---------------------------------------------------------------------------

/// Whether two marks are reports of one: at one tick, with one comment but for
/// case and the space around it.
pub open spec fn same_mark(a: (i64, Seq<char>), b: (i64, Seq<char>)) -> bool {
    a.0 == b.0 && lower(trimmed(a.1)) == lower(trimmed(b.1))
}

/// Whether a list reports a mark.
pub open spec fn reports(list: Seq<(i64, Seq<char>)>, mark: (i64, Seq<char>)) -> bool {
    exists|i: int| 0 <= i < list.len() && same_mark(#[trigger] list[i], mark)
}

/// The first report of each mark.
pub open spec fn distinct_marks(list: Seq<(i64, Seq<char>)>) -> Seq<(i64, Seq<char>)>
    decreases list.len(),
{
    if list.len() == 0 {
        Seq::empty()
    } else {
        let before = distinct_marks(list.drop_last());
        if reports(before, list.last()) {
            before
        } else {
            before.push(list.last())
        }
    }
}

/// No mark stands twice among distinct ones, and none is lost.
pub proof fn law_distinct_marks(list: Seq<(i64, Seq<char>)>)
    ensures
        forall|i: int, j: int|
            0 <= i < j < distinct_marks(list).len() ==> !same_mark(
                #[trigger] distinct_marks(list)[i],
                #[trigger] distinct_marks(list)[j],
            ),
        forall|i: int| 0 <= i < list.len() ==> reports(distinct_marks(list), #[trigger] list[i]),
    decreases list.len(),
{
    if list.len() > 0 {
        let rest = list.drop_last();
        law_distinct_marks(rest);
        let before = distinct_marks(rest);
        let out = distinct_marks(list);
        assert forall|i: int| 0 <= i < list.len() implies reports(out, #[trigger] list[i]) by {
            if i < rest.len() {
                assert(list[i] == rest[i]);
                assert(reports(before, rest[i]));
                let k = choose|k: int| 0 <= k < before.len() && same_mark(#[trigger] before[k], rest[i]);
                assert(out[k] == before[k]);
            } else if !reports(before, list.last()) {
                assert(same_mark(out[before.len() as int], list[i]));
            }
        }
    }
}

impl Ranked for Bookmark {
    /// By tick.
    open spec fn before(self, other: Self) -> bool {
        self.tick < other.tick
    }

    proof fn before_orders(a: Self, b: Self, c: Self) {
    }

    fn comes_before(&self, other: &Self) -> (r: bool) {
        self.tick < other.tick
    }
}

/// Whether bookmarks are the distinct ones of some marks, by tick.
pub open spec fn merged_from(out: Seq<Bookmark>, marks: Seq<(i64, Seq<char>)>) -> bool {
    exists|kept: Seq<Bookmark>|
        bookmark_models(kept) == distinct_marks(marks) && out == #[trigger] in_order(kept)
}

/// The marks of all files, each once, by tick; where several were told at one
/// tick, in the order in which they were told.
pub fn merge_bookmarks(entries: &Vec<Bookmark>) -> (out: Vec<Bookmark>)
    ensures
        merged_from(out@, bookmark_models(entries@)),
        out.len() <= entries.len(),
{
    let ghost marks = bookmark_models(entries@);
    let mut kept: Vec<Bookmark> = Vec::new();
    let mut i: usize = 0;
    assert(bookmark_models(kept@) =~= distinct_marks(marks.take(0)));
    while i < entries.len()
        invariant
            i <= entries.len(),
            kept.len() <= i,
            marks == bookmark_models(entries@),
            bookmark_models(kept@) == distinct_marks(marks.take(i as int)),
        decreases entries.len() - i,
    {
        proof {
            assert(marks.take(i + 1).drop_last() =~= marks.take(i as int));
            assert(marks.take(i + 1).last() == entries@[i as int].model());
        }
        let entry = &entries[i];
        let plain = to_lower(trim(entry.comment.as_str()).as_str());
        let mut known = false;
        let mut k: usize = 0;
        while k < kept.len()
            invariant
                k <= kept.len(),
                i < entries.len(),
                *entry == entries@[i as int],
                plain@ == lower(trimmed(entry.comment@)),
                known == exists|j: int|
                    0 <= j < k && same_mark(
                        #[trigger] bookmark_models(kept@)[j],
                        entry.model(),
                    ),
            decreases kept.len() - k,
        {
            let other = to_lower(trim(kept[k].comment.as_str()).as_str());
            assert(bookmark_models(kept@)[k as int] == kept@[k as int].model());
            if kept[k].tick == entry.tick && same_text(other.as_str(), plain.as_str()) {
                assert(same_mark(bookmark_models(kept@)[k as int], entry.model()));
                known = true;
            }
            k += 1;
        }
        if !known {
            let ghost before = kept@;
            kept.push(Bookmark { tick: entry.tick, comment: entry.comment.clone() });
            assert(bookmark_models(kept@) =~= bookmark_models(before).push(entry.model()));
        }
        i += 1;
    }
    assert(marks.take(entries.len() as int) =~= marks);
    proof {
        crate::arrange::law_order_keeps_all(kept@);
    }
    arrange(kept)
}

// ---------------------------------------------------------------------------
// Marking candidates
// ---------------------------------------------------------------------------

/// Whether a candidate shows a kill near enough to be marked at a tick.
pub open spec fn in_reach(candidate: Candidate, tick: i64) -> bool {
    &&& candidate.kill_total() > 0
    &&& candidate.attacker_class@ != "bookmark"@
    &&& tick >= candidate.clip_start_tick - OBJECTIVE_CONVERSION_TICKS
    &&& tick <= candidate.clip_end_tick + CAPTURE_DENIAL_TICKS
}

/// How far two ticks are apart.
pub open spec fn apart(a: i64, b: i64) -> int {
    if a < b {
        b - a
    } else {
        a - b
    }
}

/// How far a tick is from the nearest of some kills; far where there are none.
pub open spec fn kill_distance(ticks: Seq<i64>, tick: i64) -> int
    decreases ticks.len(),
{
    if ticks.len() == 0 {
        i64::MAX as int
    } else {
        let before = kill_distance(ticks.drop_last(), tick);
        if apart(ticks.last(), tick) < before {
            apart(ticks.last(), tick)
        } else {
            before
        }
    }
}

/// The candidate that a mark belongs to: of those in reach the one with the
/// nearest kill, and of several the first.
pub open spec fn marked_by(candidates: Seq<Candidate>, tick: i64) -> Option<int>
    decreases candidates.len(),
{
    if candidates.len() == 0 {
        None
    } else {
        let last = candidates.last();
        match marked_by(candidates.drop_last(), tick) {
            None => if in_reach(last, tick) {
                Some(candidates.len() - 1)
            } else {
                None
            },
            Some(best) => if in_reach(last, tick) && kill_distance(
                last.point_of_kill_ticks@,
                tick,
            ) < kill_distance(candidates[best].point_of_kill_ticks@, tick) {
                Some(candidates.len() - 1)
            } else {
                Some(best)
            },
        }
    }
}

/// A mark goes to a candidate in reach of it, and none in reach shows a nearer
/// kill.
pub proof fn law_marked_is_nearest(candidates: Seq<Candidate>, tick: i64)
    ensures
        match marked_by(candidates, tick) {
            Some(best) => 0 <= best < candidates.len() && in_reach(candidates[best], tick)
                && forall|i: int|
                0 <= i < candidates.len() && in_reach(#[trigger] candidates[i], tick)
                    ==> kill_distance(candidates[best].point_of_kill_ticks@, tick)
                    <= kill_distance(candidates[i].point_of_kill_ticks@, tick),
            None => forall|i: int|
                0 <= i < candidates.len() ==> !in_reach(#[trigger] candidates[i], tick),
        },
    decreases candidates.len(),
{
    if candidates.len() > 0 {
        law_marked_is_nearest(candidates.drop_last(), tick);
        assert(forall|i: int|
            0 <= i < candidates.len() - 1 ==> #[trigger] candidates[i]
                == candidates.drop_last()[i]);
    }
}

fn nearest_kill(ticks: &Vec<i64>, tick: i64) -> (out: i128)
    ensures
        out == kill_distance(ticks@, tick),
{
    let mut best: i128 = i64::MAX as i128;
    let mut i: usize = 0;
    while i < ticks.len()
        invariant
            i <= ticks.len(),
            best == kill_distance(ticks@.take(i as int), tick),
        decreases ticks.len() - i,
    {
        proof {
            assert(ticks@.take(i + 1).drop_last() =~= ticks@.take(i as int));
            assert(ticks@.take(i + 1).last() == ticks@[i as int]);
        }
        let kill: i64 = ticks[i];
        let distance: i128 = if kill < tick {
            tick as i128 - kill as i128
        } else {
            kill as i128 - tick as i128
        };
        if distance < best {
            best = distance;
        }
        i += 1;
    }
    assert(ticks@.take(ticks.len() as int) =~= ticks@);
    best
}

fn find_marked(candidates: &Vec<Candidate>, tick: i64) -> (out: Option<usize>)
    ensures
        match out {
            Some(i) => i < candidates.len() && marked_by(candidates@, tick) == Some(i as int),
            None => marked_by(candidates@, tick) is None,
        },
{
    let mut best: Option<usize> = None;
    let mut best_distance: i128 = 0;
    let mut i: usize = 0;
    while i < candidates.len()
        invariant
            i <= candidates.len(),
            match best {
                Some(k) => k < i && marked_by(candidates@.take(i as int), tick) == Some(k as int)
                    && best_distance == kill_distance(
                    candidates@[k as int].point_of_kill_ticks@,
                    tick,
                ),
                None => marked_by(candidates@.take(i as int), tick) is None,
            },
        decreases candidates.len() - i,
    {
        let candidate = &candidates[i];
        proof {
            let next = candidates@.take(i + 1);
            assert(next.drop_last() =~= candidates@.take(i as int));
            assert(next.last() == candidates@[i as int]);
            if best is Some {
                assert(next[best->0 as int] == candidates@[best->0 as int]);
            }
        }
        if candidate.kill_count() > 0 && !same_text(candidate.attacker_class.as_str(), "bookmark")
            && tick as i128 >= candidate.clip_start_tick as i128
            - OBJECTIVE_CONVERSION_TICKS as i128 && tick as i128 <= candidate.clip_end_tick as i128
            + CAPTURE_DENIAL_TICKS as i128 {
            let distance: i128 = nearest_kill(&candidate.point_of_kill_ticks, tick);
            if best.is_none() || distance < best_distance {
                best = Some(i);
                best_distance = distance;
            }
        }
        i += 1;
    }
    assert(candidates@.take(candidates.len() as int) =~= candidates@);
    best
}

/// A measure, or zero where there is none.
pub open spec fn count_or_zero(count: Option<u64>) -> u64 {
    match count {
        Some(count) => count,
        None => 0,
    }
}

/// A score, or zero where there is none.
pub open spec fn score_or_zero(score: Option<i64>) -> i64 {
    match score {
        Some(score) => score,
        None => 0,
    }
}

/// Whether a candidate can take a number of marks before its numbers run out.
pub open spec fn room_for(candidate: Candidate, marks: int) -> bool {
    &&& candidate.overall_score + marks * BOOKMARK_SCORE <= i64::MAX
    &&& count_or_zero(candidate.metrics.bookmarks) + marks <= u64::MAX
    &&& score_or_zero(candidate.metrics.bookmark_score) + marks * BOOKMARK_SCORE <= i64::MAX
}

/// Whether an item is the one for a mark.
pub open spec fn mark_item(item: ScoreItem, tick: i64) -> bool {
    &&& item.reason is Some
    &&& item.reason->0@ == "bookmark"@
    &&& item.points == Some(BOOKMARK_SCORE)
    &&& item.event_tick == Some(tick)
    &&& item.count is None
}

/// What a mark makes of a candidate: it scores more, carries the tag and the
/// comment, and all else about it stays.
pub open spec fn marked(before: Candidate, after: Candidate, tick: i64, comment: Seq<char>) -> bool {
    &&& after.overall_score == before.overall_score + BOOKMARK_SCORE
    &&& ascending(views(after.tags@))
    &&& members(after.tags@) == members(before.tags@).insert("bookmark"@)
    &&& ascending(views(after.sequence_tags@))
    &&& members(after.sequence_tags@) == members(before.sequence_tags@).insert("bookmark"@)
    &&& after.bookmark_comment@ == comment
    &&& after.bookmark_tick == Some(tick)
    &&& after.metrics == (CandidateMetrics {
        bookmarks: Some((count_or_zero(before.metrics.bookmarks) + 1) as u64),
        bookmark_score: Some(
            (score_or_zero(before.metrics.bookmark_score) + BOOKMARK_SCORE) as i64,
        ),
        ..before.metrics
    })
    &&& after.score_breakdown.len() == before.score_breakdown.len() + 1
    &&& after.score_breakdown@.drop_last() == before.score_breakdown@
    &&& mark_item(after.score_breakdown@.last(), tick)
    &&& after.primary_tag@ == primary_from(
        before.tick_tags@,
        Seq::empty(),
        views(after.tags@),
        views(after.sequence_tags@),
        after.score_breakdown@,
    )
    &&& after.candidate_id == before.candidate_id
    &&& after.source_demo == before.source_demo
    &&& after.map_name == before.map_name
    &&& after.round_index == before.round_index
    &&& after.attacker_user_id == before.attacker_user_id
    &&& after.attacker_class == before.attacker_class
    &&& after.attacker_team == before.attacker_team
    &&& after.attacker_name == before.attacker_name
    &&& after.clip_start_tick == before.clip_start_tick
    &&& after.clip_end_tick == before.clip_end_tick
    &&& after.point_of_kill_ticks == before.point_of_kill_ticks
    &&& after.tick_tags == before.tick_tags
    &&& after.kills == before.kills
    &&& after.demo_context == before.demo_context
}

/// Marks a candidate.
pub fn add_bookmark_to_candidate(candidate: &mut Candidate, tick: i64, comment: String)
    requires
        room_for(*old(candidate), 1),
    ensures
        marked(*old(candidate), *final(candidate), tick, comment@),
{
    let previous_count: u64 = match candidate.metrics.bookmarks {
        Some(count) => count,
        None => 0,
    };
    let previous_score: i64 = match candidate.metrics.bookmark_score {
        Some(score) => score,
        None => 0,
    };
    let mut tags = sorted_distinct(&candidate.tags);
    insert_text(&mut tags, "bookmark");
    let mut sequence_tags = sorted_distinct(&candidate.sequence_tags);
    insert_text(&mut sequence_tags, "bookmark");
    let item = ScoreItem {
        reason: Some("bookmark".to_owned()),
        points: Some(BOOKMARK_SCORE),
        event_tick: Some(tick),
        count: None,
    };
    candidate.overall_score = candidate.overall_score + BOOKMARK_SCORE;
    candidate.tags = tags;
    candidate.sequence_tags = sequence_tags;
    candidate.bookmark_comment = comment;
    candidate.bookmark_tick = Some(tick);
    candidate.metrics.bookmarks = Some(previous_count + 1);
    candidate.metrics.bookmark_score = Some(previous_score + BOOKMARK_SCORE);
    candidate.score_breakdown.push(item);
    candidate.primary_tag = String::new();
    assert(candidate.primary_tag@ =~= Seq::empty());
    assert(candidate.score_breakdown@.drop_last() =~= old(candidate).score_breakdown@);
    let tag = candidate.inferred_primary_tag();
    candidate.primary_tag = tag;
}

/// Whether a candidate stands for a mark alone, before the mark is set.
pub open spec fn bare_mark(
    candidate: Candidate,
    tick: i64,
    index: int,
    source_demo: Seq<char>,
    context: DemoContext,
) -> bool {
    &&& candidate.candidate_id@ == "bookmark-"@ + int_text(tick as int) + "-"@ + int_text(index)
    &&& candidate.source_demo@ == source_demo
    &&& candidate.map_name@ == Seq::<char>::empty()
    &&& candidate.round_index == 0
    &&& candidate.overall_score == 0
    &&& candidate.attacker_user_id == 0
    &&& candidate.attacker_class@ == "bookmark"@
    &&& candidate.attacker_team@ == Seq::<char>::empty()
    &&& candidate.attacker_name is None
    &&& candidate.clip_start_tick == (if tick > PRE_ROLL {
        tick - PRE_ROLL
    } else {
        0
    })
    &&& candidate.clip_end_tick == tick + POST_ROLL
    &&& candidate.point_of_kill_ticks@ == seq![tick]
    &&& candidate.tags@ == Seq::<String>::empty()
    &&& candidate.tick_tags@.len() == 0
    &&& candidate.sequence_tags@ == Seq::<String>::empty()
    &&& candidate.metrics == (CandidateMetrics {
        kills: Some(0),
        bookmarks: None,
        bookmark_score: None,
        duration_seconds: None,
    })
    &&& candidate.kills@.len() == 0
    &&& candidate.score_breakdown@.len() == 0
    &&& same_context(candidate.demo_context, context)
}

/// What one mark makes of candidates: it marks the one that it belongs to, or
/// adds one of its own.
pub open spec fn mark_step(
    before: Seq<Candidate>,
    after: Seq<Candidate>,
    mark: Bookmark,
    index: int,
    source_demo: Seq<char>,
    context: DemoContext,
) -> bool {
    match marked_by(before, mark.tick) {
        Some(best) => {
            &&& after.len() == before.len()
            &&& marked(before[best], after[best], mark.tick, mark.comment@)
            &&& forall|i: int| 0 <= i < before.len() && i != best ==> #[trigger] after[i] == before[i]
        },
        None => {
            &&& after.len() == before.len() + 1
            &&& forall|i: int| 0 <= i < before.len() ==> #[trigger] after[i] == before[i]
            &&& exists|bare: Candidate| #[trigger]
                bare_mark(bare, mark.tick, index, source_demo, context) && marked(
                    bare,
                    after.last(),
                    mark.tick,
                    mark.comment@,
                )
        },
    }
}

/// What marks make of candidates, one after another.
pub open spec fn marked_with(
    before: Seq<Candidate>,
    after: Seq<Candidate>,
    marks: Seq<Bookmark>,
    source_demo: Seq<char>,
    context: DemoContext,
) -> bool
    decreases marks.len(),
{
    if marks.len() == 0 {
        after == before
    } else {
        exists|middle: Seq<Candidate>|
            marked_with(before, middle, marks.drop_last(), source_demo, context)
                && #[trigger] mark_step(
                middle,
                after,
                marks.last(),
                marks.len() - 1,
                source_demo,
                context,
            )
    }
}

/// Marks take nothing away: every candidate stays where it was, under its name
/// and with its kills, and scores no less.
pub proof fn law_marks_keep_candidates(
    before: Seq<Candidate>,
    after: Seq<Candidate>,
    marks: Seq<Bookmark>,
    source_demo: Seq<char>,
    context: DemoContext,
)
    requires
        marked_with(before, after, marks, source_demo, context),
    ensures
        before.len() <= after.len() <= before.len() + marks.len(),
        forall|i: int|
            0 <= i < before.len() ==> (#[trigger] after[i]).candidate_id == before[i].candidate_id
                && after[i].kills == before[i].kills && after[i].overall_score
                >= before[i].overall_score,
    decreases marks.len(),
{
    if marks.len() > 0 {
        let middle = choose|middle: Seq<Candidate>|
            marked_with(before, middle, marks.drop_last(), source_demo, context)
                && #[trigger] mark_step(
                middle,
                after,
                marks.last(),
                marks.len() - 1,
                source_demo,
                context,
            );
        law_marks_keep_candidates(before, middle, marks.drop_last(), source_demo, context);
        law_marked_is_nearest(middle, marks.last().tick);
        assert forall|i: int| 0 <= i < before.len() implies (#[trigger] after[i]).candidate_id
            == before[i].candidate_id && after[i].kills == before[i].kills
            && after[i].overall_score >= before[i].overall_score by {
            assert(middle[i].candidate_id == before[i].candidate_id);
        }
    }
}

proof fn lemma_marked_stays_united(before: Candidate, after: Candidate, tick: i64, comment: Seq<char>)
    requires
        marked(before, after, tick, comment),
        tags_are_united(before),
    ensures
        tags_are_united(after),
{
    assert forall|tag: Seq<char>| #[trigger]
        members(after.tags@).contains(tag) <==> tick_tag(after.tick_tags@, tag) || members(
            after.sequence_tags@,
        ).contains(tag) by {
        assert(members(before.tags@).contains(tag) <==> tick_tag(before.tick_tags@, tag) || members(
            before.sequence_tags@,
        ).contains(tag));
    }
}

/// Marks keep the tags of candidates together: those of the ticks and those of the
/// sequence make up all of them, before and after.
pub proof fn law_marks_keep_tags_united(
    before: Seq<Candidate>,
    after: Seq<Candidate>,
    marks: Seq<Bookmark>,
    source_demo: Seq<char>,
    context: DemoContext,
)
    requires
        marked_with(before, after, marks, source_demo, context),
        forall|i: int| 0 <= i < before.len() ==> tags_are_united(#[trigger] before[i]),
    ensures
        forall|i: int| 0 <= i < after.len() ==> tags_are_united(#[trigger] after[i]),
    decreases marks.len(),
{
    if marks.len() > 0 {
        let mark = marks.last();
        let middle = choose|middle: Seq<Candidate>|
            marked_with(before, middle, marks.drop_last(), source_demo, context)
                && #[trigger] mark_step(
                middle,
                after,
                mark,
                marks.len() - 1,
                source_demo,
                context,
            );
        law_marks_keep_tags_united(before, middle, marks.drop_last(), source_demo, context);
        law_marked_is_nearest(middle, mark.tick);
        match marked_by(middle, mark.tick) {
            Some(best) => {
                lemma_marked_stays_united(middle[best], after[best], mark.tick, mark.comment@);
                assert forall|i: int| 0 <= i < after.len() implies tags_are_united(
                    #[trigger] after[i],
                ) by {
                    if i != best {
                        assert(after[i] == middle[i]);
                    }
                }
            },
            None => {
                let bare = choose|bare: Candidate| #[trigger]
                    bare_mark(bare, mark.tick, marks.len() - 1, source_demo, context) && marked(
                        bare,
                        after.last(),
                        mark.tick,
                        mark.comment@,
                    );
                assert(tags_are_united(bare));
                lemma_marked_stays_united(bare, after.last(), mark.tick, mark.comment@);
                assert forall|i: int| 0 <= i < after.len() implies tags_are_united(
                    #[trigger] after[i],
                ) by {
                    if i < middle.len() {
                        assert(after[i] == middle[i]);
                    } else {
                        assert(after[i] == after.last());
                    }
                }
            },
        }
    }
}

/// Whether a candidate carries a mark.
pub open spec fn carries(candidate: Candidate, tick: i64) -> bool {
    exists|k: int|
        0 <= k < candidate.score_breakdown.len() && mark_item(
            #[trigger] candidate.score_breakdown@[k],
            tick,
        )
}

/// Whether one of some candidates carries a mark.
pub open spec fn is_carried(candidates: Seq<Candidate>, tick: i64) -> bool {
    exists|j: int| 0 <= j < candidates.len() && carries(#[trigger] candidates[j], tick)
}

proof fn lemma_marked_carries(before: Candidate, after: Candidate, tick: i64, comment: Seq<char>)
    requires
        marked(before, after, tick, comment),
    ensures
        carries(after, tick),
        forall|other: i64| carries(before, other) ==> #[trigger] carries(after, other),
{
    let items = after.score_breakdown@;
    assert(mark_item(items[items.len() - 1], tick));
    assert forall|other: i64| carries(before, other) implies #[trigger] carries(after, other) by {
        let k = choose|k: int|
            0 <= k < before.score_breakdown.len() && mark_item(
                #[trigger] before.score_breakdown@[k],
                other,
            );
        assert(items.drop_last()[k] == items[k]);
        assert(mark_item(items[k], other));
    }
}

/// Every mark ends on a candidate: on one that was there, or on one of its own.
pub proof fn law_every_mark_is_carried(
    before: Seq<Candidate>,
    after: Seq<Candidate>,
    marks: Seq<Bookmark>,
    source_demo: Seq<char>,
    context: DemoContext,
)
    requires
        marked_with(before, after, marks, source_demo, context),
    ensures
        forall|i: int| 0 <= i < marks.len() ==> is_carried(after, (#[trigger] marks[i]).tick),
    decreases marks.len(),
{
    if marks.len() > 0 {
        let rest = marks.drop_last();
        let mark = marks.last();
        let middle = choose|middle: Seq<Candidate>|
            marked_with(before, middle, rest, source_demo, context) && #[trigger] mark_step(
                middle,
                after,
                mark,
                marks.len() - 1,
                source_demo,
                context,
            );
        law_every_mark_is_carried(before, middle, rest, source_demo, context);
        law_marked_is_nearest(middle, mark.tick);
        let at = match marked_by(middle, mark.tick) {
            Some(best) => best,
            None => after.len() - 1,
        };
        match marked_by(middle, mark.tick) {
            Some(best) => {
                lemma_marked_carries(middle[best], after[best], mark.tick, mark.comment@);
            },
            None => {
                let bare = choose|bare: Candidate| #[trigger]
                    bare_mark(bare, mark.tick, marks.len() - 1, source_demo, context) && marked(
                        bare,
                        after.last(),
                        mark.tick,
                        mark.comment@,
                    );
                lemma_marked_carries(bare, after.last(), mark.tick, mark.comment@);
            },
        }
        assert(carries(after[at], mark.tick));
        assert forall|i: int| 0 <= i < marks.len() implies is_carried(
            after,
            (#[trigger] marks[i]).tick,
        ) by {
            if i < rest.len() {
                assert(rest[i] == marks[i]);
                assert(is_carried(middle, rest[i].tick));
                let j = choose|j: int|
                    0 <= j < middle.len() && carries(#[trigger] middle[j], marks[i].tick);
                if after[j] != middle[j] {
                    assert(j == at);
                }
                assert(carries(after[j], marks[i].tick));
            } else {
                assert(is_carried(after, mark.tick));
            }
        }
    }
}

fn bare_candidate(
    tick: i64,
    index: usize,
    source_demo: &str,
    context: &DemoContext,
) -> (out: Candidate)
    requires
        0 < tick <= i64::MAX - POST_ROLL,
    ensures
        bare_mark(out, tick, index as int, source_demo@, *context),
{
    let mut id = "bookmark-".to_owned();
    id.append(i64_text(tick).as_str());
    id.append("-");
    id.append(u64_text(index as u64).as_str());
    let mut ticks: Vec<i64> = Vec::new();
    ticks.push(tick);
    let mut candidate = Candidate::default();
    candidate.candidate_id = id;
    candidate.source_demo = source_demo.to_owned();
    candidate.attacker_class = "bookmark".to_owned();
    candidate.clip_start_tick = if tick > PRE_ROLL {
        tick - PRE_ROLL
    } else {
        0
    };
    candidate.clip_end_tick = tick + POST_ROLL;
    candidate.point_of_kill_ticks = ticks;
    candidate.metrics.kills = Some(0);
    candidate.demo_context = context.clone();
    assert(candidate.point_of_kill_ticks@ =~= seq![tick]);
    candidate
}

/// Whether every candidate can take a number of marks.
pub open spec fn all_room(candidates: Seq<Candidate>, marks: int) -> bool {
    forall|i: int| 0 <= i < candidates.len() ==> room_for(#[trigger] candidates[i], marks)
}

/// Marks candidates, and adds one for each mark that belongs to none.
pub fn append_bookmarks(
    candidates: &mut Vec<Candidate>,
    marks: &Vec<Bookmark>,
    source_demo: &str,
    context: &DemoContext,
)
    requires
        marks.len() <= 0xffff_ffff,
        all_room(old(candidates)@, marks.len() as int),
        forall|i: int|
            0 <= i < marks.len() ==> 0 < (#[trigger] marks@[i]).tick <= i64::MAX - POST_ROLL,
    ensures
        marked_with(old(candidates)@, final(candidates)@, marks@, source_demo@, *context),
{
    let ghost start = candidates@;
    let mut i: usize = 0;
    assert(marks@.take(0).len() == 0);
    while i < marks.len()
        invariant
            i <= marks.len() <= 0xffff_ffff,
            all_room(candidates@, marks.len() - i),
            forall|i: int|
                0 <= i < marks.len() ==> 0 < (#[trigger] marks@[i]).tick <= i64::MAX - POST_ROLL,
            marked_with(start, candidates@, marks@.take(i as int), source_demo@, *context),
        decreases marks.len() - i,
    {
        let tick: i64 = marks[i].tick;
        let ghost middle = candidates@;
        proof {
            assert(marks@.take(i + 1).drop_last() =~= marks@.take(i as int));
            assert(marks@.take(i + 1).last() == marks@[i as int]);
            law_marked_is_nearest(middle, tick);
        }
        match find_marked(candidates, tick) {
            Some(best) => {
                assert(room_for(middle[best as int], marks.len() - i));
                add_bookmark_to_candidate(
                    &mut candidates[best],
                    tick,
                    marks[i].comment.clone(),
                );
                assert(forall|k: int|
                    0 <= k < middle.len() && k != best ==> #[trigger] candidates@[k] == middle[k]);
            },
            None => {
                let mut bare = bare_candidate(tick, i, source_demo, context);
                let ghost was = bare;
                add_bookmark_to_candidate(&mut bare, tick, marks[i].comment.clone());
                candidates.push(bare);
                assert(bare_mark(was, tick, i as int, source_demo@, *context));
            },
        }
        assert(mark_step(middle, candidates@, marks@[i as int], i as int, source_demo@, *context));
        assert(all_room(candidates@, marks.len() - i - 1)) by {
            assert forall|k: int| 0 <= k < candidates@.len() implies room_for(
                #[trigger] candidates@[k],
                marks.len() - i - 1,
            ) by {
                if k < middle.len() {
                    assert(room_for(middle[k], marks.len() - i));
                }
            }
        }
        i += 1;
    }
    assert(marks@.take(marks.len() as int) =~= marks@);
}

// ---------------------------------------------------------------------------
// Ranking
// ---------------------------------------------------------------------------

impl Ranked for Candidate {
    /// By score, the highest first, and then by the start of the clip.
    open spec fn before(self, other: Self) -> bool {
        self.overall_score > other.overall_score || (self.overall_score == other.overall_score
            && self.clip_start_tick < other.clip_start_tick)
    }

    proof fn before_orders(a: Self, b: Self, c: Self) {
    }

    fn comes_before(&self, other: &Self) -> (r: bool) {
        self.overall_score > other.overall_score || (self.overall_score == other.overall_score
            && self.clip_start_tick < other.clip_start_tick)
    }
}

/// Whether a candidate is worth showing: a marked one, one of several kills, or a
/// single kill with a high score.
pub open spec fn worth_showing(candidate: Candidate) -> bool {
    candidate.bookmark_tick is Some || candidate.kill_total() != 1 || candidate.overall_score
        >= 2500
}

/// The candidates worth showing.
pub open spec fn shown(candidates: Seq<Candidate>) -> Seq<Candidate>
    decreases candidates.len(),
{
    if candidates.len() == 0 {
        Seq::empty()
    } else if worth_showing(candidates[0]) {
        seq![candidates[0]] + shown(candidates.skip(1))
    } else {
        shown(candidates.skip(1))
    }
}

proof fn lemma_shown(candidates: Seq<Candidate>)
    ensures
        forall|c: Candidate| #[trigger] shown(candidates).contains(c) <==> candidates.contains(c)
            && worth_showing(c),
    decreases candidates.len(),
{
    if candidates.len() > 0 {
        let rest = candidates.skip(1);
        lemma_shown(rest);
        assert forall|c: Candidate| #[trigger] shown(candidates).contains(c) <==> candidates.contains(
            c,
        ) && worth_showing(c) by {
            let out = shown(candidates);
            if candidates.contains(c) && worth_showing(c) {
                let k = choose|k: int| 0 <= k < candidates.len() && candidates[k] == c;
                if k > 0 {
                    assert(rest[k - 1] == c);
                    assert(rest.contains(c));
                    assert(shown(rest).contains(c));
                    let n = choose|n: int| 0 <= n < shown(rest).len() && shown(rest)[n] == c;
                    if worth_showing(candidates[0]) {
                        assert(out[n + 1] == c);
                    } else {
                        assert(out[n] == c);
                    }
                } else {
                    assert(out[0] == c);
                }
            }
            if out.contains(c) {
                let k = choose|k: int| 0 <= k < out.len() && out[k] == c;
                if worth_showing(candidates[0]) && k == 0 {
                    assert(candidates[0] == c);
                } else {
                    let n = if worth_showing(candidates[0]) {
                        k - 1
                    } else {
                        k
                    };
                    assert(shown(rest)[n] == c);
                    assert(shown(rest).contains(c));
                    let m = choose|m: int| 0 <= m < rest.len() && rest[m] == c;
                    assert(candidates[m + 1] == c);
                }
            }
        }
    }
}

/// The ranking holds exactly the candidates worth showing, none with a higher score
/// behind one with a lower; a candidate with a mark is always among them.
pub proof fn law_best_come_first(candidates: Seq<Candidate>)
    ensures
        forall|i: int, j: int|
            0 <= i < j < in_order(shown(candidates)).len() ==> (#[trigger] in_order(
                shown(candidates),
            )[i]).overall_score >= (#[trigger] in_order(shown(candidates))[j]).overall_score,
        forall|c: Candidate| #[trigger]
            in_order(shown(candidates)).contains(c) <==> candidates.contains(c) && worth_showing(c),
        forall|c: Candidate|
            candidates.contains(c) && c.bookmark_tick is Some ==> #[trigger] in_order(
                shown(candidates),
            ).contains(c),
{
    let kept = shown(candidates);
    let out = in_order(kept);
    law_order_keeps_all(kept);
    lemma_shown(candidates);
    assert forall|c: Candidate| #[trigger] out.contains(c) <==> candidates.contains(c)
        && worth_showing(c) by {
        out.to_multiset_ensures();
        kept.to_multiset_ensures();
        assert(out.contains(c) <==> out.to_multiset().count(c) > 0);
        assert(kept.contains(c) <==> kept.to_multiset().count(c) > 0);
    }
    assert forall|i: int, j: int| 0 <= i < j < out.len() implies (#[trigger] out[i]).overall_score
        >= (#[trigger] out[j]).overall_score by {
        assert(!out[j].before(out[i]));
    }
}

/// The candidates worth showing, the best first.
pub fn rank_candidates(candidates: Vec<Candidate>) -> (out: Vec<Candidate>)
    ensures
        out@ == in_order(shown(candidates@)),
{
    let mut left = candidates;
    let ghost all = left@;
    let mut kept: Vec<Candidate> = Vec::new();
    assert(all.take(all.len() as int) =~= all);
    assert(kept@.reverse() =~= shown(all.skip(all.len() as int)));
    while left.len() > 0
        invariant
            left.len() <= all.len(),
            left@ == all.take(left.len() as int),
            kept@.reverse() == shown(all.skip(left.len() as int)),
        decreases left.len(),
    {
        let ghost n = left.len() as int;
        let next = left.pop();
        proof {
            assert(all.skip(n - 1)[0] == all[n - 1]);
            assert(all.skip(n - 1).skip(1) =~= all.skip(n));
            assert(left@ =~= all.take(n - 1));
        }
        if let Some(candidate) = next {
            if candidate.bookmark_tick.is_some() || candidate.kill_count() != 1
                || candidate.overall_score >= 2500 {
                let ghost before = kept@;
                kept.push(candidate);
                assert(kept@.reverse() =~= seq![candidate] + before.reverse());
            }
        }
    }
    assert(all.skip(0) =~= all);
    arrange(crate::arrange::reversed(kept))
}

proof fn lemma_kill_distance(ticks: Seq<i64>, tick: i64)
    ensures
        forall|i: int|
            0 <= i < ticks.len() ==> kill_distance(ticks, tick) <= apart(#[trigger] ticks[i], tick),
        kill_distance(ticks, tick) == i64::MAX || exists|i: int|
            0 <= i < ticks.len() && kill_distance(ticks, tick) == apart(#[trigger] ticks[i], tick),
        kill_distance(ticks, tick) <= i64::MAX,
    decreases ticks.len(),
{
    if ticks.len() > 0 {
        let rest = ticks.drop_last();
        let last = ticks.len() - 1;
        lemma_kill_distance(rest, tick);
        assert forall|i: int| 0 <= i < last implies #[trigger] ticks[i] == rest[i] by {
        }
        if kill_distance(ticks, tick) == kill_distance(rest, tick) {
            if exists|i: int|
                0 <= i < rest.len() && kill_distance(rest, tick) == apart(#[trigger] rest[i], tick) {
                let i = choose|i: int|
                    0 <= i < rest.len() && kill_distance(rest, tick) == apart(
                        #[trigger] rest[i],
                        tick,
                    );
                assert(ticks[i] == rest[i]);
            }
        } else {
            assert(ticks[last] == ticks.last());
        }
    }
}

/// A mark goes to a candidate that has kills, and whose clip it comes at most eight
/// seconds before or two seconds after; no other such candidate has a kill that is nearer.
/// Where there is none, it goes to nobody.
pub proof fn law_marks_find_the_nearest_kill(candidates: Seq<Candidate>, tick: i64, i: int, k: int)
    requires
        0 <= i < candidates.len(),
        candidates[i].kill_total() > 0,
        candidates[i].attacker_class@ != "bookmark"@,
        candidates[i].clip_start_tick - 533 <= tick <= candidates[i].clip_end_tick + 133,
        0 <= k < candidates[i].point_of_kill_ticks.len(),
    ensures
        marked_by(candidates, tick) matches Some(best) && ({
            let found = candidates[best];
            &&& 0 <= best < candidates.len()
            &&& found.kill_total() > 0
            &&& found.attacker_class@ != "bookmark"@
            &&& found.clip_start_tick - 533 <= tick <= found.clip_end_tick + 133
            &&& -i64::MAX < tick - candidates[i].point_of_kill_ticks@[k] < i64::MAX ==> exists|n: int|
                0 <= n < found.point_of_kill_ticks.len() && apart(
                    #[trigger] found.point_of_kill_ticks@[n],
                    tick,
                ) <= apart(candidates[i].point_of_kill_ticks@[k], tick)
        }),
{
    law_marked_is_nearest(candidates, tick);
    assert(in_reach(candidates[i], tick));
    let best = marked_by(candidates, tick)->0;
    lemma_kill_distance(candidates[i].point_of_kill_ticks@, tick);
    lemma_kill_distance(candidates[best].point_of_kill_ticks@, tick);
}

/// A mark is worth thirty points to its candidate, which carries its tag, its comment and
/// its tick; the kills and the clip stay as they are.
pub proof fn law_marks_are_worth_thirty_points(
    before: Candidate,
    after: Candidate,
    tick: i64,
    comment: Seq<char>,
)
    requires
        marked(before, after, tick, comment),
    ensures
        after.overall_score == before.overall_score + 3000,
        members(after.tags@).contains("bookmark"@),
        members(before.tags@).subset_of(members(after.tags@)),
        after.bookmark_comment@ == comment,
        after.bookmark_tick == Some(tick),
        after.clip_start_tick == before.clip_start_tick,
        after.clip_end_tick == before.clip_end_tick,
        after.point_of_kill_ticks@ == before.point_of_kill_ticks@,
        after.kills@ == before.kills@,
{
}

/// A mark that belongs to no candidate makes one of its own, from five seconds before it,
/// or from the start of the demo, to three seconds after it.
pub proof fn law_lone_marks_have_their_clip(
    candidate: Candidate,
    tick: i64,
    index: int,
    source_demo: Seq<char>,
    context: DemoContext,
)
    requires
        bare_mark(candidate, tick, index, source_demo, context),
        tick > 0,
    ensures
        candidate.clip_start_tick == tick - 333 || candidate.clip_start_tick == 0 && tick <= 333,
        candidate.clip_end_tick == tick + 200,
        candidate.point_of_kill_ticks@ == seq![tick],
        candidate.kills.len() == 0,
        candidate.attacker_class@ == "bookmark"@,
{
}

/// A candidate with one kill and less than 25 points is not shown unless it has a mark;
/// every other one is.
pub proof fn law_weak_single_kills_are_hidden(candidates: Seq<Candidate>, candidate: Candidate)
    requires
        candidates.contains(candidate),
    ensures
        in_order(shown(candidates)).contains(candidate) <==> candidate.bookmark_tick is Some
            || candidate.kill_total() != 1 || candidate.overall_score >= 2500,
{
    law_best_come_first(candidates);
    let out = in_order(shown(candidates));
    assert(out.contains(candidate) <==> candidates.contains(candidate) && worth_showing(candidate));
}

/// An event is a mark where its kind, in lower case and without spaces around it, is "mark"
/// or "ds_mark" or holds "bookmark", and it has a tick.
pub proof fn law_marks_are_read(record: RecordModel)
    ensures
        ({
            let kind = lower(
                trimmed(first_text(record, "name"@, "type"@, "event"@, "event_type"@)),
            );
            let tick = int_field(record, "tick"@);
            &&& event_mark(record) is Some <==> tick > 0 && (kind == "mark"@ || kind == "ds_mark"@
                || has_text(kind, "bookmark"@))
            &&& event_mark(record) matches Some(mark) ==> mark.0 as int == tick
            &&& listed_mark(record) is Some <==> tick > 0
            &&& listed_mark(record) matches Some(mark) ==> mark.0 as int == tick
        }),
{
}

} // verus!

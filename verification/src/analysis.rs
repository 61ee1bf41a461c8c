//! The analysis of a demo as a whole: from what the parser exported to the ranked
//! candidates.
use vstd::prelude::*;
use crate::arrange::in_order;
use crate::bookmarks::{
    all_room, append_bookmarks, count_or_zero, marked_with, rank_candidates, room_for,
    score_or_zero, shown, Bookmark, BOOKMARK_SCORE,
};
use crate::candidates::{
    build_candidates, candidates_of, evidenced, in_rounds, sequences, ticks_fit, SequenceEvidence,
    POST_ROLL, PRE_ROLL,
};
use crate::capture::{capture_context, context_of, told_capture, CaptureNote, RosterPlayer};
use crate::deaths::{all_told, counting_kills, normalized_deaths, Death, ItemInfo};
use crate::events::{unicode_lower, EventRecord};
use crate::evidence::{
    attach_event_evidence, attach_state, charged_in, deploys_in, gather_signals, hurts_in,
    list_losses, losses_of, signalled, snapshot_at, stated, Loss, MatchSignals,
};
use crate::followups::{
    building_models, buildings_of, normalized_buildings, normalized_objectives, objective_models,
    objectives_of,
};
use crate::models::{Candidate, DemoContext};
use crate::modes::ModeVerdict;
use crate::rounds::{build_rounds, round_models, rounds_of, ticks_leave_room, Round};
use crate::sequence::{BuildingEvent, ObjectiveEvent};
use crate::tracking::{snapshot_models, StateScan};

verus! {

// ---------------------------------------------------------------------------
// Which kills count
// ---------------------------------------------------------------------------

/// The kills of a demo that count, with the rounds and the way it was recorded.
#[derive(Debug)]
pub struct GatedKills {
    pub context: DemoContext,
    pub rounds: Vec<Round<String>>,
    pub deaths: Vec<Death>,
}

fn events_leave_room(events: &Vec<EventRecord>) -> (r: bool)
    ensures
        r == ticks_leave_room(events@),
{
    if events.len() as u64 >= 0x7fff_ffff_ffff_ffff {
        return false;
    }
    let mut i: usize = 0;
    while i < events.len()
        invariant
            i <= events.len(),
            forall|k: int| 0 <= k < i ==> (#[trigger] events@[k]).at() < i64::MAX,
        decreases events.len() - i,
    {
        if events[i].analysis_tick() == i64::MAX {
            return false;
        }
        i += 1;
    }
    true
}

/// The kills of a demo that count; nothing where a tick is too large to be counted
/// on from.
pub fn gate_kills(
    events: &Vec<EventRecord>,
    header_ticks: i64,
    note: &CaptureNote,
    nickname: &str,
    roster: &Option<Vec<RosterPlayer>>,
    items: &Vec<ItemInfo>,
) -> (out: Option<GatedKills>)
    ensures
        match out {
            None => !ticks_leave_room(events@),
            Some(gated) => {
                let rounds = rounds_of(events@, header_ticks);
                &&& ticks_leave_room(events@)
                &&& context_of(
                    gated.context,
                    unicode_lower(told_capture(*note)),
                    *note,
                    events@,
                    nickname@,
                    *roster,
                )
                &&& round_models(gated.rounds@) == rounds
                &&& all_told(
                    gated.deaths@,
                    counting_kills(events@, rounds, gated.context),
                    events@,
                    rounds,
                    items@,
                    events.len() as int,
                )
            },
        },
{
    if !events_leave_room(events) {
        return None;
    }
    let context = capture_context(note, events, nickname, roster);
    let rounds = build_rounds(events, header_ticks);
    let deaths = normalized_deaths(events, &rounds, &context, items);
    Some(GatedKills { context, rounds, deaths })
}

// ---------------------------------------------------------------------------
// What is known of each kill
// ---------------------------------------------------------------------------

/// Whether a kill was told what the players were doing.
pub open spec fn state_told(before: Death, after: Death, scan: StateScan) -> bool {
    match snapshot_at(snapshot_models(scan.snapshots@), before.event_tick) {
        Some(snapshot) => stated(before, after, snapshot, scan),
        None => after == before,
    }
}

/// Whether kills were told what the players were doing.
pub open spec fn states_told(before: Seq<Death>, after: Seq<Death>, scan: StateScan) -> bool {
    &&& after.len() == before.len()
    &&& forall|i: int| 0 <= i < before.len() ==> state_told(#[trigger] before[i], after[i], scan)
}

/// Whether kills were told what happened around them.
pub open spec fn signals_told(
    before: Seq<Death>,
    after: Seq<Death>,
    signals: MatchSignals,
    losses: Seq<Loss>,
    scan: StateScan,
) -> bool {
    &&& after.len() == before.len()
    &&& forall|i: int|
        0 <= i < before.len() ==> signalled(#[trigger] before[i], after[i], signals, losses, scan)
}

/// Whether signals are those of events.
pub open spec fn signals_of(signals: MatchSignals, events: Seq<EventRecord>) -> bool {
    &&& signals.deploys@ == deploys_in(events)
    &&& signals.charged_deaths@ == charged_in(events)
    &&& signals.hurts@ == hurts_in(events)
}

/// Whether kills were enriched: first with what the players were doing, and then,
/// knowing all teams, with what happened around them.
pub open spec fn enriched(
    before: Seq<Death>,
    after: Seq<Death>,
    events: Seq<EventRecord>,
    scan: StateScan,
) -> bool {
    exists|known: Seq<Death>, signals: MatchSignals, losses: Seq<Loss>|
        states_told(before, known, scan) && signals_of(signals, events) && losses_of(losses, known)
            && #[trigger] signals_told(known, after, signals, losses, scan)
}

/// Adds to each kill what the players were doing and what happened around it.
pub fn enrich_kills(deaths: &mut Vec<Death>, events: &Vec<EventRecord>, scan: &StateScan)
    ensures
        enriched(old(deaths)@, final(deaths)@, events@, *scan),
{
    let ghost start = deaths@;
    let mut i: usize = 0;
    while i < deaths.len()
        invariant
            i <= deaths.len(),
            deaths.len() == start.len(),
            forall|k: int| 0 <= k < i ==> state_told(#[trigger] start[k], deaths@[k], *scan),
            forall|k: int| i <= k < start.len() ==> deaths@[k] == #[trigger] start[k],
        decreases deaths.len() - i,
    {
        assert(deaths@[i as int] == start[i as int]);
        attach_state(&mut deaths[i], scan);
        i += 1;
    }
    let ghost known = deaths@;
    assert(states_told(start, known, *scan));
    let signals = gather_signals(events);
    let losses = list_losses(deaths);
    let mut k: usize = 0;
    while k < deaths.len()
        invariant
            k <= deaths.len(),
            deaths.len() == known.len(),
            forall|j: int|
                0 <= j < k ==> signalled(
                    #[trigger] known[j],
                    deaths@[j],
                    signals,
                    losses@,
                    *scan,
                ),
            forall|j: int| k <= j < known.len() ==> deaths@[j] == #[trigger] known[j],
        decreases deaths.len() - k,
    {
        assert(deaths@[k as int] == known[k as int]);
        attach_event_evidence(&mut deaths[k], &signals, &losses, scan);
        k += 1;
    }
    proof {
        assert(signals_of(signals, events@));
        assert(losses_of(losses@, known));
        assert(signals_told(known, deaths@, signals, losses@, *scan));
    }
}

// ---------------------------------------------------------------------------
// The candidates
// ---------------------------------------------------------------------------

/// Takes over what mode a demo is of.
pub fn set_mode(context: &mut DemoContext, verdict: ModeVerdict)
    ensures
        *final(context) == (DemoContext {
            mode: verdict.mode,
            mode_label: verdict.label,
            mode_confidence: verdict.confidence,
            mode_evidence: verdict.evidence,
            ..*old(context)
        }),
{
    context.mode = verdict.mode;
    context.mode_label = verdict.label;
    context.mode_confidence = verdict.confidence;
    context.mode_evidence = verdict.evidence;
}

/// What a demo is called and where it was played.
#[derive(Debug)]
pub struct DemoNames {
    pub source_demo: String,
    pub map_name: String,
}

/// Whether candidates are those of kills, with the evidence for them.
pub open spec fn built_from(
    built: Seq<Candidate>,
    evidence: Seq<SequenceEvidence>,
    deaths: Seq<Death>,
    rounds: Seq<Round<Seq<char>>>,
    events: Seq<EventRecord>,
    context: DemoContext,
    names: DemoNames,
) -> bool {
    &&& candidates_of(built, evidence, context, names.source_demo@, names.map_name@)
    &&& exists|buildings: Seq<BuildingEvent>, objectives: Seq<ObjectiveEvent>|
        building_models(buildings) == buildings_of(events, rounds) && objective_models(objectives)
            == objectives_of(events, rounds) && #[trigger] evidenced(
            evidence,
            in_rounds(sequences(in_order(deaths)), rounds),
            rounds,
            buildings,
            objectives,
        )
}

/// What came of the kills of a demo: the candidates, the best first, and the
/// evidence that they rest on, sequence by sequence.
#[derive(Debug)]
pub struct AnalyzedKills {
    pub candidates: Vec<Candidate>,
    pub evidence: Vec<SequenceEvidence>,
    pub buildings: Vec<BuildingEvent>,
    pub objectives: Vec<ObjectiveEvent>,
}

/// Whether candidates are those of kills and marks, the best first, and the
/// evidence is that of the kills.
pub open spec fn ranked_from(
    out: AnalyzedKills,
    deaths: Seq<Death>,
    rounds: Seq<Round<Seq<char>>>,
    events: Seq<EventRecord>,
    marks: Seq<Bookmark>,
    context: DemoContext,
    names: DemoNames,
) -> bool {
    &&& building_models(out.buildings@) == buildings_of(events, rounds)
    &&& objective_models(out.objectives@) == objectives_of(events, rounds)
    &&& evidenced(
        out.evidence@,
        in_rounds(sequences(in_order(deaths)), rounds),
        rounds,
        out.buildings@,
        out.objectives@,
    )
    &&& exists|built: Seq<Candidate>, marked: Seq<Candidate>|
        candidates_of(built, out.evidence@, context, names.source_demo@, names.map_name@)
            && #[trigger] marked_with(built, marked, marks, names.source_demo@, context)
            && out.candidates@ == in_order(shown(marked))
}

/// Whether all marks leave room in time for the clip around them.
pub open spec fn marks_fit(marks: Seq<Bookmark>) -> bool {
    &&& marks.len() <= 0xffff_ffff
    &&& forall|i: int| 0 <= i < marks.len() ==> 0 < (#[trigger] marks[i]).tick <= i64::MAX - POST_ROLL
}

fn kills_fit(deaths: &Vec<Death>) -> (r: bool)
    ensures
        r == (ticks_fit(deaths@) && deaths.len() <= 0xffff_ffff),
{
    if deaths.len() as u64 > 0xffff_ffff {
        return false;
    }
    let mut i: usize = 0;
    while i < deaths.len()
        invariant
            i <= deaths.len(),
            forall|k: int|
                0 <= k < i ==> i64::MIN + PRE_ROLL <= (#[trigger] deaths@[k]).demo_tick <= i64::MAX
                    - POST_ROLL,
        decreases deaths.len() - i,
    {
        if deaths[i].demo_tick < i64::MIN + PRE_ROLL || deaths[i].demo_tick > i64::MAX - POST_ROLL {
            return false;
        }
        i += 1;
    }
    true
}

fn all_marks_fit(marks: &Vec<Bookmark>) -> (r: bool)
    ensures
        r == marks_fit(marks@),
{
    if marks.len() as u64 > 0xffff_ffff {
        return false;
    }
    let mut i: usize = 0;
    while i < marks.len()
        invariant
            i <= marks.len(),
            forall|k: int|
                0 <= k < i ==> 0 < (#[trigger] marks@[k]).tick <= i64::MAX - POST_ROLL,
        decreases marks.len() - i,
    {
        if marks[i].tick <= 0 || marks[i].tick > i64::MAX - POST_ROLL {
            return false;
        }
        i += 1;
    }
    true
}

fn candidates_have_room(candidates: &Vec<Candidate>, marks: usize) -> (r: bool)
    requires
        marks <= 0xffff_ffff,
    ensures
        r == all_room(candidates@, marks as int),
{
    let count: i128 = marks as i128;
    let each: i128 = BOOKMARK_SCORE as i128;
    assert(0 <= count * each <= 0xffff_ffff * 3000) by (nonlinear_arith)
        requires
            0 <= count <= 0xffff_ffff,
            each == 3000,
    ;
    let more: i128 = count * each;
    let mut i: usize = 0;
    while i < candidates.len()
        invariant
            i <= candidates.len(),
            marks <= 0xffff_ffff,
            more == marks * BOOKMARK_SCORE,
            forall|k: int| 0 <= k < i ==> room_for(#[trigger] candidates@[k], marks as int),
        decreases candidates.len() - i,
    {
        let candidate = &candidates[i];
        let bookmarks: u64 = match candidate.metrics.bookmarks {
            Some(n) => n,
            None => 0,
        };
        let bookmark_score: i64 = match candidate.metrics.bookmark_score {
            Some(n) => n,
            None => 0,
        };
        assert(bookmarks == count_or_zero(candidate.metrics.bookmarks));
        assert(bookmark_score == score_or_zero(candidate.metrics.bookmark_score));
        if candidate.overall_score as i128 + more > i64::MAX as i128 || bookmarks as u128
            + marks as u128 > u64::MAX as u128 || bookmark_score as i128 + more > i64::MAX as i128 {
            assert(!room_for(candidates@[i as int], marks as int));
            return false;
        }
        i += 1;
    }
    true
}

/// Why candidates cannot be made: a number is too large to be counted on from.
pub open spec fn out_of_range(
    deaths: Seq<Death>,
    rounds: Seq<Round<Seq<char>>>,
    events: Seq<EventRecord>,
    marks: Seq<Bookmark>,
    context: DemoContext,
    names: DemoNames,
) -> bool {
    ||| !ticks_fit(deaths) || deaths.len() > 0xffff_ffff
    ||| !marks_fit(marks)
    ||| exists|built: Seq<Candidate>, evidence: Seq<SequenceEvidence>| #[trigger]
        built_from(built, evidence, deaths, rounds, events, context, names) && !all_room(
            built,
            marks.len() as int,
        )
}

/// The candidates of a demo and the evidence for them; nothing where a number is
/// too large to be counted on from.
pub fn analyze_kills(
    deaths: Vec<Death>,
    rounds: &Vec<Round<String>>,
    events: &Vec<EventRecord>,
    marks: &Vec<Bookmark>,
    context: &DemoContext,
    names: &DemoNames,
) -> (out: Option<AnalyzedKills>)
    ensures
        match out {
            None => out_of_range(
                deaths@,
                round_models(rounds@),
                events@,
                marks@,
                *context,
                *names,
            ),
            Some(analyzed) => ranked_from(
                analyzed,
                deaths@,
                round_models(rounds@),
                events@,
                marks@,
                *context,
                *names,
            ),
        },
{
    if !kills_fit(&deaths) || !all_marks_fit(marks) {
        return None;
    }
    let buildings = normalized_buildings(events, rounds);
    let objectives = normalized_objectives(events, rounds);
    let (mut candidates, evidence) = build_candidates(
        deaths,
        rounds,
        context,
        names.source_demo.as_str(),
        names.map_name.as_str(),
        &buildings,
        &objectives,
    );
    let ghost built = candidates@;
    assert(built_from(
        built,
        evidence@,
        deaths@,
        round_models(rounds@),
        events@,
        *context,
        *names,
    ));
    if !candidates_have_room(&candidates, marks.len()) {
        return None;
    }
    append_bookmarks(&mut candidates, marks, names.source_demo.as_str(), context);
    let ghost marked = candidates@;
    assert(marked_with(built, marked, marks@, names.source_demo@, *context));
    let ranked = rank_candidates(candidates);
    assert(ranked@ == in_order(shown(marked)));
    Some(AnalyzedKills { candidates: ranked, evidence, buildings, objectives })
}

} // verus!

//! From kills to candidates: which kills make one sequence, and what is kept of
//! each sequence.
use vstd::prelude::*;
use crate::arrange::{arrange, in_order, law_order_keeps_all, reversed, Ranked};
use crate::deaths::Death;
use crate::events::unicode_lower;
use crate::floating::{natural, quotient, Double};
use crate::models::{
    primary_from, Candidate, CandidateMetrics, DemoContext, KillRecord, ScoreItem, TickTagGroup,
};
use crate::number::{i64_text, int_text};
use crate::order::{ascending, insert_number, members, rising};
use crate::record::{lookup, text_of, Record};
use crate::rounds::{round_models, Round};
use crate::scoring::{
    add_kill_tags, gather_facts, lemma_kill_tags_are_added, with_kill_tags, ScoreLine,
};
use crate::sequence::{
    kills_tags, lemma_group_tags_are_added, score_group, BuildingEvent, ObjectiveEvent,
    ScoredGroup,
};
use crate::space::tick_rate;
use crate::text::{clone_list, list_contains, lower, to_lower, views};

verus! {

/// Kills that come this many ticks after the first of a sequence, or sooner,
/// belong to it.
pub const SEQUENCE_GAP: i64 = 267;

/// How many ticks a clip starts before the first kill.
pub const PRE_ROLL: i64 = 333;

/// How many ticks a clip ends after the last kill.
pub const POST_ROLL: i64 = 200;

// ---------------------------------------------------------------------------
// Order
// ---------------------------------------------------------------------------

impl Ranked for Death {
    /// By round, by attacker, and then in time.
    open spec fn before(self, other: Self) -> bool {
        if self.round_index != other.round_index {
            self.round_index < other.round_index
        } else if self.attacker != other.attacker {
            self.attacker < other.attacker
        } else if self.event_tick != other.event_tick {
            self.event_tick < other.event_tick
        } else if self.packet_sequence != other.packet_sequence {
            self.packet_sequence < other.packet_sequence
        } else {
            self.event_index < other.event_index
        }
    }

    proof fn before_orders(a: Self, b: Self, c: Self) {
    }

    fn comes_before(&self, other: &Self) -> (r: bool) {
        if self.round_index != other.round_index {
            self.round_index < other.round_index
        } else if self.attacker != other.attacker {
            self.attacker < other.attacker
        } else if self.event_tick != other.event_tick {
            self.event_tick < other.event_tick
        } else if self.packet_sequence != other.packet_sequence {
            self.packet_sequence < other.packet_sequence
        } else {
            self.event_index < other.event_index
        }
    }
}

// ---------------------------------------------------------------------------
// Sequences
// ---------------------------------------------------------------------------

/// Whether a kill belongs to the sequence that another starts.
pub open spec fn joins(first: Death, kill: Death) -> bool {
    kill.round_index == first.round_index && kill.attacker == first.attacker && kill.event_tick
        - first.event_tick <= SEQUENCE_GAP
}

/// Kills in order, split into sequences.
pub open spec fn sequences(kills: Seq<Death>) -> Seq<Seq<Death>>
    decreases kills.len(),
{
    if kills.len() == 0 {
        Seq::empty()
    } else {
        let before = sequences(kills.drop_last());
        let kill = kills.last();
        if before.len() > 0 && before.last().len() > 0 && joins(before.last()[0], kill) {
            before.drop_last().push(before.last().push(kill))
        } else {
            before.push(seq![kill])
        }
    }
}

/// The kills of sequences one after another.
pub open spec fn flat(groups: Seq<Seq<Death>>) -> Seq<Death>
    decreases groups.len(),
{
    if groups.len() == 0 {
        Seq::empty()
    } else {
        flat(groups.drop_last()) + groups.last()
    }
}

/// Whether kills are one sequence: made by one player in one round, none more
/// than the gap after the first.
pub open spec fn one_sequence(group: Seq<Death>) -> bool {
    group.len() > 0 && forall|i: int| 0 <= i < group.len() ==> joins(group[0], #[trigger] group[i])
}

/// Splitting keeps every kill, in its place, and each part is one sequence.
pub proof fn law_sequences_partition(kills: Seq<Death>)
    ensures
        flat(sequences(kills)) == kills,
        forall|i: int|
            0 <= i < sequences(kills).len() ==> one_sequence(#[trigger] sequences(kills)[i]),
    decreases kills.len(),
{
    if kills.len() > 0 {
        law_sequences_partition(kills.drop_last());
        let before = sequences(kills.drop_last());
        let kill = kills.last();
        let out = sequences(kills);
        assert(kills.drop_last().push(kill) =~= kills);
        if before.len() > 0 && before.last().len() > 0 && joins(before.last()[0], kill) {
            let group = before.last().push(kill);
            assert(out.drop_last() =~= before.drop_last());
            assert(flat(out) =~= flat(before).push(kill));
            assert(one_sequence(before.last()));
            assert forall|i: int| 0 <= i < out.len() implies one_sequence(#[trigger] out[i]) by {
                if i < out.len() - 1 {
                    assert(out[i] == before[i]);
                } else {
                    assert(out[i] == group);
                    assert forall|k: int| 0 <= k < group.len() implies joins(
                        group[0],
                        #[trigger] group[k],
                    ) by {
                        if k < group.len() - 1 {
                            assert(group[k] == before.last()[k]);
                        }
                    }
                }
            }
        } else {
            assert(out.drop_last() =~= before);
            assert(flat(out) =~= flat(before).push(kill));
            assert forall|i: int| 0 <= i < out.len() implies one_sequence(#[trigger] out[i]) by {
                if i < out.len() - 1 {
                    assert(out[i] == before[i]);
                }
            }
        }
    } else {
        assert(flat(sequences(kills)) =~= kills);
    }
}

/// The kills that lists hold.
pub open spec fn group_views(groups: Seq<Vec<Death>>) -> Seq<Seq<Death>> {
    Seq::new(groups.len(), |i: int| groups[i]@)
}

/// Whether every kill leaves room in time for the clip around it.
pub open spec fn ticks_fit(kills: Seq<Death>) -> bool {
    forall|i: int|
        0 <= i < kills.len() ==> i64::MIN + PRE_ROLL <= (#[trigger] kills[i]).demo_tick <= i64::MAX
            - POST_ROLL
}

proof fn lemma_order_fits(kills: Seq<Death>)
    requires
        ticks_fit(kills),
    ensures
        ticks_fit(in_order(kills)),
{
    broadcast use vstd::seq_lib::group_to_multiset_ensures;

    law_order_keeps_all(kills);
    let out = in_order(kills);
    assert forall|i: int| 0 <= i < out.len() implies i64::MIN + PRE_ROLL <= (
    #[trigger] out[i]).demo_tick <= i64::MAX - POST_ROLL by {
        assert(out.contains(out[i]));
        assert(out.to_multiset().count(out[i]) > 0);
        assert(kills.to_multiset().count(out[i]) > 0);
    }
}

/// Kills in order, split into sequences.
pub fn split_sequences(kills: Vec<Death>) -> (out: Vec<Vec<Death>>)
    requires
        ticks_fit(kills@),
    ensures
        group_views(out@) == sequences(kills@),
        forall|i: int|
            0 <= i < out.len() ==> 0 < (#[trigger] out@[i]).len() <= kills.len() && ticks_fit(
                out@[i]@,
            ),
{
    let ghost all = kills@;
    let mut left = reversed(kills);
    let mut out: Vec<Vec<Death>> = Vec::new();
    assert(group_views(out@) =~= sequences(all.take(0)));
    while left.len() > 0
        invariant
            left.len() <= all.len(),
            ticks_fit(all),
            left@ == all.skip(all.len() - left.len()).reverse(),
            group_views(out@) == sequences(all.take(all.len() - left.len())),
            forall|i: int|
                0 <= i < out.len() ==> 0 < (#[trigger] out@[i]).len() <= all.len() - left.len()
                    && ticks_fit(out@[i]@),
        decreases left.len(),
    {
        let ghost done = all.len() - left.len();
        let next = left.pop();
        proof {
            assert(left@ =~= all.skip(done + 1).reverse());
            assert(all.take(done + 1).drop_last() =~= all.take(done));
            assert(all.take(done + 1).last() == all[done]);
        }
        if let Some(kill) = next {
            assert(kill == all[done]);
            let ghost before = out@;
            let mut last: Vec<Death> = Vec::new();
            let mut joined = false;
            if out.len() > 0 {
                let group = &out[out.len() - 1];
                assert(group_views(before)[before.len() - 1] == before[before.len() - 1]@);
                if group.len() > 0 {
                    let first = &group[0];
                    joined = kill.round_index == first.round_index && kill.attacker
                        == first.attacker && kill.event_tick as i128 - first.event_tick as i128
                        <= SEQUENCE_GAP as i128;
                }
            }
            if joined {
                let open = out.pop();
                if let Some(group) = open {
                    last = group;
                }
            }
            let ghost kept = out@;
            assert(ticks_fit(last@));
            last.push(kill);
            assert(ticks_fit(last@));
            out.push(last);
            proof {
                if joined {
                    assert(kept =~= before.drop_last());
                    assert(group_views(out@) =~= group_views(before).drop_last().push(
                        group_views(before).last().push(kill),
                    ));
                } else {
                    assert(last@ =~= seq![kill]);
                    assert(group_views(out@) =~= group_views(before).push(seq![kill]));
                }
            }
        }
    }
    assert(all.take(all.len() as int) =~= all);
    out
}

// ---------------------------------------------------------------------------
// Tags by tick
// ---------------------------------------------------------------------------

/// The demo ticks of kills.
pub open spec fn demo_ticks(group: Seq<Death>) -> Set<i64>
    decreases group.len(),
{
    if group.len() == 0 {
        Set::empty()
    } else {
        demo_ticks(group.drop_last()).insert(group.last().demo_tick)
    }
}

/// The server ticks of the kills at a demo tick.
pub open spec fn server_ticks_at(group: Seq<Death>, tick: i64) -> Set<i64>
    decreases group.len(),
{
    if group.len() == 0 {
        Set::empty()
    } else {
        let before = server_ticks_at(group.drop_last(), tick);
        if group.last().demo_tick == tick {
            before.insert(group.last().event_tick)
        } else {
            before
        }
    }
}

/// The tags of the kills at a demo tick.
pub open spec fn tags_at(group: Seq<Death>, tick: i64) -> Set<Seq<char>>
    decreases group.len(),
{
    if group.len() == 0 {
        Set::empty()
    } else {
        let before = tags_at(group.drop_last(), tick);
        if group.last().demo_tick == tick {
            with_kill_tags(before, group.last(), lower(group.last().weapon@))
        } else {
            before
        }
    }
}

/// Whether a tag group tells rightly of the kills at its tick.
pub open spec fn tells_tick(told: TickTagGroup, group: Seq<Death>) -> bool {
    &&& rising(told.server_ticks@)
    &&& told.server_ticks@.to_set() == server_ticks_at(group, told.demo_tick)
    &&& ascending(views(told.tags@))
    &&& members(told.tags@) == tags_at(group, told.demo_tick)
}

/// The ticks of tag groups.
pub open spec fn told_ticks(groups: Seq<TickTagGroup>) -> Seq<i64> {
    Seq::new(groups.len(), |i: int| groups[i].demo_tick)
}

/// Whether tag groups tell rightly of the kills of a sequence: one group for each
/// demo tick, in order.
pub open spec fn tells_ticks(told: Seq<TickTagGroup>, group: Seq<Death>) -> bool {
    &&& rising(told_ticks(told))
    &&& told_ticks(told).to_set() == demo_ticks(group)
    &&& forall|i: int| 0 <= i < told.len() ==> tells_tick(#[trigger] told[i], group)
}

fn tell_tick(group: &Vec<Death>, tick: i64) -> (out: TickTagGroup)
    ensures
        out.demo_tick == tick,
        tells_tick(out, group@),
{
    let mut server_ticks: Vec<i64> = Vec::new();
    let mut tags: Vec<String> = Vec::new();
    let mut i: usize = 0;
    assert(server_ticks@.to_set() =~= Set::empty());
    assert(members(tags@) =~= Set::empty());
    while i < group.len()
        invariant
            i <= group.len(),
            rising(server_ticks@),
            server_ticks@.to_set() == server_ticks_at(group@.take(i as int), tick),
            ascending(views(tags@)),
            members(tags@) == tags_at(group@.take(i as int), tick),
        decreases group.len() - i,
    {
        proof {
            assert(group@.take(i + 1).drop_last() =~= group@.take(i as int));
            assert(group@.take(i + 1).last() == group@[i as int]);
        }
        if group[i].demo_tick == tick {
            insert_number(&mut server_ticks, group[i].event_tick);
            let weapon = to_lower(group[i].weapon.as_str());
            let facts = gather_facts(&group[i], weapon.as_str());
            add_kill_tags(&mut tags, &group[i], weapon.as_str(), &facts);
        }
        i += 1;
    }
    assert(group@.take(group.len() as int) =~= group@);
    TickTagGroup { demo_tick: tick, server_ticks, tags }
}

/// The tags of the kills of a sequence, by demo tick.
pub fn tick_tag_groups(group: &Vec<Death>) -> (out: Vec<TickTagGroup>)
    ensures
        tells_ticks(out@, group@),
{
    let mut ticks: Vec<i64> = Vec::new();
    let mut i: usize = 0;
    assert(ticks@.to_set() =~= Set::empty());
    while i < group.len()
        invariant
            i <= group.len(),
            rising(ticks@),
            ticks@.to_set() == demo_ticks(group@.take(i as int)),
        decreases group.len() - i,
    {
        proof {
            assert(group@.take(i + 1).drop_last() =~= group@.take(i as int));
            assert(group@.take(i + 1).last() == group@[i as int]);
        }
        insert_number(&mut ticks, group[i].demo_tick);
        i += 1;
    }
    assert(group@.take(group.len() as int) =~= group@);
    let mut out: Vec<TickTagGroup> = Vec::new();
    let mut k: usize = 0;
    while k < ticks.len()
        invariant
            k <= ticks.len(),
            told_ticks(out@) == ticks@.take(k as int),
            forall|i: int| 0 <= i < out.len() ==> tells_tick(#[trigger] out@[i], group@),
        decreases ticks.len() - k,
    {
        let told = tell_tick(group, ticks[k]);
        let ghost before = out@;
        out.push(told);
        proof {
            assert(told_ticks(out@) =~= told_ticks(before).push(ticks@[k as int]));
            assert(ticks@.take(k + 1) =~= ticks@.take(k as int).push(ticks@[k as int]));
        }
        k += 1;
    }
    assert(ticks@.take(ticks.len() as int) =~= ticks@);
    out
}

// ---------------------------------------------------------------------------
// Candidates
// ---------------------------------------------------------------------------

/// Whether a tag is one of a single tick.
pub open spec fn tick_tag(groups: Seq<TickTagGroup>, tag: Seq<char>) -> bool {
    exists|i: int| 0 <= i < groups.len() && views((#[trigger] groups[i]).tags@).contains(tag)
}

/// The tags of a sequence that are not of a single tick.
pub open spec fn only_sequence(tags: Seq<Seq<char>>, groups: Seq<TickTagGroup>) -> Seq<Seq<char>>
    decreases tags.len(),
{
    if tags.len() == 0 {
        Seq::empty()
    } else {
        let before = only_sequence(tags.drop_last(), groups);
        if tick_tag(groups, tags.last()) {
            before
        } else {
            before.push(tags.last())
        }
    }
}

fn is_tick_tag(groups: &Vec<TickTagGroup>, tag: &str) -> (r: bool)
    ensures
        r == tick_tag(groups@, tag@),
{
    let mut i: usize = 0;
    while i < groups.len()
        invariant
            i <= groups.len(),
            forall|k: int| 0 <= k < i ==> !views((#[trigger] groups@[k]).tags@).contains(tag@),
        decreases groups.len() - i,
    {
        if list_contains(&groups[i].tags, tag) {
            assert(views(groups@[i as int].tags@).contains(tag@));
            return true;
        }
        i += 1;
    }
    false
}

fn sequence_only(tags: &Vec<String>, groups: &Vec<TickTagGroup>) -> (out: Vec<String>)
    ensures
        views(out@) == only_sequence(views(tags@), groups@),
{
    let mut out: Vec<String> = Vec::new();
    let mut i: usize = 0;
    assert(views(out@) =~= only_sequence(views(tags@).take(0), groups@));
    while i < tags.len()
        invariant
            i <= tags.len(),
            views(out@) == only_sequence(views(tags@).take(i as int), groups@),
        decreases tags.len() - i,
    {
        proof {
            let next = views(tags@).take(i + 1);
            assert(next.drop_last() =~= views(tags@).take(i as int));
            assert(next.last() == tags@[i as int]@);
        }
        if !is_tick_tag(groups, tags[i].as_str()) {
            let ghost before = views(out@);
            out.push(tags[i].clone());
            assert(views(out@) =~= before.push(tags@[i as int]@));
        }
        i += 1;
    }
    assert(views(tags@).take(tags.len() as int) =~= views(tags@));
    out
}

/// A text that may be missing.
pub open spec fn optional_view(text: Option<String>) -> Option<Seq<char>> {
    match text {
        Some(text) => Some(text@),
        None => None,
    }
}

fn name_in(record: &Record) -> (out: Option<String>)
    ensures
        optional_view(out) == text_of(lookup(record.model(), "name"@)),
{
    match record.string("name") {
        Some(name) => Some(name.clone()),
        None => None,
    }
}

/// Whether a record tells rightly of a kill.
pub open spec fn records_kill(record: KillRecord, kill: Death) -> bool {
    let attacker = text_of(lookup(kill.state.attacker.model(), "name"@));
    let victim = text_of(lookup(kill.state.victim.model(), "name"@));
    &&& optional_view(record.attacker_name) == attacker
    &&& optional_view(record.attacker_state_name) == attacker
    &&& record.victim_user_id == Some(kill.victim)
    &&& optional_view(record.victim_name) == victim
    &&& optional_view(record.victim_state_name) == victim
    &&& optional_view(record.victim_class) == Some(kill.victim_class@)
    &&& optional_view(record.weapon) == Some(kill.weapon@)
    &&& record.tick == Some(kill.demo_tick)
    &&& record.server_tick == Some(kill.event_tick)
    &&& record.victim_airborne == kill.state.victim_airborne_before_projectile_impact
    &&& record.airshot_eligible == (kill.state.projectile is Some
        && kill.state.projectile->0.airshot_eligible)
    &&& record.direct_impact == (kill.state.projectile is Some && kill.state.projectile->0.direct())
    &&& record.double_donk == kill.state.confirmed_double_donk
    &&& record.kritzkrieg_boost == kill.state.confirmed_kritzkrieg_boost
    &&& record.uber_drop == kill.state.confirmed_uber_drop
    &&& record.rocket_jump_victim == kill.rocket_jump_victim
}

fn record_kill(kill: &Death) -> (out: KillRecord)
    ensures
        records_kill(out, *kill),
{
    let (eligible, direct) = match &kill.state.projectile {
        Some(projectile) => (
            projectile.airshot_eligible,
            projectile.is_direct(),
        ),
        None => (false, false),
    };
    KillRecord {
        attacker_name: name_in(&kill.state.attacker),
        attacker_state_name: name_in(&kill.state.attacker),
        victim_user_id: Some(kill.victim),
        victim_name: name_in(&kill.state.victim),
        victim_state_name: name_in(&kill.state.victim),
        victim_class: Some(kill.victim_class.clone()),
        weapon: Some(kill.weapon.clone()),
        tick: Some(kill.demo_tick),
        server_tick: Some(kill.event_tick),
        victim_airborne: kill.state.victim_airborne_before_projectile_impact,
        airshot_eligible: eligible,
        direct_impact: direct,
        double_donk: kill.state.confirmed_double_donk,
        kritzkrieg_boost: kill.state.confirmed_kritzkrieg_boost,
        uber_drop: kill.state.confirmed_uber_drop,
        rocket_jump_victim: kill.rocket_jump_victim,
    }
}

/// Whether an item tells rightly of a line.
pub open spec fn item_of(item: ScoreItem, line: ScoreLine<String>) -> bool {
    &&& optional_view(item.reason) == Some(line.reason@)
    &&& item.points == Some(line.points)
    &&& item.event_tick == line.event_tick
    &&& item.count == line.count
}

/// Whether two contexts say the same.
pub open spec fn same_context(a: DemoContext, b: DemoContext) -> bool {
    &&& a.capture_type == b.capture_type
    &&& a.capture_confidence == b.capture_confidence
    &&& a.capture_evidence@ == b.capture_evidence@
    &&& a.header_nick == b.header_nick
    &&& a.analysis_scope == b.analysis_scope
    &&& a.pov_player_user_id == b.pov_player_user_id
    &&& a.roster_match_available == b.roster_match_available
    &&& a.scope_reason == b.scope_reason
    &&& a.mode == b.mode
    &&& a.mode_label == b.mode_label
    &&& a.mode_confidence == b.mode_confidence
    &&& a.mode_evidence@ == b.mode_evidence@
}

/// How long a number of ticks lasts, in seconds.
pub open spec fn seconds_of(ticks: int) -> nat {
    if ticks > 0 {
        quotient(natural(ticks as nat), tick_rate())
    } else {
        0
    }
}

/// Whether a candidate tells rightly of a sequence and its worth.
pub open spec fn candidate_of(
    candidate: Candidate,
    group: Seq<Death>,
    scored: ScoredGroup,
    context: DemoContext,
    source_demo: Seq<char>,
    map_name: Seq<char>,
) -> bool {
    let first = group.first();
    let last = group.last();
    &&& candidate.candidate_id@ == "r"@ + int_text(first.round_index as int) + "-p"@ + int_text(
        first.attacker as int,
    ) + "-t"@ + int_text(first.event_tick as int)
    &&& candidate.source_demo@ == source_demo
    &&& candidate.map_name@ == map_name
    &&& candidate.round_index == first.round_index
    &&& candidate.overall_score == scored.score
    &&& candidate.attacker_user_id == first.attacker
    &&& candidate.attacker_class@ == first.attacker_class@
    &&& candidate.attacker_team@ == first.attacker_team@
    &&& optional_view(candidate.attacker_name) == text_of(
        lookup(first.state.attacker.model(), "name"@),
    )
    &&& candidate.clip_start_tick == (if first.demo_tick > PRE_ROLL {
        first.demo_tick - PRE_ROLL
    } else {
        0
    })
    &&& candidate.clip_end_tick == last.demo_tick + POST_ROLL
    &&& candidate.point_of_kill_ticks@ == Seq::new(group.len(), |i: int| group[i].demo_tick)
    &&& views(candidate.tags@) == views(scored.tags@)
    &&& tells_ticks(candidate.tick_tags@, group)
    &&& views(candidate.sequence_tags@) == only_sequence(
        views(scored.tags@),
        candidate.tick_tags@,
    )
    &&& candidate.metrics.kills == Some(group.len() as u64)
    &&& candidate.metrics.bookmarks is None
    &&& candidate.metrics.bookmark_score is None
    &&& candidate.metrics.duration_seconds matches Some(seconds) && seconds.value() == seconds_of(
        last.event_tick - first.event_tick,
    )
    &&& candidate.kills.len() == group.len()
    &&& forall|i: int|
        0 <= i < group.len() ==> records_kill(#[trigger] candidate.kills@[i], group[i])
    &&& candidate.score_breakdown.len() == scored.lines.len()
    &&& forall|i: int|
        0 <= i < scored.lines.len() ==> item_of(
            #[trigger] candidate.score_breakdown@[i],
            scored.lines@[i],
        )
    &&& same_context(candidate.demo_context, context)
    &&& candidate.bookmark_comment@ == Seq::<char>::empty()
    &&& candidate.bookmark_tick is None
    &&& candidate.primary_tag@ == primary_from(
        candidate.tick_tags@,
        Seq::empty(),
        views(candidate.tags@),
        views(candidate.sequence_tags@),
        candidate.score_breakdown@,
    )
}

/// Whether the tags of a candidate are those of its ticks together with those of
/// its sequence.
pub open spec fn tags_are_united(candidate: Candidate) -> bool {
    forall|tag: Seq<char>| #[trigger]
        members(candidate.tags@).contains(tag) <==> tick_tag(candidate.tick_tags@, tag) || members(
            candidate.sequence_tags@,
        ).contains(tag)
}

/// Whether the weapons of kills have one lower case, by Unicode's rules and by those
/// of ASCII.
pub open spec fn plainly_lowered(group: Seq<Death>) -> bool {
    forall|i: int|
        0 <= i < group.len() ==> unicode_lower((#[trigger] group[i]).weapon@) == lower(
            group[i].weapon@,
        )
}

proof fn lemma_tick_tags_are_of_the_kills(group: Seq<Death>, tick: i64)
    requires
        plainly_lowered(group),
    ensures
        tags_at(group, tick).subset_of(kills_tags(group)),
    decreases group.len(),
{
    if group.len() > 0 {
        let rest = group.drop_last();
        let kill = group.last();
        assert forall|i: int| 0 <= i < rest.len() implies unicode_lower(
            (#[trigger] rest[i]).weapon@,
        ) == lower(rest[i].weapon@) by {
            assert(rest[i] == group[i]);
        }
        lemma_tick_tags_are_of_the_kills(rest, tick);
        assert(group[group.len() - 1] == kill);
        lemma_kill_tags_are_added(tags_at(rest, tick), kill, lower(kill.weapon@));
        lemma_kill_tags_are_added(kills_tags(rest), kill, lower(kill.weapon@));
    }
}

proof fn lemma_only_sequence(tags: Seq<Seq<char>>, groups: Seq<TickTagGroup>)
    ensures
        forall|tag: Seq<char>| #[trigger]
            only_sequence(tags, groups).contains(tag) <==> tags.contains(tag) && !tick_tag(
                groups,
                tag,
            ),
    decreases tags.len(),
{
    if tags.len() > 0 {
        let rest = tags.drop_last();
        lemma_only_sequence(rest, groups);
        let some = only_sequence(rest, groups);
        let all = only_sequence(tags, groups);
        assert(tags =~= rest.push(tags.last()));
        assert forall|tag: Seq<char>| #[trigger] all.contains(tag) <==> tags.contains(tag)
            && !tick_tag(groups, tag) by {
            lemma_pushed(rest, tags.last(), tag);
            lemma_pushed(some, tags.last(), tag);
            assert(some.contains(tag) <==> rest.contains(tag) && !tick_tag(groups, tag));
        }
    }
}

proof fn lemma_pushed(list: Seq<Seq<char>>, last: Seq<char>, item: Seq<char>)
    ensures
        list.push(last).contains(item) <==> list.contains(item) || item == last,
{
    let all = list.push(last);
    if all.contains(item) {
        let i = choose|i: int| 0 <= i < all.len() && all[i] == item;
        if i < list.len() {
            assert(list[i] == item);
        }
    }
    if list.contains(item) {
        let i = choose|i: int| 0 <= i < list.len() && list[i] == item;
        assert(all[i] == item);
    }
    assert(all[list.len() as int] == last);
}

/// The tags of a candidate are those of its ticks together with those of its
/// sequence, and no tag is both.
pub proof fn law_tags_are_united(
    candidate: Candidate,
    group: Seq<Death>,
    scored: ScoredGroup,
    round: Round<Seq<char>>,
    buildings: Seq<BuildingEvent>,
    objectives: Seq<ObjectiveEvent>,
    context: DemoContext,
    source_demo: Seq<char>,
    map_name: Seq<char>,
)
    requires
        candidate_of(candidate, group, scored, context, source_demo, map_name),
        scored.of(group, round, buildings, objectives),
        plainly_lowered(group),
    ensures
        tags_are_united(candidate),
        forall|tag: Seq<char>| #[trigger]
            members(candidate.sequence_tags@).contains(tag) ==> !tick_tag(candidate.tick_tags@, tag),
{
    let groups = candidate.tick_tags@;
    let tags = views(scored.tags@);
    lemma_only_sequence(tags, groups);
    lemma_group_tags_are_added(kills_tags(group), scored.facts);
    assert forall|tag: Seq<char>| tick_tag(groups, tag) implies members(scored.tags@).contains(
        tag,
    ) by {
        let i = choose|i: int|
            0 <= i < groups.len() && views((#[trigger] groups[i]).tags@).contains(tag);
        assert(tells_tick(groups[i], group));
        assert(members(groups[i].tags@).contains(tag));
        lemma_tick_tags_are_of_the_kills(group, groups[i].demo_tick);
    }
    assert forall|tag: Seq<char>| #[trigger]
        members(candidate.tags@).contains(tag) <==> tick_tag(groups, tag) || members(
            candidate.sequence_tags@,
        ).contains(tag) by {
        assert(only_sequence(tags, groups).contains(tag) <==> tags.contains(tag) && !tick_tag(
            groups,
            tag,
        ));
        assert(members(candidate.tags@).contains(tag) <==> tags.contains(tag));
    }
    assert forall|tag: Seq<char>| #[trigger]
        members(candidate.sequence_tags@).contains(tag) implies !tick_tag(groups, tag) by {
        assert(only_sequence(tags, groups).contains(tag));
    }
}

fn record_kills(group: &Vec<Death>) -> (out: Vec<KillRecord>)
    ensures
        out.len() == group.len(),
        forall|i: int| 0 <= i < group.len() ==> records_kill(#[trigger] out@[i], group@[i]),
{
    let mut out: Vec<KillRecord> = Vec::new();
    let mut i: usize = 0;
    while i < group.len()
        invariant
            i <= group.len(),
            out.len() == i,
            forall|k: int| 0 <= k < i ==> records_kill(#[trigger] out@[k], group@[k]),
        decreases group.len() - i,
    {
        out.push(record_kill(&group[i]));
        i += 1;
    }
    out
}

fn kill_ticks(group: &Vec<Death>) -> (out: Vec<i64>)
    ensures
        out@ == Seq::new(group@.len(), |i: int| group@[i].demo_tick),
{
    let mut out: Vec<i64> = Vec::new();
    let mut i: usize = 0;
    while i < group.len()
        invariant
            i <= group.len(),
            out.len() == i,
            forall|k: int| 0 <= k < i ==> #[trigger] out@[k] == group@[k].demo_tick,
        decreases group.len() - i,
    {
        out.push(group[i].demo_tick);
        i += 1;
    }
    assert(out@ =~= Seq::new(group@.len(), |i: int| group@[i].demo_tick));
    out
}

fn score_items(lines: &Vec<ScoreLine<String>>) -> (out: Vec<ScoreItem>)
    ensures
        out.len() == lines.len(),
        forall|i: int| 0 <= i < lines.len() ==> item_of(#[trigger] out@[i], lines@[i]),
{
    let mut out: Vec<ScoreItem> = Vec::new();
    let mut i: usize = 0;
    while i < lines.len()
        invariant
            i <= lines.len(),
            out.len() == i,
            forall|k: int| 0 <= k < i ==> item_of(#[trigger] out@[k], lines@[k]),
        decreases lines.len() - i,
    {
        let line = &lines[i];
        out.push(
            ScoreItem {
                reason: Some(line.reason.clone()),
                points: Some(line.points),
                event_tick: line.event_tick,
                count: line.count,
            },
        );
        i += 1;
    }
    out
}

/// The name of the candidate for a sequence.
fn name_candidate(first: &Death) -> (out: String)
    ensures
        out@ == "r"@ + int_text(first.round_index as int) + "-p"@ + int_text(first.attacker as int)
            + "-t"@ + int_text(first.event_tick as int),
{
    let mut out = "r".to_owned();
    out.append(i64_text(first.round_index).as_str());
    out.append("-p");
    out.append(i64_text(first.attacker).as_str());
    out.append("-t");
    out.append(i64_text(first.event_tick).as_str());
    out
}

/// The candidate for a sequence and its worth.
pub fn make_candidate(
    group: &Vec<Death>,
    scored: &ScoredGroup,
    context: &DemoContext,
    source_demo: &str,
    map_name: &str,
) -> (out: Candidate)
    requires
        one_sequence(group@),
        ticks_fit(group@),
    ensures
        candidate_of(out, group@, *scored, *context, source_demo@, map_name@),
{
    let first = &group[0];
    let last = &group[group.len() - 1];
    assert(joins(group@[0], group@[group.len() - 1]));
    let ticks: i128 = last.event_tick as i128 - first.event_tick as i128;
    let duration = if ticks > 0 {
        Double::natural(ticks as u64).over(Double::fraction(666_666_667, 10_000_000))
    } else {
        Double::zero()
    };
    let tick_tags = tick_tag_groups(group);
    let sequence_tags = sequence_only(&scored.tags, &tick_tags);
    let mut candidate = Candidate {
        candidate_id: name_candidate(first),
        source_demo: source_demo.to_owned(),
        map_name: map_name.to_owned(),
        round_index: first.round_index,
        overall_score: scored.score,
        attacker_user_id: first.attacker,
        attacker_class: first.attacker_class.clone(),
        attacker_team: first.attacker_team.clone(),
        attacker_name: name_in(&first.state.attacker),
        clip_start_tick: if first.demo_tick > PRE_ROLL {
            first.demo_tick - PRE_ROLL
        } else {
            0
        },
        clip_end_tick: last.demo_tick + POST_ROLL,
        point_of_kill_ticks: kill_ticks(group),
        tags: clone_list(&scored.tags),
        tick_tags,
        sequence_tags,
        primary_tag: String::new(),
        metrics: CandidateMetrics {
            kills: Some(group.len() as u64),
            bookmarks: None,
            bookmark_score: None,
            duration_seconds: Some(duration),
        },
        kills: record_kills(group),
        score_breakdown: score_items(&scored.lines),
        demo_context: context.clone(),
        bookmark_comment: String::new(),
        bookmark_tick: None,
    };
    assert(candidate.primary_tag@ =~= Seq::empty());
    let tag = candidate.inferred_primary_tag();
    candidate.primary_tag = tag;
    candidate
}

// ---------------------------------------------------------------------------
// All of a demo
// ---------------------------------------------------------------------------

/// The first round with a number.
pub open spec fn round_numbered(rounds: Seq<Round<Seq<char>>>, index: i64) -> Option<int>
    decreases rounds.len(),
{
    if rounds.len() == 0 {
        None
    } else {
        match round_numbered(rounds.drop_last(), index) {
            Some(i) => Some(i),
            None => if rounds.last().index == index {
                Some(rounds.len() - 1)
            } else {
                None
            },
        }
    }
}

fn find_numbered(rounds: &Vec<Round<String>>, index: i64) -> (out: Option<usize>)
    ensures
        match out {
            Some(i) => i < rounds.len() && round_numbered(round_models(rounds@), index) == Some(
                i as int,
            ),
            None => round_numbered(round_models(rounds@), index) is None,
        },
{
    let ghost models = round_models(rounds@);
    let mut found: Option<usize> = None;
    let mut i: usize = 0;
    while i < rounds.len()
        invariant
            i <= rounds.len(),
            models == round_models(rounds@),
            match found {
                Some(k) => k < i && round_numbered(models.take(i as int), index) == Some(k as int),
                None => round_numbered(models.take(i as int), index) is None,
            },
        decreases rounds.len() - i,
    {
        proof {
            assert(models.take(i + 1).drop_last() =~= models.take(i as int));
            assert(models.take(i + 1).last() == rounds@[i as int].model());
        }
        if found.is_none() && rounds[i].index == index {
            found = Some(i);
        }
        i += 1;
    }
    assert(models.take(rounds.len() as int) =~= models);
    found
}

/// The sequences whose round is known.
pub open spec fn in_rounds(
    groups: Seq<Seq<Death>>,
    rounds: Seq<Round<Seq<char>>>,
) -> Seq<Seq<Death>>
    decreases groups.len(),
{
    if groups.len() == 0 {
        Seq::empty()
    } else {
        let before = in_rounds(groups.drop_last(), rounds);
        if round_numbered(rounds, groups.last()[0].round_index) is Some {
            before.push(groups.last())
        } else {
            before
        }
    }
}

/// The sequence behind a candidate: its kills, their worth, and the round, by
/// position.
#[derive(Debug)]
pub struct SequenceEvidence {
    pub kills: Vec<Death>,
    pub scored: ScoredGroup,
    pub round: usize,
}

/// Whether the evidence is of a sequence.
pub open spec fn evidence_of(
    evidence: SequenceEvidence,
    group: Seq<Death>,
    rounds: Seq<Round<Seq<char>>>,
    buildings: Seq<BuildingEvent>,
    objectives: Seq<ObjectiveEvent>,
) -> bool {
    &&& evidence.kills@ == group
    &&& round_numbered(rounds, group[0].round_index) == Some(evidence.round as int)
    &&& evidence.scored.of(group, rounds[evidence.round as int], buildings, objectives)
}

/// What the candidates of a demo are made of.
pub open spec fn evidenced(
    evidence: Seq<SequenceEvidence>,
    groups: Seq<Seq<Death>>,
    rounds: Seq<Round<Seq<char>>>,
    buildings: Seq<BuildingEvent>,
    objectives: Seq<ObjectiveEvent>,
) -> bool {
    &&& evidence.len() == groups.len()
    &&& forall|i: int|
        0 <= i < groups.len() ==> evidence_of(
            #[trigger] evidence[i],
            groups[i],
            rounds,
            buildings,
            objectives,
        )
}

/// Whether candidates are those of sequences, in order.
pub open spec fn candidates_of(
    candidates: Seq<Candidate>,
    evidence: Seq<SequenceEvidence>,
    context: DemoContext,
    source_demo: Seq<char>,
    map_name: Seq<char>,
) -> bool {
    &&& candidates.len() == evidence.len()
    &&& forall|i: int|
        0 <= i < candidates.len() ==> candidate_of(
            #[trigger] candidates[i],
            evidence[i].kills@,
            evidence[i].scored,
            context,
            source_demo,
            map_name,
        )
}

/// The candidates for the kills of a demo, each with the sequence behind it.
pub fn build_candidates(
    deaths: Vec<Death>,
    rounds: &Vec<Round<String>>,
    context: &DemoContext,
    source_demo: &str,
    map_name: &str,
    buildings: &Vec<BuildingEvent>,
    objectives: &Vec<ObjectiveEvent>,
) -> (out: (Vec<Candidate>, Vec<SequenceEvidence>))
    requires
        ticks_fit(deaths@),
        deaths.len() <= 0xffff_ffff,
    ensures
        evidenced(
            out.1@,
            in_rounds(sequences(in_order(deaths@)), round_models(rounds@)),
            round_models(rounds@),
            buildings@,
            objectives@,
        ),
        candidates_of(out.0@, out.1@, *context, source_demo@, map_name@),
{
    proof {
        lemma_order_fits(deaths@);
        law_order_keeps_all(deaths@);
        law_sequences_partition(in_order(deaths@));
    }
    let kills = arrange(deaths);
    let groups = split_sequences(kills);
    let ghost all = group_views(groups@);
    let ghost models = round_models(rounds@);
    let mut left = reversed(groups);
    let mut candidates: Vec<Candidate> = Vec::new();
    let mut evidence: Vec<SequenceEvidence> = Vec::new();
    while left.len() > 0
        invariant
            left.len() <= all.len(),
            models == round_models(rounds@),
            all == group_views(groups@),
            forall|i: int|
                0 <= i < groups.len() ==> 0 < (#[trigger] groups@[i]).len() <= 0xffff_ffff
                    && ticks_fit(groups@[i]@),
            forall|i: int| 0 <= i < all.len() ==> one_sequence(#[trigger] all[i]),
            left@ == groups@.skip(all.len() - left.len()).reverse(),
            evidenced(
                evidence@,
                in_rounds(all.take(all.len() - left.len()), models),
                models,
                buildings@,
                objectives@,
            ),
            candidates_of(candidates@, evidence@, *context, source_demo@, map_name@),
        decreases left.len(),
    {
        let ghost done = all.len() - left.len();
        let next = left.pop();
        proof {
            assert(left@ =~= groups@.skip(done + 1).reverse());
            assert(all.take(done + 1).drop_last() =~= all.take(done));
            assert(all.take(done + 1).last() == all[done]);
        }
        if let Some(group) = next {
            assert(group == groups@[done]);
            assert(all[done] == group@);
            assert(one_sequence(all[done]));
            let found = find_numbered(rounds, group[0].round_index);
            if let Some(round) = found {
                assert(models[round as int] == rounds@[round as int].model());
                let scored = score_group(&group, &rounds[round], buildings, objectives);
                let candidate = make_candidate(&group, &scored, context, source_demo, map_name);
                candidates.push(candidate);
                evidence.push(SequenceEvidence { kills: group, scored, round });
            }
        }
    }
    assert(all.take(all.len() as int) =~= all);
    (candidates, evidence)
}

/// A sequence goes on for four seconds after its first kill, as long as one player makes
/// the kills in one round; what comes later, or is another's, starts the next one.
pub proof fn law_sequences_last_four_seconds(kills: Seq<Death>, i: int, k: int)
    requires
        0 <= i < sequences(kills).len(),
        0 <= k < sequences(kills)[i].len(),
    ensures
        ({
            let group = sequences(kills)[i];
            &&& group[k].round_index == group[0].round_index
            &&& group[k].attacker == group[0].attacker
            &&& group[k].event_tick - group[0].event_tick <= 267
            &&& i > 0 ==> ({
                let before = sequences(kills)[i - 1][0];
                ||| group[0].round_index != before.round_index
                ||| group[0].attacker != before.attacker
                ||| group[0].event_tick - before.event_tick > 267
            })
        }),
{
    law_sequences_partition(kills);
    assert(one_sequence(sequences(kills)[i]));
    assert(joins(sequences(kills)[i][0], sequences(kills)[i][k]));
    if i > 0 {
        lemma_next_starts(kills, i);
    }
}

proof fn lemma_next_starts(kills: Seq<Death>, i: int)
    requires
        0 < i < sequences(kills).len(),
    ensures
        sequences(kills)[i].len() > 0,
        sequences(kills)[i - 1].len() > 0,
        !joins(sequences(kills)[i - 1][0], sequences(kills)[i][0]),
    decreases kills.len(),
{
    let rest = kills.drop_last();
    let before = sequences(rest);
    let all = sequences(kills);
    law_sequences_partition(rest);
    law_sequences_partition(kills);
    assert(one_sequence(all[i]) && one_sequence(all[i - 1]));
    if i < before.len() {
        lemma_next_starts(rest, i);
        assert(one_sequence(before[i]) && one_sequence(before[i - 1]));
        assert(all[i - 1] == before[i - 1]);
        if i < all.len() - 1 {
            assert(all[i] == before[i]);
        } else {
            assert(all[i][0] == before[i][0]);
        }
    } else {
        assert(all[i - 1] == before[i - 1]);
        assert(one_sequence(before.last()));
    }
}

/// The clip of a candidate starts five seconds before its first kill, or with the demo,
/// and ends three seconds after its last; every kill lies in it where they come in order.
pub proof fn law_clips_hold_their_kills(
    candidate: Candidate,
    group: Seq<Death>,
    scored: ScoredGroup,
    context: DemoContext,
    source_demo: Seq<char>,
    map_name: Seq<char>,
    k: int,
)
    requires
        candidate_of(candidate, group, scored, context, source_demo, map_name),
        0 <= k < group.len(),
        0 <= group.first().demo_tick <= group[k].demo_tick <= group.last().demo_tick,
    ensures
        candidate.clip_start_tick >= 0,
        candidate.clip_start_tick + 333 == group.first().demo_tick || candidate.clip_start_tick
            == 0 && group.first().demo_tick <= 333,
        candidate.clip_end_tick == group.last().demo_tick + 200,
        candidate.clip_start_tick <= candidate.point_of_kill_ticks@[k] < candidate.clip_end_tick,
        candidate.point_of_kill_ticks@[k] == group[k].demo_tick,
        candidate.metrics.kills == Some(candidate.kills.len() as u64),
        candidate.kills@[k].victim_user_id == Some(group[k].victim),
        candidate.kills@[k].tick == Some(group[k].demo_tick),
        optional_view(candidate.kills@[k].weapon) == Some(group[k].weapon@),
        optional_view(candidate.kills@[k].victim_class) == Some(group[k].victim_class@),
{
    assert(records_kill(candidate.kills@[k], group[k]));
}

/// Of the sequences of a demo, those are looked at whose round is known.
pub proof fn law_sequences_of_known_rounds_stay(
    groups: Seq<Seq<Death>>,
    rounds: Seq<Round<Seq<char>>>,
    i: int,
)
    requires
        0 <= i < groups.len(),
    ensures
        (exists|r: int|
            0 <= r < rounds.len() && (#[trigger] rounds[r]).index == groups[i][0].round_index)
            ==> in_rounds(groups, rounds).contains(groups[i]),
    decreases groups.len(),
{
    let rest = groups.drop_last();
    let known = in_rounds(rest, rounds);
    let all = in_rounds(groups, rounds);
    lemma_numbered(rounds, groups[i][0].round_index);
    if exists|r: int|
        0 <= r < rounds.len() && (#[trigger] rounds[r]).index == groups[i][0].round_index {
        if i < rest.len() {
            assert(rest[i] == groups[i]);
            law_sequences_of_known_rounds_stay(rest, rounds, i);
            let k = choose|k: int| 0 <= k < known.len() && known[k] == groups[i];
            assert(all[k] == groups[i]);
        } else {
            assert(all[all.len() - 1] == groups[i]);
        }
    }
}

proof fn lemma_numbered(rounds: Seq<Round<Seq<char>>>, index: i64)
    ensures
        (exists|r: int| 0 <= r < rounds.len() && (#[trigger] rounds[r]).index == index)
            ==> round_numbered(rounds, index) is Some,
    decreases rounds.len(),
{
    if rounds.len() > 0 {
        let rest = rounds.drop_last();
        lemma_numbered(rest, index);
        if exists|r: int| 0 <= r < rounds.len() && (#[trigger] rounds[r]).index == index {
            let r = choose|r: int| 0 <= r < rounds.len() && (#[trigger] rounds[r]).index == index;
            if r < rest.len() {
                assert(rest[r] == rounds[r]);
            }
        }
    }
}

/// Kills are ordered by round, then by attacker, then by tick, and then as they came.
pub proof fn law_kills_are_ordered(a: Death, b: Death)
    ensures
        a.round_index < b.round_index ==> a.before(b) && !b.before(a),
        a.round_index == b.round_index && a.attacker < b.attacker ==> a.before(b) && !b.before(a),
        a.round_index == b.round_index && a.attacker == b.attacker && a.event_tick < b.event_tick
            ==> a.before(b) && !b.before(a),
        a.round_index == b.round_index && a.attacker == b.attacker && a.event_tick == b.event_tick
            && a.packet_sequence < b.packet_sequence ==> a.before(b) && !b.before(a),
        !a.before(a),
{
}

/// A candidate is about one attacker, has one entry for each of their kills, in turn, and
/// lasts no time where they happen at once. Its tags are either of a tick or of the whole
/// sequence, never both.
pub proof fn law_candidates_tell_their_kills(
    candidate: Candidate,
    group: Seq<Death>,
    scored: ScoredGroup,
    context: DemoContext,
    source_demo: Seq<char>,
    map_name: Seq<char>,
    i: int,
    tag: Seq<char>,
)
    requires
        candidate_of(candidate, group, scored, context, source_demo, map_name),
        one_sequence(group),
        group.len() <= u64::MAX,
        0 <= i < group.len(),
    ensures
        candidate.attacker_user_id == group[i].attacker,
        candidate.round_index == group[i].round_index,
        candidate.metrics.kills == Some(candidate.kills.len() as u64),
        candidate.point_of_kill_ticks.len() == group.len(),
        candidate.point_of_kill_ticks@[i] == group[i].demo_tick,
        candidate.kills@[i].tick == Some(group[i].demo_tick),
        candidate.kills@[i].server_tick == Some(group[i].event_tick),
        candidate.kills@[i].victim_user_id == Some(group[i].victim),
        optional_view(candidate.kills@[i].weapon) == Some(group[i].weapon@),
        candidate.kills@[i].victim_airborne
            == group[i].state.victim_airborne_before_projectile_impact,
        candidate.kills@[i].uber_drop == group[i].state.confirmed_uber_drop,
        candidate.kills@[i].double_donk == group[i].state.confirmed_double_donk,
        candidate.overall_score == scored.score,
        group.last().event_tick <= group[0].event_tick
            ==> candidate.metrics.duration_seconds is Some
            && candidate.metrics.duration_seconds->0.value() == 0,
        views(candidate.sequence_tags@).contains(tag) <==> views(candidate.tags@).contains(tag)
            && !tick_tag(candidate.tick_tags@, tag),
{
    assert(joins(group[0], group[i]));
    assert(records_kill(candidate.kills@[i], group[i]));
    lemma_only_sequence(views(scored.tags@), candidate.tick_tags@);
}

} // verus!

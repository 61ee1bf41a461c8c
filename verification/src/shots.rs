//! The shots of a camera that follows the victims of a candidate.
use vstd::prelude::*;
use std::collections::HashMap;
use vstd::arithmetic::div_mod::{lemma_fundamental_div_mod, lemma_mod_multiples_basic};
use vstd::arithmetic::mul::{lemma_mul_inequality, lemma_mul_is_distributive_add_other_way};
use crate::camera::{follow_from, group_ticks, held, later, track_start, KillGroup};
use crate::models::Candidate;
use crate::order::{insert_number, rising};
use crate::text::{remove_chars, replace_chars, replaced, same_fold, same_ignoring_case, without};
use crate::tracks::{
    continuous_track_start, find_position, points_upto, position_at, start_of, ticks_rise,
    track_models, tracks_rise, unbroken_from, CameraFault, TrackPoint, TrackPosition, TrackRole,
};

verus! {

broadcast use vstd::std_specs::hash::group_hash_axioms;

/// How many ticks a shot must hold before its kill.
pub const MIN_CINEMATIC_PRE_KILL_TICKS: i64 = 3;

/// The durations of a shot, in ticks.
#[derive(Clone, Copy, Debug, PartialEq, Eq, Structural)]
pub struct ShotTiming {
    /// How long a player may go untold.
    pub max_gap: i64,
    /// How long the victim is held in view after the kill.
    pub hold_ticks: i64,
    /// How long the last shot goes on after the kill.
    pub post_ticks: i64,
    /// How far the points of the path are apart.
    pub key_step: i64,
}

/// The greater of two numbers.
pub open spec fn at_least(n: i64, least: i64) -> i64 {
    if n > least {
        n
    } else {
        least
    }
}

fn raise(n: i64, least: i64) -> (out: i64)
    ensures
        out == at_least(n, least),
{
    if n > least {
        n
    } else {
        least
    }
}

impl ShotTiming {
    /// Whether no duration is too short.
    pub open spec fn well_formed(self) -> bool {
        self.max_gap >= 2 && self.hold_ticks >= 1 && self.post_ticks >= 1 && self.key_step >= 1
    }

    /// Durations, none of them too short.
    pub fn new(gap_ticks: i64, hold_ticks: i64, post_ticks: i64, key_step: i64) -> (out: Self)
        ensures
            out.max_gap == at_least(gap_ticks, 2),
            out.hold_ticks == at_least(hold_ticks, 1),
            out.post_ticks == at_least(post_ticks, 1),
            out.key_step == at_least(key_step, 1),
            out.well_formed(),
    {
        ShotTiming {
            max_gap: raise(gap_ticks, 2),
            hold_ticks: raise(hold_ticks, 1),
            post_ticks: raise(post_ticks, 1),
            key_step: raise(key_step, 1),
        }
    }
}

// ---------------------------------------------------------------------------
// Where shots start
// ---------------------------------------------------------------------------

/// Whether groups of kills are in order, after the start of the demo, and have
/// victims.
pub open spec fn well_grouped(groups: Seq<KillGroup>) -> bool {
    &&& rising(group_ticks(groups))
    &&& forall|i: int|
        0 <= i < groups.len() ==> (#[trigger] groups[i]).demo_tick > 0
            && groups[i].victim_user_ids.len() > 0
}

/// The tick from which a shot should start: the first with the clip, others after
/// the last victim was held in view, or earlier where the kill follows too soon.
pub open spec fn wanted_start(groups: Seq<KillGroup>, at: int, clip_start: i64, hold: int) -> i64 {
    if at == 0 {
        follow_from(clip_start)
    } else {
        let last_kill = groups[at - 1].demo_tick;
        let after_hold = held(last_kill + hold);
        let latest = held(groups[at].demo_tick - 3);
        at_least(
            if after_hold < latest {
                after_hold
            } else {
                latest
            },
            held(last_kill + 1),
        )
    }
}

/// The tick from which all victims are followed without a break, after those of a
/// number of them.
pub open spec fn victims_start(
    victims: Seq<i64>,
    tick: i64,
    requested: i64,
    tracks: Map<i64, Seq<TrackPoint>>,
    max_gap: int,
    start: i64,
) -> Result<i64, CameraFault>
    decreases victims.len(),
{
    if victims.len() == 0 {
        Ok(start)
    } else {
        let victim = victims.last();
        match victims_start(victims.drop_last(), tick, requested, tracks, max_gap, start) {
            Err(fault) => Err(fault),
            Ok(before) => if !tracks.contains_key(victim) {
                Err(CameraFault::NoVictimTrack { victim, tick })
            } else {
                match start_of(tracks[victim], requested, tick, max_gap, TrackRole::Victim) {
                    Err(fault) => Err(fault),
                    Ok(own) => Ok(at_least(before, own)),
                }
            },
        }
    }
}

/// The tick from which the attacker and all victims of a group are followed
/// without a break.
pub open spec fn shot_start(
    group: KillGroup,
    requested: i64,
    attacker: Seq<TrackPoint>,
    tracks: Map<i64, Seq<TrackPoint>>,
    max_gap: int,
) -> Result<i64, CameraFault> {
    match start_of(attacker, requested, group.demo_tick, max_gap, TrackRole::Attacker) {
        Err(fault) => Err(fault),
        Ok(start) => victims_start(
            group.victim_user_ids@,
            group.demo_tick,
            requested,
            tracks,
            max_gap,
            start,
        ),
    }
}

/// Where the first shots start.
pub open spec fn shot_starts(
    groups: Seq<KillGroup>,
    upto: int,
    clip_start: i64,
    attacker: Seq<TrackPoint>,
    tracks: Map<i64, Seq<TrackPoint>>,
    timing: ShotTiming,
) -> Result<Seq<i64>, CameraFault>
    decreases upto,
{
    if upto <= 0 {
        Ok(Seq::empty())
    } else {
        match shot_starts(groups, upto - 1, clip_start, attacker, tracks, timing) {
            Err(fault) => Err(fault),
            Ok(before) => {
                let group = groups[upto - 1];
                let requested = wanted_start(
                    groups,
                    upto - 1,
                    clip_start,
                    timing.hold_ticks as int,
                );
                match shot_start(group, requested, attacker, tracks, timing.max_gap as int) {
                    Err(fault) => Err(fault),
                    Ok(start) => if upto == 1 && group.demo_tick - start < 3 {
                        Err(
                            CameraFault::TooShort {
                                tick: group.demo_tick,
                                available: (group.demo_tick - start) as i64,
                            },
                        )
                    } else {
                        Ok(before.push(start))
                    },
                }
            },
        }
    }
}

fn find_wanted_start(groups: &Vec<KillGroup>, at: usize, clip_start: i64, hold: i64) -> (out: i64)
    requires
        at < groups.len(),
    ensures
        out == wanted_start(groups@, at as int, clip_start, hold as int),
{
    if at == 0 {
        track_start(clip_start)
    } else {
        let last_kill = groups[at - 1].demo_tick;
        let after_hold = later(last_kill, hold);
        let latest = later(groups[at].demo_tick, -3);
        raise(
            if after_hold < latest {
                after_hold
            } else {
                latest
            },
            later(last_kill, 1),
        )
    }
}

fn find_shot_start(
    group: &KillGroup,
    requested: i64,
    attacker: &Vec<TrackPoint>,
    tracks: &HashMap<i64, Vec<TrackPoint>>,
    max_gap: i64,
) -> (out: Result<i64, CameraFault>)
    ensures
        out == shot_start(*group, requested, attacker@, track_models(tracks@), max_gap as int),
{
    let tick = group.demo_tick;
    let first = match continuous_track_start(
        attacker,
        requested,
        tick,
        max_gap,
        TrackRole::Attacker,
    ) {
        Ok(first) => first,
        Err(fault) => return Err(fault),
    };
    let ghost models = track_models(tracks@);
    let victims = &group.victim_user_ids;
    let mut start: i64 = first;
    let mut i: usize = 0;
    assert(victims@.take(0) =~= Seq::empty());
    while i < victims.len()
        invariant
            i <= victims.len(),
            victims@ == group.victim_user_ids@,
            tick == group.demo_tick,
            models == track_models(tracks@),
            start_of(attacker@, requested, tick, max_gap as int, TrackRole::Attacker) == Ok::<
                i64,
                CameraFault,
            >(first),
            victims_start(
                victims@.take(i as int),
                tick,
                requested,
                models,
                max_gap as int,
                first,
            ) == Ok::<i64, CameraFault>(start),
        decreases victims.len() - i,
    {
        let victim = victims[i];
        proof {
            assert(victims@.take(i + 1).drop_last() =~= victims@.take(i as int));
            assert(victims@.take(i + 1).last() == victim);
        }
        match tracks.get(&victim) {
            None => {
                proof {
                    assert(!models.contains_key(victim));
                    lemma_victims_fail(
                        victims@,
                        i + 1,
                        tick,
                        requested,
                        models,
                        max_gap as int,
                        first,
                        CameraFault::NoVictimTrack { victim, tick },
                    );
                }
                return Err(CameraFault::NoVictimTrack { victim, tick });
            },
            Some(points) => {
                proof {
                    assert(models.contains_key(victim));
                    assert(models[victim] == points@);
                }
                match continuous_track_start(points, requested, tick, max_gap, TrackRole::Victim) {
                    Err(fault) => {
                        proof {
                            lemma_victims_fail(
                                victims@,
                                i + 1,
                                tick,
                                requested,
                                models,
                                max_gap as int,
                                first,
                                fault,
                            );
                        }
                        return Err(fault);
                    },
                    Ok(own) => {
                        start = raise(start, own);
                    },
                }
            },
        }
        i += 1;
    }
    assert(victims@.take(victims.len() as int) =~= victims@);
    Ok(start)
}

proof fn lemma_victims_fail(
    victims: Seq<i64>,
    upto: int,
    tick: i64,
    requested: i64,
    tracks: Map<i64, Seq<TrackPoint>>,
    max_gap: int,
    start: i64,
    fault: CameraFault,
)
    requires
        0 <= upto <= victims.len(),
        victims_start(victims.take(upto), tick, requested, tracks, max_gap, start) == Err::<
            i64,
            CameraFault,
        >(fault),
    ensures
        victims_start(victims, tick, requested, tracks, max_gap, start) == Err::<i64, CameraFault>(
            fault,
        ),
    decreases victims.len(),
{
    if upto == victims.len() {
        assert(victims.take(upto) =~= victims);
    } else {
        assert(victims.drop_last().take(upto) =~= victims.take(upto));
        lemma_victims_fail(
            victims.drop_last(),
            upto,
            tick,
            requested,
            tracks,
            max_gap,
            start,
            fault,
        );
    }
}

proof fn lemma_starts_fail(
    groups: Seq<KillGroup>,
    failed: int,
    upto: int,
    clip_start: i64,
    attacker: Seq<TrackPoint>,
    tracks: Map<i64, Seq<TrackPoint>>,
    timing: ShotTiming,
    fault: CameraFault,
)
    requires
        failed <= upto,
        shot_starts(groups, failed, clip_start, attacker, tracks, timing) == Err::<
            Seq<i64>,
            CameraFault,
        >(fault),
    ensures
        shot_starts(groups, upto, clip_start, attacker, tracks, timing) == Err::<
            Seq<i64>,
            CameraFault,
        >(fault),
    decreases upto - failed,
{
    if failed < upto {
        lemma_starts_fail(groups, failed, upto - 1, clip_start, attacker, tracks, timing, fault);
    }
}

proof fn lemma_upto(points: Seq<TrackPoint>, tick: int)
    ensures
        0 <= points_upto(points, tick) <= points.len(),
        points_upto(points, tick) > 0 ==> points[points_upto(points, tick) - 1].tick <= tick,
    decreases points.len(),
{
    if points.len() > 0 && points.last().tick > tick {
        lemma_upto(points.drop_last(), tick);
    }
}

proof fn lemma_first_is_before(
    points: Seq<TrackPoint>,
    at: int,
    anchor: TrackPoint,
    requested: int,
    max_gap: int,
)
    requires
        0 <= at,
    ensures
        0 <= unbroken_from(points, at, anchor, requested, max_gap) <= at,
    decreases at,
{
    if at > 0 {
        lemma_first_is_before(points, at - 1, anchor, requested, max_gap);
    }
}

/// A track starts between the tick that is asked for and the end, where that is not
/// before.
proof fn lemma_start_bounds(
    points: Seq<TrackPoint>,
    requested: i64,
    end: i64,
    max_gap: int,
    role: TrackRole,
)
    requires
        ticks_rise(points),
        start_of(points, requested, end, max_gap, role) is Ok,
    ensures
        ({
            let start = start_of(points, requested, end, max_gap, role)->Ok_0;
            start >= requested && (start <= end || start == requested)
        }),
{
    let known = points_upto(points, end as int);
    lemma_upto(points, end as int);
    let anchor = points[known - 1];
    lemma_first_is_before(points, known - 1, anchor, requested as int, max_gap);
    let first = unbroken_from(points, known - 1, anchor, requested as int, max_gap);
    if first < known - 1 {
        assert(points[first].tick < points[known - 1].tick);
    }
}

proof fn lemma_victims_bounds(
    victims: Seq<i64>,
    tick: i64,
    requested: i64,
    tracks: Map<i64, Seq<TrackPoint>>,
    max_gap: int,
    start: i64,
)
    requires
        tracks_rise(tracks),
        start >= requested,
        start <= tick || start == requested,
        victims_start(victims, tick, requested, tracks, max_gap, start) is Ok,
    ensures
        ({
            let out = victims_start(victims, tick, requested, tracks, max_gap, start)->Ok_0;
            out >= requested && (out <= tick || out == requested)
        }),
    decreases victims.len(),
{
    if victims.len() > 0 {
        lemma_victims_bounds(victims.drop_last(), tick, requested, tracks, max_gap, start);
        let victim = victims.last();
        lemma_start_bounds(tracks[victim], requested, tick, max_gap, TrackRole::Victim);
    }
}

proof fn lemma_shot_bounds(
    group: KillGroup,
    requested: i64,
    attacker: Seq<TrackPoint>,
    tracks: Map<i64, Seq<TrackPoint>>,
    max_gap: int,
)
    requires
        ticks_rise(attacker),
        tracks_rise(tracks),
        shot_start(group, requested, attacker, tracks, max_gap) is Ok,
    ensures
        ({
            let out = shot_start(group, requested, attacker, tracks, max_gap)->Ok_0;
            out >= requested && (out <= group.demo_tick || out == requested)
        }),
{
    lemma_start_bounds(attacker, requested, group.demo_tick, max_gap, TrackRole::Attacker);
    let start = start_of(
        attacker,
        requested,
        group.demo_tick,
        max_gap,
        TrackRole::Attacker,
    )->Ok_0;
    lemma_victims_bounds(
        group.victim_user_ids@,
        group.demo_tick,
        requested,
        tracks,
        max_gap,
        start,
    );
}

/// Whether each shot starts by its kill, and after the kill of the shot before it.
pub open spec fn start_in_turn(starts: Seq<i64>, groups: Seq<KillGroup>) -> bool {
    forall|i: int|
        0 <= i < starts.len() ==> 0 <= #[trigger] starts[i] <= groups[i].demo_tick && (i > 0
            ==> groups[i - 1].demo_tick < starts[i])
}

proof fn lemma_wanted_bounds(groups: Seq<KillGroup>, at: int, clip_start: i64, hold: int)
    requires
        well_grouped(groups),
        0 <= at < groups.len(),
        hold >= 1,
    ensures
        wanted_start(groups, at, clip_start, hold) >= 0,
        at > 0 ==> groups[at - 1].demo_tick < wanted_start(groups, at, clip_start, hold)
            <= groups[at].demo_tick,
{
    if at > 0 {
        let ticks = group_ticks(groups);
        assert(ticks[at - 1] < ticks[at]);
        assert(groups[at - 1].demo_tick > 0);
    }
}

/// Shots start in turn.
pub proof fn law_shots_start_in_turn(
    groups: Seq<KillGroup>,
    upto: int,
    clip_start: i64,
    attacker: Seq<TrackPoint>,
    tracks: Map<i64, Seq<TrackPoint>>,
    timing: ShotTiming,
)
    requires
        well_grouped(groups),
        timing.well_formed(),
        ticks_rise(attacker),
        tracks_rise(tracks),
        0 <= upto <= groups.len(),
        shot_starts(groups, upto, clip_start, attacker, tracks, timing) is Ok,
    ensures
        ({
            let starts = shot_starts(groups, upto, clip_start, attacker, tracks, timing)->Ok_0;
            starts.len() == upto && start_in_turn(starts, groups)
        }),
    decreases upto,
{
    if upto > 0 {
        let before = shot_starts(groups, upto - 1, clip_start, attacker, tracks, timing)->Ok_0;
        law_shots_start_in_turn(groups, upto - 1, clip_start, attacker, tracks, timing);
        let group = groups[upto - 1];
        let requested = wanted_start(groups, upto - 1, clip_start, timing.hold_ticks as int);
        lemma_wanted_bounds(groups, upto - 1, clip_start, timing.hold_ticks as int);
        lemma_shot_bounds(group, requested, attacker, tracks, timing.max_gap as int);
        let starts = shot_starts(groups, upto, clip_start, attacker, tracks, timing)->Ok_0;
        assert forall|i: int| 0 <= i < starts.len() implies 0 <= #[trigger] starts[i]
            <= groups[i].demo_tick && (i > 0 ==> groups[i - 1].demo_tick < starts[i]) by {
            if i < before.len() {
                assert(starts[i] == before[i]);
            }
        }
    }
}

fn find_shot_starts(
    groups: &Vec<KillGroup>,
    clip_start: i64,
    attacker: &Vec<TrackPoint>,
    tracks: &HashMap<i64, Vec<TrackPoint>>,
    timing: ShotTiming,
) -> (out: Result<Vec<i64>, CameraFault>)
    requires
        well_grouped(groups@),
        timing.well_formed(),
        ticks_rise(attacker@),
        tracks_rise(track_models(tracks@)),
    ensures
        match (
            out,
            shot_starts(
                groups@,
                groups.len() as int,
                clip_start,
                attacker@,
                track_models(tracks@),
                timing,
            ),
        ) {
            (Ok(starts), Ok(model)) => starts@ == model,
            (Err(fault), Err(model)) => fault == model,
            _ => false,
        },
{
    let ghost models = track_models(tracks@);
    let mut starts: Vec<i64> = Vec::new();
    let mut i: usize = 0;
    while i < groups.len()
        invariant
            i <= groups.len(),
            well_grouped(groups@),
            timing.well_formed(),
            ticks_rise(attacker@),
            models == track_models(tracks@),
            tracks_rise(models),
            shot_starts(groups@, i as int, clip_start, attacker@, models, timing) == Ok::<
                Seq<i64>,
                CameraFault,
            >(starts@),
        decreases groups.len() - i,
    {
        let requested = find_wanted_start(groups, i, clip_start, timing.hold_ticks);
        match find_shot_start(&groups[i], requested, attacker, tracks, timing.max_gap) {
            Err(fault) => {
                proof {
                    lemma_starts_fail(
                        groups@,
                        i + 1,
                        groups.len() as int,
                        clip_start,
                        attacker@,
                        models,
                        timing,
                        fault,
                    );
                }
                return Err(fault);
            },
            Ok(start) => {
                proof {
                    lemma_wanted_bounds(
                        groups@,
                        i as int,
                        clip_start,
                        timing.hold_ticks as int,
                    );
                    lemma_shot_bounds(
                        groups@[i as int],
                        requested,
                        attacker@,
                        models,
                        timing.max_gap as int,
                    );
                    assert(groups@[i as int].demo_tick > 0);
                }
                let tick = groups[i].demo_tick;
                let available: i64 = tick - start;
                if i == 0 && available < MIN_CINEMATIC_PRE_KILL_TICKS {
                    proof {
                        lemma_starts_fail(
                            groups@,
                            1,
                            groups.len() as int,
                            clip_start,
                            attacker@,
                            models,
                            timing,
                            CameraFault::TooShort { tick, available },
                        );
                    }
                    return Err(CameraFault::TooShort { tick, available });
                }
                starts.push(start);
            },
        }
        i += 1;
    }
    Ok(starts)
}

// ---------------------------------------------------------------------------
// The ticks of a shot
// ---------------------------------------------------------------------------

/// How far the points of a shot are apart.
pub open spec fn sample_step(start: int, impact: int, key_step: int) -> int {
    let third = if (impact - start) / 3 > 1 {
        (impact - start) / 3
    } else {
        1
    };
    if key_step < third {
        key_step
    } else {
        third
    }
}

/// The tick up to which the victims are held in view.
pub open spec fn hold_end(impact: i64, next_start: Option<i64>, hold: int) -> i64 {
    let wanted = held(impact + hold);
    match next_start {
        Some(next) => if wanted < held(next - 1) {
            wanted
        } else {
            held(next - 1)
        },
        None => wanted,
    }
}

/// Whether a shot has a point at a tick.
pub open spec fn is_sampled(
    tick: i64,
    start: i64,
    impact: i64,
    next_start: Option<i64>,
    timing: ShotTiming,
) -> bool {
    let step = sample_step(start as int, impact as int, timing.key_step as int);
    let end = hold_end(impact, next_start, timing.hold_ticks as int);
    ||| start <= tick < impact && (tick - start) % step == 0
    ||| tick == impact
    ||| end > impact && tick == end
    ||| next_start is None && tick == held(impact + timing.post_ticks)
}

/// Whether the ticks of a shot rise, and are those at which it has a point.
pub open spec fn samples(
    ticks: Seq<i64>,
    start: i64,
    impact: i64,
    next_start: Option<i64>,
    timing: ShotTiming,
) -> bool {
    &&& rising(ticks)
    &&& forall|tick: i64| #[trigger]
        ticks.to_set().contains(tick) == is_sampled(tick, start, impact, next_start, timing)
}

fn list_steps(start: i64, impact: i64, step: i64) -> (out: Vec<i64>)
    requires
        0 <= start <= impact,
        step >= 1,
    ensures
        rising(out@),
        forall|tick: i64| #[trigger]
            out@.to_set().contains(tick) == (start <= tick < impact && (tick - start) % (
            step as int) == 0),
{
    let mut out: Vec<i64> = Vec::new();
    let mut cursor: i128 = start as i128;
    assert(0 * step == 0) by (nonlinear_arith);
    while cursor < impact as i128
        invariant
            0 <= start <= impact,
            step >= 1,
            start <= cursor,
            cursor <= impact + step,
            cursor == start + out.len() * step,
            rising(out@),
            forall|k: int| 0 <= k < out.len() ==> #[trigger] out@[k] == start + k * step,
            forall|k: int| 0 <= k < out.len() ==> #[trigger] out@[k] < impact,
        decreases impact + step - cursor,
    {
        let ghost before = out@;
        let ghost n = out.len() as int;
        out.push(cursor as i64);
        cursor = cursor + step as i128;
        proof {
            lemma_mul_is_distributive_add_other_way(step as int, n, 1);
            assert forall|i: int, j: int| 0 <= i < j < out@.len() implies #[trigger] out@[i]
                < #[trigger] out@[j] by {
                if j < n {
                    assert(before[i] < before[j]);
                } else {
                    assert(before[i] == start + i * step);
                    lemma_mul_inequality(i + 1, n, step as int);
                    lemma_mul_is_distributive_add_other_way(step as int, i, 1);
                }
            }
        }
    }
    proof {
        assert forall|tick: i64| #[trigger]
            out@.to_set().contains(tick) == (start <= tick < impact && (tick - start) % (
            step as int) == 0) by {
            if out@.to_set().contains(tick) {
                let k = choose|k: int| 0 <= k < out@.len() && out@[k] == tick;
                assert(out@[k] == start + k * step);
                lemma_mod_multiples_basic(k, step as int);
                lemma_mul_inequality(0, k, step as int);
            }
            if start <= tick < impact && (tick - start) % (step as int) == 0 {
                let k = (tick - start) / (step as int);
                lemma_fundamental_div_mod(tick - start, step as int);
                assert(tick - start == step * k);
                assert(k * step == step * k) by (nonlinear_arith);
                assert(k >= 0) by (nonlinear_arith)
                    requires
                        k * step >= 0,
                        step >= 1,
                ;
                if k >= out@.len() {
                    lemma_mul_inequality(out@.len() as int, k, step as int);
                }
                assert(out@[k] == tick);
            }
        }
    }
    out
}

fn list_samples(start: i64, impact: i64, next_start: Option<i64>, timing: ShotTiming) -> (out: Vec<
    i64,
>)
    requires
        0 <= start <= impact,
        timing.well_formed(),
    ensures
        samples(out@, start, impact, next_start, timing),
{
    let third = raise((impact - start) / 3, 1);
    let step: i64 = if timing.key_step < third {
        timing.key_step
    } else {
        third
    };
    let mut out = list_steps(start, impact, step);
    insert_number(&mut out, impact);
    let wanted = later(impact, timing.hold_ticks);
    let end: i64 = match next_start {
        Some(next) => {
            let before_next = later(next, -1);
            if wanted < before_next {
                wanted
            } else {
                before_next
            }
        },
        None => wanted,
    };
    if end > impact {
        insert_number(&mut out, end);
    }
    if next_start.is_none() {
        insert_number(&mut out, later(impact, timing.post_ticks));
    }
    out
}

// ---------------------------------------------------------------------------
// The plan
// ---------------------------------------------------------------------------

/// A shot of the kills at one tick.
#[derive(Debug)]
pub struct KillShotPlan {
    pub demo_tick: i64,
    pub event_ticks: Vec<i64>,
    pub victim_user_ids: Vec<i64>,
    pub start_demo_tick: i64,
    pub end_demo_tick: i64,
    /// The ticks at which the path of the camera has a point.
    pub sample_ticks: Vec<i64>,
}

/// The shots of a candidate.
#[derive(Debug)]
pub struct CinematicPlan {
    pub candidate_id: String,
    pub capture_type: String,
    pub primary_kill_event_tick: i64,
    pub primary_kill_demo_tick: i64,
    pub victim_user_id: i64,
    pub attacker_user_id: i64,
    pub activation_demo_tick: i64,
    pub kill_shots: Vec<KillShotPlan>,
}

/// The start of the shot behind one.
pub open spec fn next_start(starts: Seq<i64>, at: int) -> Option<i64> {
    if at + 1 < starts.len() {
        Some(starts[at + 1])
    } else {
        None
    }
}

/// Whether a shot is that of a group.
pub open spec fn is_shot(
    shot: KillShotPlan,
    group: KillGroup,
    starts: Seq<i64>,
    at: int,
    timing: ShotTiming,
) -> bool {
    &&& shot.demo_tick == group.demo_tick
    &&& shot.event_ticks@ == group.event_ticks@
    &&& shot.victim_user_ids@ == group.victim_user_ids@
    &&& shot.start_demo_tick == starts[at]
    &&& samples(
        shot.sample_ticks@,
        starts[at],
        group.demo_tick,
        next_start(starts, at),
        timing,
    )
    &&& shot.sample_ticks@.len() > 0 && shot.end_demo_tick == shot.sample_ticks@.last()
}

/// Whether shots are those of groups.
pub open spec fn are_shots(
    shots: Seq<KillShotPlan>,
    groups: Seq<KillGroup>,
    starts: Seq<i64>,
    timing: ShotTiming,
) -> bool {
    forall|i: int|
        0 <= i < shots.len() ==> is_shot(#[trigger] shots[i], groups[i], starts, i, timing)
}

/// Whether each shot goes from its start over its kill to its end, and ends before
/// the next one starts.
pub open spec fn follow_in_turn(shots: Seq<KillShotPlan>) -> bool {
    forall|i: int|
        0 <= i < shots.len() ==> (#[trigger] shots[i]).start_demo_tick <= shots[i].demo_tick
            <= shots[i].end_demo_tick && (i + 1 < shots.len() ==> shots[i].end_demo_tick < shots[i
            + 1].start_demo_tick)
}

proof fn lemma_shot_ends(
    ticks: Seq<i64>,
    start: i64,
    impact: i64,
    next: Option<i64>,
    timing: ShotTiming,
)
    requires
        samples(ticks, start, impact, next, timing),
        start <= impact,
        next matches Some(tick) ==> impact < tick,
    ensures
        ticks.len() > 0,
        ticks.last() >= impact,
        next matches Some(tick) ==> ticks.last() < tick,
{
    assert(is_sampled(impact, start, impact, next, timing));
    assert(ticks.to_set().contains(impact));
    let k = choose|k: int| 0 <= k < ticks.len() && ticks[k] == impact;
    if k < ticks.len() - 1 {
        assert(ticks[k] < ticks[ticks.len() - 1]);
    }
    assert(ticks.to_set().contains(ticks.last()));
    assert(is_sampled(ticks.last(), start, impact, next, timing));
}

/// Shots of a candidate follow each other: none begins before the one before it
/// ended.
pub proof fn law_shots_follow_in_turn(
    shots: Seq<KillShotPlan>,
    groups: Seq<KillGroup>,
    starts: Seq<i64>,
    timing: ShotTiming,
)
    requires
        shots.len() == groups.len(),
        starts.len() == groups.len(),
        start_in_turn(starts, groups),
        are_shots(shots, groups, starts, timing),
    ensures
        follow_in_turn(shots),
{
    assert forall|i: int| 0 <= i < shots.len() implies (#[trigger] shots[i]).start_demo_tick
        <= shots[i].demo_tick <= shots[i].end_demo_tick && (i + 1 < shots.len()
        ==> shots[i].end_demo_tick < shots[i + 1].start_demo_tick) by {
        assert(is_shot(shots[i], groups[i], starts, i, timing));
        assert(starts[i] <= groups[i].demo_tick);
        if i + 1 < shots.len() {
            assert(is_shot(shots[i + 1], groups[i + 1], starts, i + 1, timing));
            assert(groups[i + 1 - 1].demo_tick < starts[i + 1]);
        }
        lemma_shot_ends(
            shots[i].sample_ticks@,
            starts[i],
            groups[i].demo_tick,
            next_start(starts, i),
            timing,
        );
    }
}

fn copy_numbers(list: &Vec<i64>) -> (out: Vec<i64>)
    ensures
        out@ == list@,
{
    let mut out: Vec<i64> = Vec::new();
    let mut i: usize = 0;
    while i < list.len()
        invariant
            i <= list.len(),
            out@ == list@.take(i as int),
        decreases list.len() - i,
    {
        out.push(list[i]);
        assert(list@.take(i + 1) =~= list@.take(i as int).push(list@[i as int]));
        i += 1;
    }
    assert(list@.take(list.len() as int) =~= list@);
    out
}

/// The track of a player, where there is one.
pub open spec fn track_of(tracks: Map<i64, Seq<TrackPoint>>, user: i64) -> Option<Seq<TrackPoint>> {
    if tracks.contains_key(user) {
        Some(tracks[user])
    } else {
        None
    }
}

/// Plans the shots of a candidate: one of each tick with a kill, from where the
/// attacker and the victims are followed without a break.
pub fn plan_candidate_from_tracks(
    candidate: &Candidate,
    groups: &Vec<KillGroup>,
    tracks: &HashMap<i64, Vec<TrackPoint>>,
    timing: ShotTiming,
) -> (out: Result<CinematicPlan, CameraFault>)
    requires
        well_grouped(groups@),
        timing.well_formed(),
        tracks_rise(track_models(tracks@)),
    ensures
        ({
            let models = track_models(tracks@);
            let attacker = track_of(models, candidate.attacker_user_id);
            let starts = shot_starts(
                groups@,
                groups.len() as int,
                candidate.clip_start_tick,
                attacker->0,
                models,
                timing,
            );
            match out {
                Err(fault) => if groups.len() == 0 {
                    fault == CameraFault::NoKill
                } else if attacker is None {
                    fault == CameraFault::NoAttackerTrack { attacker: candidate.attacker_user_id }
                } else {
                    starts == Err::<Seq<i64>, CameraFault>(fault)
                },
                Ok(plan) => {
                    &&& groups.len() > 0 && attacker is Some && starts is Ok
                    &&& plan.candidate_id@ == candidate.candidate_id@
                    &&& plan.capture_type@ == candidate.demo_context.capture_type@
                    &&& plan.primary_kill_demo_tick == groups@.last().demo_tick
                    &&& plan.primary_kill_event_tick == (if groups@.last().event_ticks.len() > 0 {
                        groups@.last().event_ticks@.last()
                    } else {
                        groups@.last().demo_tick
                    })
                    &&& plan.victim_user_id == groups@.last().victim_user_ids@.last()
                    &&& plan.attacker_user_id == candidate.attacker_user_id
                    &&& plan.activation_demo_tick == starts->Ok_0[0]
                    &&& plan.kill_shots.len() == groups.len()
                    &&& are_shots(plan.kill_shots@, groups@, starts->Ok_0, timing)
                    &&& follow_in_turn(plan.kill_shots@)
                },
            }
        }),
{
    if groups.len() == 0 {
        return Err(CameraFault::NoKill);
    }
    let ghost models = track_models(tracks@);
    let attacker_user_id = candidate.attacker_user_id;
    let attacker = match tracks.get(&attacker_user_id) {
        None => {
            assert(!models.contains_key(attacker_user_id));
            return Err(CameraFault::NoAttackerTrack { attacker: attacker_user_id });
        },
        Some(points) => points,
    };
    proof {
        assert(models.contains_key(attacker_user_id));
        assert(models[attacker_user_id] == attacker@);
    }
    let starts = match find_shot_starts(
        groups,
        candidate.clip_start_tick,
        attacker,
        tracks,
        timing,
    ) {
        Ok(starts) => starts,
        Err(fault) => return Err(fault),
    };
    proof {
        law_shots_start_in_turn(
            groups@,
            groups.len() as int,
            candidate.clip_start_tick,
            attacker@,
            models,
            timing,
        );
    }
    let mut kill_shots: Vec<KillShotPlan> = Vec::new();
    let mut i: usize = 0;
    while i < groups.len()
        invariant
            i <= groups.len(),
            starts.len() == groups.len(),
            well_grouped(groups@),
            timing.well_formed(),
            start_in_turn(starts@, groups@),
            kill_shots.len() == i,
            are_shots(kill_shots@, groups@, starts@, timing),
        decreases groups.len() - i,
    {
        let ghost before = kill_shots@;
        let start = starts[i];
        let impact = groups[i].demo_tick;
        let next: Option<i64> = if i + 1 < starts.len() {
            Some(starts[i + 1])
        } else {
            None
        };
        assert(0 <= starts@[i as int] <= groups@[i as int].demo_tick);
        let sample_ticks = list_samples(start, impact, next, timing);
        proof {
            if i + 1 < starts.len() {
                assert(groups@[i + 1 - 1].demo_tick < starts@[i + 1]);
            }
            lemma_shot_ends(sample_ticks@, start, impact, next, timing);
        }
        let end_demo_tick = sample_ticks[sample_ticks.len() - 1];
        kill_shots.push(
            KillShotPlan {
                demo_tick: impact,
                event_ticks: copy_numbers(&groups[i].event_ticks),
                victim_user_ids: copy_numbers(&groups[i].victim_user_ids),
                start_demo_tick: start,
                end_demo_tick,
                sample_ticks,
            },
        );
        proof {
            assert forall|k: int| 0 <= k < kill_shots@.len() implies is_shot(
                #[trigger] kill_shots@[k],
                groups@[k],
                starts@,
                k,
                timing,
            ) by {
                if k < before.len() {
                    assert(kill_shots@[k] == before[k]);
                }
            }
        }
        i += 1;
    }
    proof {
        law_shots_follow_in_turn(kill_shots@, groups@, starts@, timing);
        assert(groups@[groups.len() - 1].victim_user_ids.len() > 0);
    }
    let last = &groups[groups.len() - 1];
    let primary_kill_event_tick: i64 = if last.event_ticks.len() > 0 {
        last.event_ticks[last.event_ticks.len() - 1]
    } else {
        last.demo_tick
    };
    Ok(
        CinematicPlan {
            candidate_id: candidate.candidate_id.clone(),
            capture_type: candidate.demo_context.capture_type.clone(),
            primary_kill_event_tick,
            primary_kill_demo_tick: last.demo_tick,
            victim_user_id: last.victim_user_ids[last.victim_user_ids.len() - 1],
            attacker_user_id,
            activation_demo_tick: starts[0],
            kill_shots,
        },
    )
}

// ---------------------------------------------------------------------------
// The players in a shot
// ---------------------------------------------------------------------------

/// A player whose position a shot asks for at a tick: a victim, or the attacker.
#[derive(Clone, Copy, Debug, PartialEq, Eq, Structural)]
pub struct PositionQuery {
    pub victim: Option<i64>,
    pub tick: i64,
}

/// The positions of all victims at a tick.
pub open spec fn victim_queries(victims: Seq<i64>, tick: i64) -> Seq<PositionQuery> {
    Seq::new(victims.len(), |i: int| PositionQuery { victim: Some(victims[i]), tick })
}

/// The positions that a shot asks for at its ticks: the attacker as long as the
/// kill has not come, and all victims up to the kill.
pub open spec fn sample_queries(ticks: Seq<i64>, victims: Seq<i64>, impact: i64) -> Seq<
    PositionQuery,
>
    decreases ticks.len(),
{
    if ticks.len() == 0 {
        Seq::empty()
    } else {
        let tick = ticks.last();
        sample_queries(ticks.drop_last(), victims, impact).push(
            PositionQuery {
                victim: None,
                tick: if tick < impact {
                    tick
                } else {
                    impact
                },
            },
        ) + (if tick <= impact {
            victim_queries(victims, tick)
        } else {
            Seq::empty()
        })
    }
}

/// All positions that a shot asks for: the victims at the kill, then those at each
/// of its ticks.
pub open spec fn shot_queries(shot: KillShotPlan) -> Seq<PositionQuery> {
    victim_queries(shot.victim_user_ids@, shot.demo_tick) + sample_queries(
        shot.sample_ticks@,
        shot.victim_user_ids@,
        shot.demo_tick,
    )
}

fn push_victims(list: &mut Vec<PositionQuery>, victims: &Vec<i64>, tick: i64)
    ensures
        final(list)@ == old(list)@ + victim_queries(victims@, tick),
{
    let ghost start = list@;
    let ghost wanted = victim_queries(victims@, tick);
    let mut i: usize = 0;
    assert(start + wanted.take(0) =~= start);
    while i < victims.len()
        invariant
            i <= victims.len(),
            wanted == victim_queries(victims@, tick),
            list@ == start + wanted.take(i as int),
        decreases victims.len() - i,
    {
        list.push(PositionQuery { victim: Some(victims[i]), tick });
        assert(start + wanted.take(i + 1) =~= (start + wanted.take(i as int)).push(
            wanted[i as int],
        ));
        i += 1;
    }
    assert(wanted.take(victims.len() as int) =~= wanted);
}

/// All positions that a shot asks for.
pub fn position_queries(shot: &KillShotPlan) -> (out: Vec<PositionQuery>)
    ensures
        out@ == shot_queries(*shot),
{
    let victims = &shot.victim_user_ids;
    let impact = shot.demo_tick;
    let ticks = &shot.sample_ticks;
    let mut out: Vec<PositionQuery> = Vec::new();
    push_victims(&mut out, victims, impact);
    let ghost first = victim_queries(victims@, impact);
    let mut i: usize = 0;
    proof {
        assert(ticks@.take(0) =~= Seq::empty());
        assert(out@ =~= first + sample_queries(ticks@.take(0), victims@, impact));
    }
    while i < ticks.len()
        invariant
            i <= ticks.len(),
            out@ == first + sample_queries(ticks@.take(i as int), victims@, impact),
        decreases ticks.len() - i,
    {
        let ghost known = sample_queries(ticks@.take(i as int), victims@, impact);
        let tick = ticks[i];
        proof {
            assert(ticks@.take(i + 1).drop_last() =~= ticks@.take(i as int));
        }
        let own = PositionQuery {
            victim: None,
            tick: if tick < impact {
                tick
            } else {
                impact
            },
        };
        out.push(own);
        assert(out@ =~= first + known.push(own));
        if tick <= impact {
            push_victims(&mut out, victims, tick);
        }
        proof {
            let more = if tick <= impact {
                victim_queries(victims@, tick)
            } else {
                Seq::empty()
            };
            assert(out@ =~= first + (known.push(own) + more));
        }
        i += 1;
    }
    assert(ticks@.take(ticks.len() as int) =~= ticks@);
    out
}

/// The players at a tick of a shot, by the positions that it asks for.
#[derive(Debug)]
pub struct SampleSubjects {
    pub attacker: usize,
    pub victims: Vec<usize>,
}

/// Numbers from one on.
pub open spec fn counted_from(start: int, count: int) -> Seq<int> {
    Seq::new(count as nat, |i: int| start + i)
}

/// The players at each tick of a shot, by the positions that it asks for: the
/// attacker, and the victims then. Behind the kill the victims are where it hit them.
pub open spec fn subjects_at(ticks: Seq<i64>, victims: Seq<i64>, impact: i64) -> Seq<
    (int, Seq<int>),
>
    decreases ticks.len(),
{
    if ticks.len() == 0 {
        Seq::empty()
    } else {
        let earlier = ticks.drop_last();
        let own = victims.len() + sample_queries(earlier, victims, impact).len();
        subjects_at(earlier, victims, impact).push(
            (
                own as int,
                if ticks.last() <= impact {
                    counted_from(own as int + 1, victims.len() as int)
                } else {
                    counted_from(0, victims.len() as int)
                },
            ),
        )
    }
}

/// What the players at the ticks of a shot hold.
pub open spec fn subject_models(list: Seq<SampleSubjects>) -> Seq<(int, Seq<int>)> {
    Seq::new(
        list.len(),
        |i: int|
            (
                list[i].attacker as int,
                Seq::new(list[i].victims.len() as nat, |k: int| list[i].victims@[k] as int),
            ),
    )
}

proof fn lemma_samples_grow(ticks: Seq<i64>, victims: Seq<i64>, impact: i64, upto: int)
    requires
        0 <= upto <= ticks.len(),
    ensures
        sample_queries(ticks.take(upto), victims, impact).len() <= sample_queries(
            ticks,
            victims,
            impact,
        ).len(),
    decreases ticks.len(),
{
    if upto < ticks.len() {
        lemma_samples_grow(ticks.drop_last(), victims, impact, upto);
        assert(ticks.drop_last().take(upto) =~= ticks.take(upto));
    } else {
        assert(ticks.take(upto) =~= ticks);
    }
}

/// Whether the players at a tick are told by positions that a shot asks for: the
/// attacker by one of the attacker, and each victim by one of that victim.
pub open spec fn are_asked_for(
    told: (int, Seq<int>),
    queries: Seq<PositionQuery>,
    victims: Seq<i64>,
) -> bool {
    &&& 0 <= told.0 < queries.len()
    &&& queries[told.0].victim is None
    &&& told.1.len() == victims.len()
    &&& forall|j: int|
        0 <= j < victims.len() ==> 0 <= #[trigger] told.1[j] < queries.len()
            && queries[told.1[j]].victim == Some(victims[j])
}

/// At every tick of a shot the attacker and all victims are told, each by a position
/// of that player.
pub proof fn law_subjects_are_asked_for(shot: KillShotPlan)
    ensures
        ({
            let told = subjects_at(shot.sample_ticks@, shot.victim_user_ids@, shot.demo_tick);
            &&& told.len() == shot.sample_ticks.len()
            &&& forall|i: int|
                0 <= i < told.len() ==> are_asked_for(
                    #[trigger] told[i],
                    shot_queries(shot),
                    shot.victim_user_ids@,
                )
        }),
{
    lemma_subjects_are_asked_for(shot.sample_ticks@, shot.victim_user_ids@, shot.demo_tick);
}

proof fn lemma_subjects_are_asked_for(ticks: Seq<i64>, victims: Seq<i64>, impact: i64)
    ensures
        ({
            let told = subjects_at(ticks, victims, impact);
            let queries = victim_queries(victims, impact) + sample_queries(ticks, victims, impact);
            &&& told.len() == ticks.len()
            &&& forall|i: int|
                0 <= i < told.len() ==> are_asked_for(#[trigger] told[i], queries, victims)
        }),
    decreases ticks.len(),
{
    if ticks.len() > 0 {
        let earlier = ticks.drop_last();
        lemma_subjects_are_asked_for(earlier, victims, impact);
        let first = victim_queries(victims, impact);
        let known = first + sample_queries(earlier, victims, impact);
        let queries = first + sample_queries(ticks, victims, impact);
        let told = subjects_at(ticks, victims, impact);
        assert(known.len() <= queries.len());
        assert forall|k: int| 0 <= k < known.len() implies #[trigger] queries[k] == known[k] by {
            if k >= first.len() {
                let at = k - first.len();
                assert(sample_queries(ticks, victims, impact)[at] == sample_queries(
                    earlier,
                    victims,
                    impact,
                )[at]);
            }
        }
        assert forall|i: int| 0 <= i < told.len() implies are_asked_for(
            #[trigger] told[i],
            queries,
            victims,
        ) by {
            if i < earlier.len() {
                assert(told[i] == subjects_at(earlier, victims, impact)[i]);
                assert(are_asked_for(told[i], known, victims));
            } else {
                let own = known.len() as int;
                let tick = ticks.last();
                assert(told[i].0 == own);
                assert(queries[own].victim is None);
                assert forall|j: int| 0 <= j < victims.len() implies 0 <= #[trigger] told[i].1[j]
                    < queries.len() && queries[told[i].1[j]].victim == Some(victims[j]) by {
                    if tick <= impact {
                        assert(told[i].1[j] == own + 1 + j);
                        assert(queries[own + 1 + j] == victim_queries(victims, tick)[j]);
                    } else {
                        assert(told[i].1[j] == j);
                        assert(queries[j] == known[j]);
                        assert(known[j] == first[j]);
                    }
                }
            }
        }
    }
}

fn count_from(start: usize, count: usize) -> (out: Vec<usize>)
    requires
        start + count <= usize::MAX,
    ensures
        Seq::new(out.len() as nat, |k: int| out@[k] as int) == counted_from(
            start as int,
            count as int,
        ),
{
    let mut out: Vec<usize> = Vec::new();
    let mut i: usize = 0;
    while i < count
        invariant
            i <= count,
            start + count <= usize::MAX,
            out.len() == i,
            forall|k: int| 0 <= k < i ==> #[trigger] out@[k] == start + k,
        decreases count - i,
    {
        out.push(start + i);
        i += 1;
    }
    assert(Seq::new(out.len() as nat, |k: int| out@[k] as int) =~= counted_from(
        start as int,
        count as int,
    ));
    out
}

/// The players at each tick of a shot, by the positions that it asks for.
pub fn sample_subjects(shot: &KillShotPlan, queries: &Vec<PositionQuery>) -> (out: Vec<
    SampleSubjects,
>)
    requires
        queries@ == shot_queries(*shot),
    ensures
        subject_models(out@) == subjects_at(
            shot.sample_ticks@,
            shot.victim_user_ids@,
            shot.demo_tick,
        ),
{
    let ticks = &shot.sample_ticks;
    let ghost victims = shot.victim_user_ids@;
    let ghost impact = shot.demo_tick;
    let count: usize = shot.victim_user_ids.len();
    let mut out: Vec<SampleSubjects> = Vec::new();
    let mut own: usize = count;
    let mut i: usize = 0;
    proof {
        assert(ticks@.take(0) =~= Seq::empty());
        assert(subject_models(out@) =~= subjects_at(ticks@.take(0), victims, impact));
    }
    while i < ticks.len()
        invariant
            i <= ticks.len(),
            *ticks == shot.sample_ticks,
            victims == shot.victim_user_ids@,
            impact == shot.demo_tick,
            count == victims.len(),
            queries.len() == victims.len() + sample_queries(ticks@, victims, impact).len(),
            own == victims.len() + sample_queries(ticks@.take(i as int), victims, impact).len(),
            subject_models(out@) == subjects_at(ticks@.take(i as int), victims, impact),
        decreases ticks.len() - i,
    {
        let ghost before = out@;
        proof {
            assert(ticks@.take(i + 1).drop_last() =~= ticks@.take(i as int));
            lemma_samples_grow(ticks@, victims, impact, i + 1);
        }
        let seen = ticks[i] <= shot.demo_tick;
        let told = if seen {
            SampleSubjects { attacker: own, victims: count_from(own + 1, count) }
        } else {
            SampleSubjects { attacker: own, victims: count_from(0, count) }
        };
        out.push(told);
        proof {
            assert(subject_models(out@) =~= subject_models(before).push(
                (
                    told.attacker as int,
                    Seq::new(told.victims.len() as nat, |k: int| told.victims@[k] as int),
                ),
            ));
        }
        own = if seen {
            own + 1 + count
        } else {
            own + 1
        };
        i += 1;
    }
    assert(ticks@.take(ticks.len() as int) =~= ticks@);
    out
}

/// Which points answer a query.
pub open spec fn answer(
    query: PositionQuery,
    attacker: Seq<TrackPoint>,
    tracks: Map<i64, Seq<TrackPoint>>,
    max_gap: int,
) -> Result<TrackPosition, CameraFault> {
    match query.victim {
        None => position_at(attacker, query.tick, max_gap, TrackRole::Attacker),
        Some(victim) => match track_of(tracks, victim) {
            None => Err(CameraFault::NoVictimTrack { victim, tick: query.tick }),
            Some(points) => position_at(points, query.tick, max_gap, TrackRole::Victim),
        },
    }
}

/// Whether positions answer queries.
pub open spec fn answers(
    positions: Seq<TrackPosition>,
    queries: Seq<PositionQuery>,
    attacker: Seq<TrackPoint>,
    tracks: Map<i64, Seq<TrackPoint>>,
    max_gap: int,
) -> bool {
    forall|i: int|
        0 <= i < positions.len() ==> answer(#[trigger] queries[i], attacker, tracks, max_gap) == Ok::<
            TrackPosition,
            CameraFault,
        >(positions[i])
}

/// Whether a query is the first that cannot be answered.
pub open spec fn first_failure(
    at: int,
    fault: CameraFault,
    queries: Seq<PositionQuery>,
    attacker: Seq<TrackPoint>,
    tracks: Map<i64, Seq<TrackPoint>>,
    max_gap: int,
) -> bool {
    &&& 0 <= at < queries.len()
    &&& answer(queries[at], attacker, tracks, max_gap) == Err::<TrackPosition, CameraFault>(fault)
    &&& forall|k: int|
        0 <= k < at ==> answer(#[trigger] queries[k], attacker, tracks, max_gap) is Ok
}

/// Answers all queries, or tells why the first of those that cannot be answered
/// cannot.
pub fn find_positions(
    queries: &Vec<PositionQuery>,
    attacker: &Vec<TrackPoint>,
    tracks: &HashMap<i64, Vec<TrackPoint>>,
    max_gap: i64,
) -> (out: Result<Vec<TrackPosition>, CameraFault>)
    ensures
        match out {
            Ok(positions) => positions.len() == queries.len() && answers(
                positions@,
                queries@,
                attacker@,
                track_models(tracks@),
                max_gap as int,
            ),
            Err(fault) => exists|at: int| #[trigger]
                first_failure(
                    at,
                    fault,
                    queries@,
                    attacker@,
                    track_models(tracks@),
                    max_gap as int,
                ),
        },
{
    let ghost models = track_models(tracks@);
    let mut out: Vec<TrackPosition> = Vec::new();
    let mut i: usize = 0;
    while i < queries.len()
        invariant
            i <= queries.len(),
            models == track_models(tracks@),
            out.len() == i,
            answers(out@, queries@, attacker@, models, max_gap as int),
        decreases queries.len() - i,
    {
        let ghost before = out@;
        let query = queries[i];
        let found = match query.victim {
            None => find_position(attacker, query.tick, max_gap, TrackRole::Attacker),
            Some(victim) => match tracks.get(&victim) {
                None => {
                    assert(!models.contains_key(victim));
                    Err(CameraFault::NoVictimTrack { victim, tick: query.tick })
                },
                Some(points) => {
                    proof {
                        assert(models.contains_key(victim));
                        assert(models[victim] == points@);
                    }
                    find_position(points, query.tick, max_gap, TrackRole::Victim)
                },
            },
        };
        assert(found == answer(query, attacker@, models, max_gap as int));
        match found {
            Err(fault) => {
                proof {
                    assert forall|k: int| 0 <= k < i implies answer(
                        #[trigger] queries@[k],
                        attacker@,
                        models,
                        max_gap as int,
                    ) is Ok by {
                    }
                    assert(first_failure(
                        i as int,
                        fault,
                        queries@,
                        attacker@,
                        models,
                        max_gap as int,
                    ));
                }
                return Err(fault);
            },
            Ok(position) => {
                out.push(position);
                proof {
                    assert forall|k: int| 0 <= k < out@.len() implies answer(
                        #[trigger] queries@[k],
                        attacker@,
                        models,
                        max_gap as int,
                    ) == Ok::<TrackPosition, CameraFault>(out@[k]) by {
                        if k < before.len() {
                            assert(out@[k] == before[k]);
                        }
                    }
                }
            },
        }
        i += 1;
    }
    Ok(out)
}

// ---------------------------------------------------------------------------
// What the game is given
// ---------------------------------------------------------------------------

/// A path as the game's console takes it.
pub open spec fn console_path(path: Seq<char>) -> Seq<char> {
    without(replaced(path, seq!['\\'], '/'), seq!['"'])
}

/// The commands that set a camera up, given how the demo was recorded and where the
/// path of the camera is written.
pub open spec fn setup_text(capture_type: Seq<char>, xml_path: Seq<char>) -> Seq<char> {
    "mirv_campath enabled 0; mirv_campath clear; "@ + (if same_fold(capture_type, "pov"@) {
        "sv_cheats 1; thirdperson; mirv_input camera"@
    } else {
        "spec_autodirector 0; spec_mode 7; mirv_input camera"@
    }) + "; mirv_campath load \""@ + console_path(xml_path)
        + "\"; mirv_input end; mirv_campath hold 1; mirv_campath offset current#0; mirv_campath enabled 1; r_drawviewmodel 0"@
}

impl CinematicPlan {
    /// The commands that set the camera up.
    pub fn setup_commands(&self, xml_path: &str) -> (out: String)
        ensures
            out@ == setup_text(self.capture_type@, xml_path@),
    {
        proof {
            reveal_strlit("\\");
            assert("\\"@ =~= seq!['\\']);
            reveal_strlit("\"");
            assert("\""@ =~= seq!['"']);
        }
        let path = remove_chars(replace_chars(xml_path, "\\", '/').as_str(), "\"");
        let mut out = "mirv_campath enabled 0; mirv_campath clear; ".to_owned();
        if same_ignoring_case(self.capture_type.as_str(), "pov") {
            out.append("sv_cheats 1; thirdperson; mirv_input camera");
        } else {
            out.append("spec_autodirector 0; spec_mode 7; mirv_input camera");
        }
        out.append("; mirv_campath load \"");
        out.append(path.as_str());
        out.append(
            "\"; mirv_input end; mirv_campath hold 1; mirv_campath offset current#0; mirv_campath enabled 1; r_drawviewmodel 0",
        );
        out
    }
}

/// A point of the path of a camera, its numbers written out.
#[derive(Debug)]
pub struct CampathPoint {
    pub time: String,
    pub x: String,
    pub y: String,
    pub z: String,
    pub fov: String,
    pub pitch: String,
    pub yaw: String,
}

/// How a point of a path is written.
pub open spec fn point_text(point: CampathPoint) -> Seq<char> {
    "    <p t=\""@ + point.time@ + "\" x=\""@ + point.x@ + "\" y=\""@ + point.y@ + "\" z=\""@
        + point.z@ + "\" fov=\""@ + point.fov@ + "\" rx=\"0.000000\" ry=\""@ + point.pitch@
        + "\" rz=\""@ + point.yaw@ + "\"/>\n"@
}

/// How points of a path are written.
pub open spec fn points_text(points: Seq<CampathPoint>) -> Seq<char>
    decreases points.len(),
{
    if points.len() == 0 {
        Seq::empty()
    } else {
        points_text(points.drop_last()) + point_text(points.last())
    }
}

/// How the path of a camera is written.
pub open spec fn campath_text(points: Seq<CampathPoint>) -> Seq<char> {
    "<?xml version=\"1.0\" encoding=\"utf-8\"?>\n<campath hold=\"\">\n  <points>\n"@ + points_text(
        points,
    ) + "  </points>\n</campath>\n"@
}

fn write_point(point: &CampathPoint) -> (out: String)
    ensures
        out@ == point_text(*point),
{
    let mut out = "    <p t=\"".to_owned();
    out.append(point.time.as_str());
    out.append("\" x=\"");
    out.append(point.x.as_str());
    out.append("\" y=\"");
    out.append(point.y.as_str());
    out.append("\" z=\"");
    out.append(point.z.as_str());
    out.append("\" fov=\"");
    out.append(point.fov.as_str());
    out.append("\" rx=\"0.000000\" ry=\"");
    out.append(point.pitch.as_str());
    out.append("\" rz=\"");
    out.append(point.yaw.as_str());
    out.append("\"/>\n");
    out
}

/// Writes the path of a camera.
pub fn campath_xml(points: &Vec<CampathPoint>) -> (out: String)
    ensures
        out@ == campath_text(points@),
{
    let ghost head =
        "<?xml version=\"1.0\" encoding=\"utf-8\"?>\n<campath hold=\"\">\n  <points>\n"@;
    let mut out =
        "<?xml version=\"1.0\" encoding=\"utf-8\"?>\n<campath hold=\"\">\n  <points>\n".to_owned();
    let mut i: usize = 0;
    proof {
        assert(points@.take(0) =~= Seq::empty());
        assert(out@ =~= head + points_text(points@.take(0)));
    }
    while i < points.len()
        invariant
            i <= points.len(),
            out@ == head + points_text(points@.take(i as int)),
        decreases points.len() - i,
    {
        let ghost known = points_text(points@.take(i as int));
        proof {
            assert(points@.take(i + 1).drop_last() =~= points@.take(i as int));
        }
        out.append(write_point(&points[i]).as_str());
        assert(out@ =~= head + (known + point_text(points@[i as int])));
        i += 1;
    }
    assert(points@.take(points.len() as int) =~= points@);
    out.append("  </points>\n</campath>\n");
    out
}

/// The shot of a later kill starts after the hold of the kill before it where there is time,
/// and never before that kill is over.
pub proof fn law_later_shots_wait_for_the_hold(
    groups: Seq<KillGroup>,
    at: int,
    clip_start: i64,
    hold: int,
)
    requires
        0 < at < groups.len(),
        1 <= hold <= i64::MAX,
        0 < groups[at - 1].demo_tick < groups[at].demo_tick,
    ensures
        wanted_start(groups, at, clip_start, hold) > groups[at - 1].demo_tick,
        groups[at - 1].demo_tick + hold + 3 <= groups[at].demo_tick ==> wanted_start(
            groups,
            at,
            clip_start,
            hold,
        ) == groups[at - 1].demo_tick + hold,
        groups[at - 1].demo_tick + hold + 3 > groups[at].demo_tick && groups[at - 1].demo_tick + 4
            <= groups[at].demo_tick ==> wanted_start(groups, at, clip_start, hold)
            == groups[at].demo_tick - 3,
{
}

proof fn lemma_all_victims_seen(
    victims: Seq<i64>,
    tick: i64,
    requested: i64,
    tracks: Map<i64, Seq<TrackPoint>>,
    max_gap: int,
    start: i64,
    v: int,
)
    requires
        victims_start(victims, tick, requested, tracks, max_gap, start) is Ok,
        0 <= v < victims.len(),
    ensures
        tracks.contains_key(victims[v]),
        start_of(tracks[victims[v]], requested, tick, max_gap, TrackRole::Victim) is Ok,
        start_of(tracks[victims[v]], requested, tick, max_gap, TrackRole::Victim)->Ok_0
            <= victims_start(victims, tick, requested, tracks, max_gap, start)->Ok_0,
    decreases victims.len(),
{
    let rest = victims.drop_last();
    if v < rest.len() {
        assert(rest[v] == victims[v]);
        lemma_all_victims_seen(rest, tick, requested, tracks, max_gap, start, v);
    }
}

/// A shot starts only when the attacker and every victim can be seen without a break.
pub proof fn law_shots_wait_for_every_victim(
    group: KillGroup,
    requested: i64,
    attacker: Seq<TrackPoint>,
    tracks: Map<i64, Seq<TrackPoint>>,
    max_gap: int,
    v: int,
)
    requires
        shot_start(group, requested, attacker, tracks, max_gap) is Ok,
        0 <= v < group.victim_user_ids.len(),
    ensures
        tracks.contains_key(group.victim_user_ids@[v]),
        start_of(
            tracks[group.victim_user_ids@[v]],
            requested,
            group.demo_tick,
            max_gap,
            TrackRole::Victim,
        ) is Ok,
        start_of(
            tracks[group.victim_user_ids@[v]],
            requested,
            group.demo_tick,
            max_gap,
            TrackRole::Victim,
        )->Ok_0 <= shot_start(group, requested, attacker, tracks, max_gap)->Ok_0,
{
    let start = start_of(attacker, requested, group.demo_tick, max_gap, TrackRole::Attacker)->Ok_0;
    lemma_all_victims_seen(
        group.victim_user_ids@,
        group.demo_tick,
        requested,
        tracks,
        max_gap,
        start,
        v,
    );
}

proof fn lemma_first_shot(
    groups: Seq<KillGroup>,
    upto: int,
    clip_start: i64,
    attacker: Seq<TrackPoint>,
    tracks: Map<i64, Seq<TrackPoint>>,
    timing: ShotTiming,
)
    requires
        1 <= upto <= groups.len(),
        shot_starts(groups, upto, clip_start, attacker, tracks, timing) is Ok,
    ensures
        shot_starts(groups, upto, clip_start, attacker, tracks, timing)->Ok_0.len() == upto,
        groups[0].demo_tick - shot_starts(
            groups,
            upto,
            clip_start,
            attacker,
            tracks,
            timing,
        )->Ok_0[0] >= 3,
    decreases upto,
{
    if upto > 1 {
        lemma_first_shot(groups, upto - 1, clip_start, attacker, tracks, timing);
    } else {
        reveal_with_fuel(shot_starts, 2);
    }
}

/// The first kill is shown for three ticks at least before it happens.
pub proof fn law_first_kill_is_shown_coming(
    groups: Seq<KillGroup>,
    clip_start: i64,
    attacker: Seq<TrackPoint>,
    tracks: Map<i64, Seq<TrackPoint>>,
    timing: ShotTiming,
)
    requires
        groups.len() > 0,
        shot_starts(groups, groups.len() as int, clip_start, attacker, tracks, timing) is Ok,
    ensures
        groups[0].demo_tick - shot_starts(
            groups,
            groups.len() as int,
            clip_start,
            attacker,
            tracks,
            timing,
        )->Ok_0[0] >= 3,
{
    lemma_first_shot(groups, groups.len() as int, clip_start, attacker, tracks, timing);
}

/// The path of the camera has a point at the start of a shot and at the kill, points before
/// it no further apart than asked for and at least at every third of the way, none at or
/// after the next shot, and the last shot goes on after the kill.
pub proof fn law_paths_have_their_points(
    start: i64,
    impact: i64,
    next: Option<i64>,
    timing: ShotTiming,
    tick: i64,
)
    requires
        timing.well_formed(),
        0 <= start <= impact,
        impact + timing.hold_ticks <= i64::MAX,
        impact + timing.post_ticks <= i64::MAX,
        next is Some ==> next->0 > impact,
    ensures
        is_sampled(start, start, impact, next, timing),
        is_sampled(impact, start, impact, next, timing),
        1 <= sample_step(start as int, impact as int, timing.key_step as int) <= timing.key_step,
        impact - start >= 3 ==> 3 * sample_step(
            start as int,
            impact as int,
            timing.key_step as int,
        ) <= impact - start,
        is_sampled(tick, start, impact, next, timing) && tick < impact && tick + sample_step(
            start as int,
            impact as int,
            timing.key_step as int,
        ) < impact ==> is_sampled(
            (tick + sample_step(start as int, impact as int, timing.key_step as int)) as i64,
            start,
            impact,
            next,
            timing,
        ),
        is_sampled(tick, start, impact, next, timing) ==> start <= tick && (next is Some ==> tick
            < next->0),
        next is None ==> is_sampled((impact + timing.hold_ticks) as i64, start, impact, next, timing)
            && is_sampled((impact + timing.post_ticks) as i64, start, impact, next, timing),
{
    let step = sample_step(start as int, impact as int, timing.key_step as int);
    if start <= tick < impact && (tick - start) % step == 0 {
        assert((tick + step - start) % step == 0) by (nonlinear_arith)
            requires
                step > 0,
                (tick - start) % step == 0,
        ;
    }
    assert(0int % step == 0) by (nonlinear_arith)
        requires
            step > 0,
    ;
}

/// A path in a command holds no quote and no backslash.
pub proof fn law_console_paths_are_plain(path: Seq<char>)
    ensures
        !console_path(path).contains('"'),
        !console_path(path).contains('\\'),
{
    let from = seq!['\\'];
    let slashed = replaced(path, from, '/');
    assert(from[0] == '\\');
    assert(from.contains('\\'));
    assert(!slashed.contains('\\')) by {
        if slashed.contains('\\') {
            let i = choose|i: int| 0 <= i < slashed.len() && slashed[i] == '\\';
            assert(from.contains(path[i]) || slashed[i] == path[i]);
        }
    }
    assert(seq!['"'][0] == '"');
    lemma_without(slashed, seq!['"'], '"');
    lemma_without(slashed, seq!['"'], '\\');
}

proof fn lemma_without(text: Seq<char>, drop: Seq<char>, c: char)
    ensures
        drop.contains(c) || !text.contains(c) ==> !without(text, drop).contains(c),
    decreases text.len(),
{
    if text.len() > 0 {
        lemma_without(text.drop_last(), drop, c);
        if !text.contains(c) && text.drop_last().contains(c) {
            let i = choose|i: int| 0 <= i < text.len() - 1 && text.drop_last()[i] == c;
            assert(text[i] == c);
        }
        assert(text.contains(text.last())) by {
            assert(text[text.len() - 1] == text.last());
        }
    }
}

} // verus!

//! What the histories of players and projectiles tell: who lived, who was in the
//! air, and which projectile was near.
use vstd::prelude::*;
use crate::deaths::ProjectileEvidence;
use crate::floating::{
    difference, lemma_difference_rises, lemma_natural_positive, lemma_zero, natural, product, quotient, rounded, square_root, sum, Double,
};
use crate::keyed::{entries, find_value, sample_models, Keyed, Sample};
use crate::record::{
    bool_of, integer_of, lemma_value_models, lookup, text_of, value_models, vector_of, whole_of,
    Record, RecordModel, Scalar, Value, ValueModel,
};
use crate::space::tick_rate;
use crate::text::{contains_text, has_text, lower, same_text, to_lower};
use crate::tracking::{samples_of, ticks_of, StateScan};
use crate::weapons::{fired_by, projectile_matches_weapon};

verus! {

/// How far before an impact a player must have stood on the ground.
pub const AIRSHOT_GROUNDED_LOOKBACK_TICKS: i64 = 133;

/// How far before an impact the flight of a player is looked at.
pub const AIRSHOT_PRE_IMPACT_WINDOW_TICKS: i64 = 24;

/// How long a player must have been in the air.
pub const AIRSHOT_MIN_AIRBORNE_TICKS: i64 = 4;

/// How fast a player must have moved up or down.
pub const AIRSHOT_MIN_VERTICAL_SPEED: u64 = 80;

/// How far a player must have moved up or down.
pub const AIRSHOT_MIN_VERTICAL_DISPLACEMENT: u64 = 12;

// ---------------------------------------------------------------------------
// Life
// ---------------------------------------------------------------------------

/// Whether a state is of a living player. One of which nothing is said lives.
pub open spec fn alive(state: RecordModel) -> bool {
    &&& (text_of(lookup(state, "life_state"@)) matches Some(text) ==> has_text(text, "alive"@))
    &&& (whole_of(lookup(state, "health"@)) matches Some(health) ==> health > 0)
}

/// Whether a state is of a living player.
pub fn player_alive(state: &Record) -> (r: bool)
    ensures
        r == alive(state.model()),
{
    let lives = match state.string("life_state") {
        Some(text) => contains_text(text.as_str(), "alive"),
        None => true,
    };
    let healthy = match state.whole("health") {
        Some(health) => health > 0,
        None => true,
    };
    lives && healthy
}

impl StateScan {
    /// The history of a player.
    pub open spec fn history(&self, user: i64) -> Seq<(i64, RecordModel)> {
        samples_of(entries(self.player_history@), user)
    }
}

fn samples_under(list: &Vec<Keyed<Vec<Sample>>>, key: i64) -> (out: Option<&Vec<Sample>>)
    ensures
        match out {
            Some(samples) => sample_models(samples@) == samples_of(entries(list@), key),
            None => samples_of(entries(list@), key) == Seq::<(i64, RecordModel)>::empty(),
        },
{
    find_value(list, key)
}

/// The first tick after another at which a player lives.
pub open spec fn next_alive(samples: Seq<(i64, RecordModel)>, tick: i64) -> Option<i64>
    decreases samples.len(),
{
    if samples.len() == 0 {
        None
    } else if samples[0].0 > tick && alive(samples[0].1) {
        Some(samples[0].0)
    } else {
        next_alive(samples.skip(1), tick)
    }
}

/// The first tick after another at which a player lives.
pub fn next_alive_tick(scan: &StateScan, user: i64, tick: i64) -> (out: Option<i64>)
    ensures
        out == next_alive(scan.history(user), tick),
{
    let ghost all = scan.history(user);
    if let Some(samples) = samples_under(&scan.player_history, user) {
        let mut i: usize = 0;
        assert(all.skip(0) =~= all);
        while i < samples.len()
            invariant
                i <= samples.len(),
                all == sample_models(samples@),
                all == scan.history(user),
                next_alive(all, tick) == next_alive(all.skip(i as int), tick),
            decreases samples.len() - i,
        {
            assert(all.skip(i as int)[0] == all[i as int]);
            assert(all.skip(i as int).skip(1) =~= all.skip(i + 1));
            if samples[i].tick > tick && player_alive(&samples[i].state) {
                return Some(samples[i].tick);
            }
            i += 1;
        }
    }
    None
}

/// The last state before a tick.
pub open spec fn last_before(samples: Seq<(i64, RecordModel)>, tick: i64) -> Option<RecordModel>
    decreases samples.len(),
{
    if samples.len() == 0 {
        None
    } else if samples.last().0 < tick {
        Some(samples.last().1)
    } else {
        last_before(samples.drop_last(), tick)
    }
}

/// The last state of a player before a tick.
pub fn player_state_before(scan: &StateScan, user: i64, tick: i64) -> (out: Option<&Record>)
    ensures
        match out {
            Some(state) => last_before(scan.history(user), tick) == Some(state.model()),
            None => last_before(scan.history(user), tick) is None,
        },
{
    let ghost all = scan.history(user);
    if let Some(samples) = samples_under(&scan.player_history, user) {
        let mut i: usize = samples.len();
        assert(all.take(i as int) =~= all);
        while i > 0
            invariant
                i <= samples.len(),
                all == sample_models(samples@),
                all == scan.history(user),
                last_before(all, tick) == last_before(all.take(i as int), tick),
            decreases i,
        {
            assert(all.take(i as int).last() == all[i - 1]);
            assert(all.take(i as int).drop_last() =~= all.take(i - 1));
            if samples[i - 1].tick < tick {
                return Some(&samples[i - 1].state);
            }
            i -= 1;
        }
    }
    None
}

/// The last tick in a window at which a state has a flag.
pub open spec fn last_flag(
    samples: Seq<(i64, RecordModel)>,
    tick: i64,
    key: Seq<char>,
    window: i64,
) -> Option<i64>
    decreases samples.len(),
{
    if samples.len() == 0 {
        None
    } else if samples.last().0 <= tick && samples.last().0 >= tick - window && bool_of(
        lookup(samples.last().1, key),
    ) == Some(true) {
        Some(samples.last().0)
    } else {
        last_flag(samples.drop_last(), tick, key, window)
    }
}

/// The last tick in a window at which a player's state has a flag.
pub fn last_player_flag_tick(
    scan: &StateScan,
    user: i64,
    tick: i64,
    key: &str,
    window_ticks: i64,
) -> (out: Option<i64>)
    ensures
        out == last_flag(scan.history(user), tick, key@, window_ticks),
{
    let ghost all = scan.history(user);
    if let Some(samples) = samples_under(&scan.player_history, user) {
        let mut i: usize = samples.len();
        assert(all.take(i as int) =~= all);
        while i > 0
            invariant
                i <= samples.len(),
                all == sample_models(samples@),
                all == scan.history(user),
                last_flag(all, tick, key@, window_ticks) == last_flag(
                    all.take(i as int),
                    tick,
                    key@,
                    window_ticks,
                ),
            decreases i,
        {
            assert(all.take(i as int).last() == all[i - 1]);
            assert(all.take(i as int).drop_last() =~= all.take(i - 1));
            let at: i64 = samples[i - 1].tick;
            if at <= tick && at as i128 >= tick as i128 - window_ticks as i128
                && samples[i - 1].state.is_set(key) {
                return Some(at);
            }
            i -= 1;
        }
    }
    None
}

// ---------------------------------------------------------------------------
// In the air
// ---------------------------------------------------------------------------

/// Whether a state says that the player stands on the ground, or that they do
/// not; nothing where it does not say.
pub open spec fn grounded(state: RecordModel) -> Option<bool> {
    bool_of(lookup(state, "on_ground"@))
}

/// The tick up to which an impact cannot have moved the player.
pub open spec fn evidence_tick(impact: i64, guard: i64) -> int {
    let ticks = if guard > 0 {
        guard as int
    } else {
        0
    };
    if impact - ticks < i64::MIN {
        i64::MIN as int
    } else {
        impact - ticks
    }
}

/// The last tick not long before another at which a player stood on the ground.
pub open spec fn last_grounded(samples: Seq<(i64, RecordModel)>, before: int) -> Option<i64>
    decreases samples.len(),
{
    if samples.len() == 0 {
        None
    } else if samples.last().0 < before && samples.last().0 >= before
        - AIRSHOT_GROUNDED_LOOKBACK_TICKS && grounded(samples.last().1) == Some(true) {
        Some(samples.last().0)
    } else {
        last_grounded(samples.drop_last(), before)
    }
}

/// The samples after one tick and shortly before another.
pub open spec fn flight(samples: Seq<(i64, RecordModel)>, after: i64, before: int) -> Seq<
    (i64, RecordModel),
>
    decreases samples.len(),
{
    if samples.len() == 0 {
        Seq::empty()
    } else {
        let rest = flight(samples.drop_last(), after, before);
        let tick = samples.last().0;
        if tick > after && tick < before && tick >= before - AIRSHOT_PRE_IMPACT_WINDOW_TICKS {
            rest.push(samples.last())
        } else {
            rest
        }
    }
}

/// How many samples are of a player in the air.
pub open spec fn airborne_samples(samples: Seq<(i64, RecordModel)>) -> nat
    decreases samples.len(),
{
    if samples.len() == 0 {
        0
    } else {
        airborne_samples(samples.drop_last()) + if grounded(samples.last().1) == Some(false) {
            1nat
        } else {
            0
        }
    }
}

/// The size of a number.
pub open spec fn size(v: int) -> int {
    if v < 0 {
        -v
    } else {
        v
    }
}

/// The highest speed up or down.
pub open spec fn top_speed(samples: Seq<(i64, RecordModel)>) -> int
    decreases samples.len(),
{
    if samples.len() == 0 {
        0
    } else {
        let before = top_speed(samples.drop_last());
        match vector_of(lookup(samples.last().1, "velocity"@)) {
            Some(v) if size(v.2) > before => size(v.2),
            _ => before,
        }
    }
}

/// The lowest and the highest position.
pub open spec fn height_range(samples: Seq<(i64, RecordModel)>) -> Option<(int, int)>
    decreases samples.len(),
{
    if samples.len() == 0 {
        None
    } else {
        let before = height_range(samples.drop_last());
        match vector_of(lookup(samples.last().1, "position"@)) {
            Some(v) => match before {
                Some((low, high)) => Some(
                    (
                        if v.2 < low {
                            v.2
                        } else {
                            low
                        },
                        if v.2 > high {
                            v.2
                        } else {
                            high
                        },
                    ),
                ),
                None => Some((v.2, v.2)),
            },
            None => before,
        }
    }
}

/// How far positions lie apart in height.
pub open spec fn displacement(samples: Seq<(i64, RecordModel)>) -> int {
    match height_range(samples) {
        Some((low, high)) => difference(high, low),
        None => 0,
    }
}

/// Whether samples show a player who left the ground and moves up or down.
pub open spec fn flies(flight: Seq<(i64, RecordModel)>, left_ground: i64) -> bool {
    &&& flight.len() > 0
    &&& grounded(flight.last().1) != Some(true)
    &&& flight.last().0 - left_ground >= AIRSHOT_MIN_AIRBORNE_TICKS
    &&& airborne_samples(flight) >= 3
    &&& (top_speed(flight) >= natural(AIRSHOT_MIN_VERTICAL_SPEED as nat) || displacement(flight)
        >= natural(AIRSHOT_MIN_VERTICAL_DISPLACEMENT as nat))
}

/// Whether a player had left the ground before an impact could move them, and
/// moved up or down since. How high they stood does not matter.
pub open spec fn airborne_before(
    samples: Seq<(i64, RecordModel)>,
    impact: i64,
    guard: i64,
) -> bool {
    let before = evidence_tick(impact, guard);
    match last_grounded(samples, before) {
        Some(left_ground) => flies(flight(samples, left_ground, before), left_ground),
        None => false,
    }
}

/// Whether a state does not show a player who moves up or down: it is at a height,
/// where it tells one, and hardly any speed goes up or down.
pub open spec fn is_still(state: RecordModel, height: int) -> bool {
    &&& vector_of(lookup(state, "velocity"@)) matches Some(v) ==> size(v.2)
        < natural(AIRSHOT_MIN_VERTICAL_SPEED as nat)
    &&& vector_of(lookup(state, "position"@)) matches Some(v) ==> v.2 == height
}

proof fn lemma_still(samples: Seq<(i64, RecordModel)>, height: int)
    requires
        forall|i: int| 0 <= i < samples.len() ==> is_still((#[trigger] samples[i]).1, height),
    ensures
        0 <= top_speed(samples) < natural(AIRSHOT_MIN_VERTICAL_SPEED as nat),
        height_range(samples) is None || height_range(samples) == Some((height, height)),
    decreases samples.len(),
{
    lemma_zero();
    lemma_natural_positive(AIRSHOT_MIN_VERTICAL_SPEED as nat);
    if samples.len() > 0 {
        let rest = samples.drop_last();
        assert forall|i: int| 0 <= i < rest.len() implies is_still((#[trigger] rest[i]).1, height) by {
            assert(samples[i] == rest[i]);
        }
        lemma_still(rest, height);
        assert(is_still(samples[samples.len() - 1].1, height));
    }
}

proof fn lemma_flight_of(samples: Seq<(i64, RecordModel)>, after: i64, before: int)
    ensures
        forall|i: int|
            0 <= i < flight(samples, after, before).len() ==> samples.contains(
                #[trigger] flight(samples, after, before)[i],
            ),
    decreases samples.len(),
{
    if samples.len() > 0 {
        let rest = samples.drop_last();
        lemma_flight_of(rest, after, before);
        let out = flight(samples, after, before);
        let known = flight(rest, after, before);
        assert forall|i: int| 0 <= i < out.len() implies samples.contains(#[trigger] out[i]) by {
            if i < known.len() {
                assert(rest.contains(known[i]));
                let k = choose|k: int| 0 <= k < rest.len() && rest[k] == known[i];
                assert(samples[k] == out[i]);
            } else {
                assert(samples[samples.len() - 1] == out[i]);
            }
        }
    }
}

/// However high a player stands: one who does not move up or down is not in the air.
pub proof fn law_standing_still_is_not_flying(
    samples: Seq<(i64, RecordModel)>,
    height: int,
    impact: i64,
    guard: i64,
)
    requires
        forall|i: int| 0 <= i < samples.len() ==> is_still((#[trigger] samples[i]).1, height),
    ensures
        !airborne_before(samples, impact, guard),
{
    let before = evidence_tick(impact, guard);
    if let Some(left_ground) = last_grounded(samples, before) {
        let seen = flight(samples, left_ground, before);
        lemma_flight_of(samples, left_ground, before);
        assert forall|i: int| 0 <= i < seen.len() implies is_still((#[trigger] seen[i]).1, height) by {
            assert(samples.contains(seen[i]));
            let k = choose|k: int| 0 <= k < samples.len() && samples[k] == seen[i];
            assert(is_still(samples[k].1, height));
        }
        lemma_still(seen, height);
        lemma_zero();
        lemma_natural_positive(AIRSHOT_MIN_VERTICAL_DISPLACEMENT as nat);
    }
}

/// What an impact does to a player does not make them one who was in the air: what
/// is told from the tick of the evidence on changes nothing.
pub proof fn law_impact_does_not_lift(
    samples: Seq<(i64, RecordModel)>,
    later: Seq<(i64, RecordModel)>,
    impact: i64,
    guard: i64,
)
    requires
        forall|i: int|
            0 <= i < later.len() ==> (#[trigger] later[i]).0 >= evidence_tick(impact, guard),
    ensures
        airborne_before(samples + later, impact, guard) == airborne_before(samples, impact, guard),
{
    let before = evidence_tick(impact, guard);
    lemma_later_is_not_ground(samples, later, before);
    if let Some(left_ground) = last_grounded(samples, before) {
        lemma_later_is_no_flight(samples, later, left_ground, before);
    }
}

proof fn lemma_later_is_not_ground(
    samples: Seq<(i64, RecordModel)>,
    later: Seq<(i64, RecordModel)>,
    before: int,
)
    requires
        forall|i: int| 0 <= i < later.len() ==> (#[trigger] later[i]).0 >= before,
    ensures
        last_grounded(samples + later, before) == last_grounded(samples, before),
    decreases later.len(),
{
    if later.len() == 0 {
        assert(samples + later =~= samples);
    } else {
        let rest = later.drop_last();
        assert forall|i: int| 0 <= i < rest.len() implies (#[trigger] rest[i]).0 >= before by {
            assert(rest[i] == later[i]);
        }
        assert((samples + later).drop_last() =~= samples + rest);
        assert((samples + later).last() == later[later.len() - 1]);
        lemma_later_is_not_ground(samples, rest, before);
    }
}

proof fn lemma_later_is_no_flight(
    samples: Seq<(i64, RecordModel)>,
    later: Seq<(i64, RecordModel)>,
    after: i64,
    before: int,
)
    requires
        forall|i: int| 0 <= i < later.len() ==> (#[trigger] later[i]).0 >= before,
    ensures
        flight(samples + later, after, before) == flight(samples, after, before),
    decreases later.len(),
{
    if later.len() == 0 {
        assert(samples + later =~= samples);
    } else {
        let rest = later.drop_last();
        assert forall|i: int| 0 <= i < rest.len() implies (#[trigger] rest[i]).0 >= before by {
            assert(rest[i] == later[i]);
        }
        assert((samples + later).drop_last() =~= samples + rest);
        assert((samples + later).last() == later[later.len() - 1]);
        lemma_later_is_no_flight(samples, rest, after, before);
    }
}

/// Whether samples come in the order of their ticks.
pub open spec fn in_turn(samples: Seq<(i64, RecordModel)>) -> bool {
    forall|i: int, j: int|
        0 <= i <= j < samples.len() ==> (#[trigger] samples[i]).0 <= (#[trigger] samples[j]).0
}

/// Whether a sample is the last one on the ground in the two seconds before a tick.
pub open spec fn takes_off(samples: Seq<(i64, RecordModel)>, ground: int, before: int) -> bool {
    &&& 0 <= ground < samples.len()
    &&& before - 133 <= samples[ground].0 < before
    &&& grounded(samples[ground].1) == Some(true)
    &&& forall|i: int|
        ground < i < samples.len() && (#[trigger] samples[i]).0 < before ==> grounded(samples[i].1)
            != Some(true)
}

/// Whether a sample comes after one on the ground, in the 24 ticks before a tick.
pub open spec fn since_ground(
    samples: Seq<(i64, RecordModel)>,
    ground: int,
    i: int,
    before: int,
) -> bool {
    &&& 0 <= i < samples.len()
    &&& samples[ground].0 < samples[i].0
    &&& before - 24 <= samples[i].0 < before
}

/// Whether two samples show a player who moves up or down: one has a speed of 80 or
/// more, or they lie 12 units or more apart in height.
pub open spec fn moves(a: RecordModel, b: RecordModel) -> bool {
    ||| vector_of(lookup(a, "velocity"@)) matches Some(v) && (v.2 >= natural(80) || -v.2
        >= natural(80))
    ||| vector_of(lookup(a, "position"@)) matches Some(v) && vector_of(
        lookup(b, "position"@),
    ) matches Some(w) && difference(v.2, w.2) >= natural(12)
}

/// Whether samples tell of a flight before a tick: one on the ground, after which the
/// player is seen off the ground at least three times, four ticks or more after it at
/// the latest, and moves up or down.
pub open spec fn tells_flight(
    samples: Seq<(i64, RecordModel)>,
    before: int,
    ground: int,
    seen: Seq<int>,
    late: int,
    high: int,
    low: int,
) -> bool {
    &&& takes_off(samples, ground, before)
    &&& seen.len() >= 3
    &&& forall|i: int, j: int| 0 <= i < j < seen.len() ==> #[trigger] seen[i] < #[trigger] seen[j]
    &&& forall|i: int|
        0 <= i < seen.len() ==> since_ground(samples, ground, #[trigger] seen[i], before)
            && grounded(samples[seen[i]].1) == Some(false)
    &&& since_ground(samples, ground, late, before)
    &&& samples[late].0 - samples[ground].0 >= 4
    &&& since_ground(samples, ground, high, before)
    &&& since_ground(samples, ground, low, before)
    &&& moves(samples[high].1, samples[low].1)
}

proof fn lemma_takes_off(samples: Seq<(i64, RecordModel)>, ground: int, before: int)
    requires
        takes_off(samples, ground, before),
    ensures
        last_grounded(samples, before) == Some(samples[ground].0),
    decreases samples.len(),
{
    if ground < samples.len() - 1 {
        let rest = samples.drop_last();
        assert forall|i: int|
            ground < i < rest.len() && (#[trigger] rest[i]).0 < before implies grounded(rest[i].1)
            != Some(true) by {
            assert(samples[i] == rest[i]);
        }
        lemma_takes_off(rest, ground, before);
        assert(samples.last() == samples[samples.len() - 1]);
    }
}

proof fn lemma_took_off(samples: Seq<(i64, RecordModel)>, before: int) -> (ground: int)
    requires
        last_grounded(samples, before) is Some,
    ensures
        0 <= ground < samples.len(),
        last_grounded(samples, before) == Some(samples[ground].0),
        before - 133 <= samples[ground].0 < before,
        grounded(samples[ground].1) == Some(true),
        forall|i: int|
            ground < i < samples.len() && before - 133 <= (#[trigger] samples[i]).0 < before
                ==> grounded(samples[i].1) != Some(true),
    decreases samples.len(),
{
    let last = samples.len() - 1;
    if samples[last].0 < before && samples[last].0 >= before - 133 && grounded(samples[last].1)
        == Some(true) {
        last
    } else {
        let rest = samples.drop_last();
        let ground = lemma_took_off(rest, before);
        assert(samples[ground] == rest[ground]);
        assert forall|i: int|
            ground < i < samples.len() && before - 133 <= (#[trigger] samples[i]).0
                < before implies grounded(samples[i].1) != Some(true) by {
            if i < last {
                assert(rest[i] == samples[i]);
            }
        }
        ground
    }
}

/// Whether a tick lies after one and in the 24 ticks before another.
spec fn within(tick: i64, after: i64, before: int) -> bool {
    after < tick && before - 24 <= tick < before
}

proof fn lemma_counts(
    samples: Seq<(i64, RecordModel)>,
    after: i64,
    before: int,
    picks: Seq<int>,
)
    requires
        forall|i: int, j: int| 0 <= i < j < picks.len() ==> #[trigger] picks[i] < #[trigger] picks[j],
        forall|i: int|
            0 <= i < picks.len() ==> 0 <= #[trigger] picks[i] < samples.len() && within(
                samples[picks[i]].0,
                after,
                before,
            ) && grounded(samples[picks[i]].1) == Some(false),
    ensures
        airborne_samples(flight(samples, after, before)) >= picks.len(),
    decreases samples.len(),
{
    if samples.len() > 0 && picks.len() > 0 {
        let rest = samples.drop_last();
        let n = picks.len() - 1;
        let fewer = if picks[n] == samples.len() - 1 {
            picks.drop_last()
        } else {
            picks
        };
        assert forall|i: int| 0 <= i < fewer.len() implies 0 <= #[trigger] fewer[i] < rest.len()
            && within(rest[fewer[i]].0, after, before) && grounded(rest[fewer[i]].1) == Some(
            false,
        ) by {
            assert(fewer[i] == picks[i]);
            if i < n {
                assert(picks[i] < picks[n]);
            }
            assert(rest[fewer[i]] == samples[picks[i]]);
        }
        lemma_counts(rest, after, before, fewer);
        let seen = flight(rest, after, before);
        assert(seen.push(samples.last()).drop_last() =~= seen);
        if picks[n] == samples.len() - 1 {
            assert(within(samples.last().0, after, before));
        }
    } else if picks.len() > 0 {
        assert(0 <= picks[0] < samples.len());
    }
}

proof fn lemma_counted(samples: Seq<(i64, RecordModel)>, after: i64, before: int) -> (picks: Seq<int>)
    ensures
        picks.len() == airborne_samples(flight(samples, after, before)),
        forall|i: int, j: int| 0 <= i < j < picks.len() ==> #[trigger] picks[i] < #[trigger] picks[j],
        forall|i: int|
            0 <= i < picks.len() ==> 0 <= #[trigger] picks[i] < samples.len() && within(
                samples[picks[i]].0,
                after,
                before,
            ) && grounded(samples[picks[i]].1) == Some(false),
    decreases samples.len(),
{
    if samples.len() == 0 {
        Seq::empty()
    } else {
        let rest = samples.drop_last();
        let fewer = lemma_counted(rest, after, before);
        let seen = flight(rest, after, before);
        assert(seen.push(samples.last()).drop_last() =~= seen);
        assert forall|i: int| 0 <= i < fewer.len() implies 0 <= #[trigger] fewer[i] < samples.len()
            && within(samples[fewer[i]].0, after, before) && grounded(samples[fewer[i]].1)
            == Some(false) by {
            assert(rest[fewer[i]] == samples[fewer[i]]);
        }
        if within(samples.last().0, after, before) && grounded(samples.last().1) == Some(false) {
            fewer.push(samples.len() - 1)
        } else {
            fewer
        }
    }
}

proof fn lemma_shows(samples: Seq<(i64, RecordModel)>, after: i64, before: int, i: int)
    requires
        0 <= i < samples.len(),
        within(samples[i].0, after, before),
    ensures
        flight(samples, after, before).contains(samples[i]),
        in_turn(samples) ==> flight(samples, after, before).last().0 >= samples[i].0,
    decreases samples.len(),
{
    let rest = samples.drop_last();
    let seen = flight(rest, after, before);
    let all = flight(samples, after, before);
    if i < rest.len() {
        assert(rest[i] == samples[i]);
        if in_turn(samples) {
            assert forall|a: int, b: int| 0 <= a <= b < rest.len() implies (#[trigger] rest[a]).0
                <= (#[trigger] rest[b]).0 by {
                assert(rest[a] == samples[a] && rest[b] == samples[b]);
            }
            assert(samples[i].0 <= samples[samples.len() - 1].0);
        }
        lemma_shows(rest, after, before, i);
        let k = choose|k: int| 0 <= k < seen.len() && seen[k] == samples[i];
        assert(all[k] == samples[i]);
    } else {
        assert(all[all.len() - 1] == samples[i]);
    }
}

proof fn lemma_shown(samples: Seq<(i64, RecordModel)>, after: i64, before: int, k: int) -> (i: int)
    requires
        0 <= k < flight(samples, after, before).len(),
    ensures
        0 <= i < samples.len(),
        within(samples[i].0, after, before),
        flight(samples, after, before)[k] == samples[i],
    decreases samples.len(),
{
    let rest = samples.drop_last();
    let seen = flight(rest, after, before);
    if k < seen.len() {
        let i = lemma_shown(rest, after, before, k);
        assert(rest[i] == samples[i]);
        i
    } else {
        samples.len() - 1
    }
}

proof fn lemma_top_speed(samples: Seq<(i64, RecordModel)>, k: int)
    requires
        0 <= k < samples.len(),
    ensures
        vector_of(lookup(samples[k].1, "velocity"@)) matches Some(v) ==> size(v.2) <= top_speed(
            samples,
        ),
    decreases samples.len(),
{
    let rest = samples.drop_last();
    if k < rest.len() {
        assert(rest[k] == samples[k]);
        lemma_top_speed(rest, k);
    }
}

proof fn lemma_has_top_speed(samples: Seq<(i64, RecordModel)>) -> (k: int)
    requires
        top_speed(samples) > 0,
    ensures
        0 <= k < samples.len(),
        vector_of(lookup(samples[k].1, "velocity"@)) matches Some(v) && size(v.2) == top_speed(
            samples,
        ),
    decreases samples.len(),
{
    let rest = samples.drop_last();
    if top_speed(rest) == top_speed(samples) {
        let k = lemma_has_top_speed(rest);
        assert(rest[k] == samples[k]);
        k
    } else {
        samples.len() - 1
    }
}

proof fn lemma_heights(samples: Seq<(i64, RecordModel)>, k: int)
    requires
        0 <= k < samples.len(),
    ensures
        vector_of(lookup(samples[k].1, "position"@)) matches Some(v) ==> height_range(
            samples,
        ) matches Some((low, high)) && low <= v.2 <= high,
    decreases samples.len(),
{
    let rest = samples.drop_last();
    if k < rest.len() {
        assert(rest[k] == samples[k]);
        lemma_heights(rest, k);
    }
}

proof fn lemma_has_heights(samples: Seq<(i64, RecordModel)>) -> (ends: (int, int))
    requires
        height_range(samples) is Some,
    ensures
        0 <= ends.0 < samples.len(),
        0 <= ends.1 < samples.len(),
        vector_of(lookup(samples[ends.0].1, "position"@)) matches Some(v) && v.2 == (
        height_range(samples)->0).0,
        vector_of(lookup(samples[ends.1].1, "position"@)) matches Some(v) && v.2 == (
        height_range(samples)->0).1,
    decreases samples.len(),
{
    let rest = samples.drop_last();
    let last = samples.len() - 1;
    if let Some((least, most)) = height_range(rest) {
        let (a, b) = lemma_has_heights(rest);
        assert(rest[a] == samples[a]);
        assert(rest[b] == samples[b]);
        let (low, high) = height_range(samples)->0;
        (
            if low == least {
                a
            } else {
                last
            },
            if high == most {
                b
            } else {
                last
            },
        )
    } else {
        (last, last)
    }
}

/// A player who left the ground in the two seconds before the evidence, was seen
/// off the ground three times or more in its last 24 ticks, four ticks or more
/// after they left it, and moves up or down, is in the air. How often more they were
/// seen does not matter.
pub proof fn law_flying_player_is_airborne(
    samples: Seq<(i64, RecordModel)>,
    impact: i64,
    guard: i64,
    ground: int,
    seen: Seq<int>,
    late: int,
    high: int,
    low: int,
)
    requires
        0 <= guard,
        impact - guard >= i64::MIN,
        in_turn(samples),
        tells_flight(samples, impact - guard, ground, seen, late, high, low),
    ensures
        airborne_before(samples, impact, guard),
{
    let before = impact - guard;
    let after = samples[ground].0;
    let shown = flight(samples, after, before);
    lemma_takes_off(samples, ground, before);
    lemma_counts(samples, after, before, seen);
    lemma_shows(samples, after, before, late);
    let end = lemma_shown(samples, after, before, shown.len() - 1);
    assert(end > ground) by {
        if end <= ground {
            assert(samples[end].0 <= samples[ground].0);
        }
    }
    lemma_shows(samples, after, before, high);
    lemma_shows(samples, after, before, low);
    let a = choose|k: int| 0 <= k < shown.len() && shown[k] == samples[high];
    let b = choose|k: int| 0 <= k < shown.len() && shown[k] == samples[low];
    lemma_top_speed(shown, a);
    lemma_heights(shown, a);
    lemma_heights(shown, b);
    if let Some(v) = vector_of(lookup(samples[high].1, "position"@)) {
        if let Some(w) = vector_of(lookup(samples[low].1, "position"@)) {
            let (least, most) = height_range(shown)->0;
            lemma_difference_rises(v.2 - w.2, most - least);
        }
    }
}

/// A player in the air left the ground in the two seconds before the evidence, was
/// seen off the ground at least three times in its last 24 ticks, four ticks or more
/// after they left it, and moves up or down.
pub proof fn law_airborne_player_flew(samples: Seq<(i64, RecordModel)>, impact: i64, guard: i64) -> (
    witness: (int, Seq<int>, int, int, int))
    requires
        0 <= guard,
        impact - guard >= i64::MIN,
        in_turn(samples),
        airborne_before(samples, impact, guard),
    ensures
        ({
            let (ground, seen, late, high, low) = witness;
            tells_flight(samples, impact - guard, ground, seen, late, high, low)
        }),
{
    let before = impact - guard;
    let ground = lemma_took_off(samples, before);
    let after = samples[ground].0;
    let shown = flight(samples, after, before);
    assert forall|i: int|
        ground < i < samples.len() && (#[trigger] samples[i]).0 < before implies grounded(
        samples[i].1,
    ) != Some(true) by {
        assert(samples[ground].0 <= samples[i].0);
    }
    let seen = lemma_counted(samples, after, before);
    let late = lemma_shown(samples, after, before, shown.len() - 1);
    lemma_zero();
    lemma_natural_positive(80);
    lemma_natural_positive(12);
    if top_speed(shown) >= natural(80) {
        let k = lemma_has_top_speed(shown);
        let high = lemma_shown(samples, after, before, k);
        (ground, seen, late, high, high)
    } else {
        let (a, b) = lemma_has_heights(shown);
        let low = lemma_shown(samples, after, before, a);
        let high = lemma_shown(samples, after, before, b);
        (ground, seen, late, high, low)
    }
}

/// Seeing more of a flight does not end it: a player in the air stays so where one
/// more sample shows them off the ground, between the last tick on the ground and the
/// evidence.
pub proof fn law_more_flight_stays_airborne(
    samples: Seq<(i64, RecordModel)>,
    impact: i64,
    guard: i64,
    at: int,
    tick: i64,
    state: RecordModel,
)
    requires
        0 <= guard,
        impact - guard >= i64::MIN,
        in_turn(samples),
        0 <= at <= samples.len(),
        in_turn(samples.insert(at, (tick, state))),
        grounded(state) == Some(false),
        airborne_before(samples, impact, guard),
    ensures
        airborne_before(samples.insert(at, (tick, state)), impact, guard),
{
    let (ground, seen, late, high, low) = law_airborne_player_flew(samples, impact, guard);
    lemma_flew_more(samples, impact - guard, ground, seen, late, high, low, at, (tick, state));
    law_flying_player_is_airborne(
        samples.insert(at, (tick, state)),
        impact,
        guard,
        moved(ground, at),
        Seq::new(seen.len(), |i: int| moved(seen[i], at)),
        moved(late, at),
        moved(high, at),
        moved(low, at),
    );
}

/// Where a sample stands once another is put in at a place.
spec fn moved(i: int, at: int) -> int {
    if i < at {
        i
    } else {
        i + 1
    }
}

proof fn lemma_flew_more(
    samples: Seq<(i64, RecordModel)>,
    before: int,
    ground: int,
    seen: Seq<int>,
    late: int,
    high: int,
    low: int,
    at: int,
    sample: (i64, RecordModel),
)
    requires
        tells_flight(samples, before, ground, seen, late, high, low),
        0 <= at <= samples.len(),
        grounded(sample.1) == Some(false),
    ensures
        tells_flight(
            samples.insert(at, sample),
            before,
            moved(ground, at),
            Seq::new(seen.len(), |i: int| moved(seen[i], at)),
            moved(late, at),
            moved(high, at),
            moved(low, at),
        ),
{
    let more = samples.insert(at, sample);
    let kept = Seq::new(seen.len(), |i: int| moved(seen[i], at));
    let g = moved(ground, at);
    assert forall|i: int| 0 <= i < samples.len() implies more[#[trigger] moved(i, at)]
        == samples[i] by {
    }
    assert forall|i: int|
        g < i < more.len() && (#[trigger] more[i]).0 < before implies grounded(more[i].1) != Some(
        true,
    ) by {
        if i < at {
            assert(more[i] == samples[i]);
        } else if i > at {
            assert(more[i] == samples[i - 1]);
        }
    }
    assert forall|i: int| 0 <= i < kept.len() implies since_ground(
        more,
        g,
        #[trigger] kept[i],
        before,
    ) && grounded(more[kept[i]].1) == Some(false) by {
        assert(since_ground(samples, ground, seen[i], before));
        assert(kept[i] == moved(seen[i], at));
    }
    assert forall|i: int, j: int| 0 <= i < j < kept.len() implies #[trigger] kept[i]
        < #[trigger] kept[j] by {
        assert(seen[i] < seen[j]);
    }
}

fn find_grounded(samples: &Vec<Sample>, before: i64) -> (out: Option<i64>)
    ensures
        out == last_grounded(sample_models(samples@), before as int),
{
    let ghost all = sample_models(samples@);
    let mut i: usize = samples.len();
    assert(all.take(i as int) =~= all);
    while i > 0
        invariant
            i <= samples.len(),
            all == sample_models(samples@),
            last_grounded(all, before as int) == last_grounded(all.take(i as int), before as int),
        decreases i,
    {
        assert(all.take(i as int).last() == all[i - 1]);
        assert(all.take(i as int).drop_last() =~= all.take(i - 1));
        let at: i64 = samples[i - 1].tick;
        if at < before && at as i128 >= before as i128 - AIRSHOT_GROUNDED_LOOKBACK_TICKS as i128
            && samples[i - 1].state.is_set("on_ground") {
            return Some(at);
        }
        i -= 1;
    }
    None
}

/// What was seen of a flight so far.
struct FlightTally {
    last: Option<usize>,
    airborne: usize,
    speed: Double,
    range: Option<(Double, Double)>,
}

fn widen_range(range: Option<(Double, Double)>, z: Double) -> (out: (Double, Double))
    ensures
        (out.0.value(), out.1.value()) == (match range {
            Some((low, high)) => (
                if z.value() < low.value() {
                    z.value()
                } else {
                    low.value()
                },
                if z.value() > high.value() {
                    z.value()
                } else {
                    high.value()
                },
            ),
            None => (z.value(), z.value()),
        }),
{
    match range {
        Some((low, high)) => (
            if z.less(low) {
                z
            } else {
                low
            },
            if high.less(z) {
                z
            } else {
                high
            },
        ),
        None => (z, z),
    }
}

fn range_height(range: Option<(Double, Double)>) -> (out: Double)
    ensures
        out.value() == (match range {
            Some((low, high)) => difference(high.value(), low.value()),
            None => 0,
        }),
{
    match range {
        Some((low, high)) => high.minus(low),
        None => Double::zero(),
    }
}

impl FlightTally {
    spec fn of(&self, samples: Seq<Sample>, seen: Seq<(i64, RecordModel)>) -> bool {
        &&& (match self.last {
            Some(at) => at < samples.len() && seen.len() > 0 && seen.last() == (
                samples[at as int].tick,
                samples[at as int].state.model(),
            ),
            None => seen.len() == 0,
        })
        &&& self.airborne == airborne_samples(seen)
        &&& self.airborne <= seen.len()
        &&& self.speed.value() == top_speed(seen)
        &&& (match self.range {
            Some((low, high)) => height_range(seen) == Some((low.value(), high.value())),
            None => height_range(seen) is None,
        })
    }

    fn take(
        &mut self,
        samples: &Vec<Sample>,
        at: usize,
        Ghost(seen): Ghost<Seq<(i64, RecordModel)>>,
    )
        requires
            at < samples.len(),
            old(self).of(samples@, seen),
            seen.len() < usize::MAX,
        ensures
            final(self).of(
                samples@,
                seen.push((samples@[at as int].tick, samples@[at as int].state.model())),
            ),
    {
        let state = &samples[at].state;
        proof {
            let next = seen.push((samples@[at as int].tick, state.model()));
            assert(next.drop_last() =~= seen);
        }
        self.last = Some(at);
        if let Some(on_ground) = state.flag("on_ground") {
            if !on_ground {
                self.airborne = self.airborne + 1;
            }
        }
        if let Some((_, _, z)) = state.vector("velocity") {
            let speed = z.without_sign();
            if self.speed.less(speed) {
                self.speed = speed;
            }
        }
        if let Some((_, _, z)) = state.vector("position") {
            self.range = Some(widen_range(self.range, z));
        }
    }
}

proof fn lemma_flight_len(samples: Seq<(i64, RecordModel)>, after: i64, before: int)
    ensures
        flight(samples, after, before).len() <= samples.len(),
    decreases samples.len(),
{
    if samples.len() > 0 {
        lemma_flight_len(samples.drop_last(), after, before);
    }
}

/// Whether a player had left the ground before an impact could move them, and
/// moved up or down since.
pub fn player_airborne_before_impact(
    scan: &StateScan,
    user: i64,
    impact_tick: i64,
    impact_guard_ticks: i64,
) -> (r: bool)
    ensures
        r == airborne_before(scan.history(user), impact_tick, impact_guard_ticks),
{
    let ticks: i128 = if impact_guard_ticks > 0 {
        impact_guard_ticks as i128
    } else {
        0
    };
    let wide: i128 = impact_tick as i128 - ticks;
    let before: i64 = if wide < i64::MIN as i128 {
        i64::MIN
    } else {
        wide as i64
    };
    let samples = match samples_under(&scan.player_history, user) {
        Some(samples) => samples,
        None => return false,
    };
    let left_ground: i64 = match find_grounded(samples, before) {
        Some(tick) => tick,
        None => return false,
    };
    let ghost all = sample_models(samples@);
    let mut tally = FlightTally { last: None, airborne: 0, speed: Double::zero(), range: None };
    let mut i: usize = 0;
    assert(flight(all.take(0), left_ground, before as int) =~= Seq::empty());
    while i < samples.len()
        invariant
            i <= samples.len(),
            all == sample_models(samples@),
            tally.of(samples@, flight(all.take(i as int), left_ground, before as int)),
        decreases samples.len() - i,
    {
        proof {
            assert(all.take(i + 1).drop_last() =~= all.take(i as int));
            assert(all.take(i + 1).last() == all[i as int]);
            lemma_flight_len(all.take(i as int), left_ground, before as int);
        }
        let tick: i64 = samples[i].tick;
        if tick > left_ground && tick < before && tick as i128 >= before as i128
            - AIRSHOT_PRE_IMPACT_WINDOW_TICKS as i128 {
            tally.take(
                samples,
                i,
                Ghost(flight(all.take(i as int), left_ground, before as int)),
            );
        }
        i += 1;
    }
    assert(all.take(samples.len() as int) =~= all);
    let last: usize = match tally.last {
        Some(last) => last,
        None => return false,
    };
    if samples[last].state.is_set("on_ground") {
        return false;
    }
    if (samples[last].tick as i128 - left_ground as i128) < AIRSHOT_MIN_AIRBORNE_TICKS as i128 {
        return false;
    }
    if tally.airborne < 3 {
        return false;
    }
    !tally.speed.less(Double::natural(AIRSHOT_MIN_VERTICAL_SPEED)) || !range_height(
        tally.range,
    ).less(Double::natural(AIRSHOT_MIN_VERTICAL_DISPLACEMENT))
}

// ---------------------------------------------------------------------------
// Projectiles
// ---------------------------------------------------------------------------

/// A place.
pub type Place = (int, int, int);

/// The square of a difference.
pub open spec fn squared_gap(a: int, b: int) -> int {
    product(difference(a, b), difference(a, b))
}

/// How far apart two places are.
pub open spec fn distance(a: Place, b: Place) -> nat {
    square_root(
        sum(sum(squared_gap(a.0, b.0), squared_gap(a.1, b.1)), squared_gap(a.2, b.2)) as nat,
    )
}

fn square_gap(a: Double, b: Double) -> (out: Double)
    ensures
        out.value() == squared_gap(a.value(), b.value()),
        out.value() >= 0,
{
    let gap = a.minus(b);
    gap.squared()
}

fn measure(a: (Double, Double, Double), b: (Double, Double, Double)) -> (out: Double)
    ensures
        out.value() == distance(spot(a), spot(b)),
{
    square_gap(a.0, b.0).plus(square_gap(a.1, b.1)).plus(square_gap(a.2, b.2)).root()
}

/// The place that a state tells.
pub open spec fn place_of(state: RecordModel) -> Option<Place> {
    vector_of(lookup(state, "position"@))
}

/// How much higher than another state a state is, and how far from it, seen from
/// above.
pub open spec fn offsets(from: RecordModel, to: RecordModel) -> Option<(int, nat)> {
    match (place_of(from), place_of(to)) {
        (Some(a), Some(b)) => Some(
            (
                difference(b.2, a.2),
                square_root(sum(squared_gap(b.0, a.0), squared_gap(b.1, a.1)) as nat),
            ),
        ),
        _ => None,
    }
}

/// How much higher than the attacker the victim was, and how far away, seen from
/// above. How high both were in the world plays no part.
pub fn airshot_offsets(attacker: &Record, victim: &Record) -> (out: Option<(Double, Double)>)
    ensures
        match out {
            Some(v) => offsets(attacker.model(), victim.model()) == Some(
                (v.0.value(), v.1.value() as nat),
            ) && v.1.value() >= 0,
            None => offsets(attacker.model(), victim.model()) is None,
        },
{
    let a = match attacker.vector("position") {
        Some(place) => place,
        None => return None,
    };
    let b = match victim.vector("position") {
        Some(place) => place,
        None => return None,
    };
    Some((b.2.minus(a.2), square_gap(b.0, a.0).plus(square_gap(b.1, a.1)).root()))
}

/// The last place that samples tell.
pub open spec fn last_place(samples: Seq<(i64, RecordModel)>) -> Option<Place>
    decreases samples.len(),
{
    if samples.len() == 0 {
        None
    } else {
        match place_of(samples.last().1) {
            Some(place) => Some(place),
            None => last_place(samples.drop_last()),
        }
    }
}

/// The length of the path through samples.
pub open spec fn path_length(samples: Seq<(i64, RecordModel)>) -> int
    decreases samples.len(),
{
    if samples.len() == 0 {
        0
    } else {
        let before = path_length(samples.drop_last());
        match (last_place(samples.drop_last()), place_of(samples.last().1)) {
            (Some(a), Some(b)) => sum(before, distance(b, a) as int),
            _ => before,
        }
    }
}

/// The samples up to a tick.
pub open spec fn up_to(samples: Seq<(i64, RecordModel)>, tick: int) -> Seq<(i64, RecordModel)>
    decreases samples.len(),
{
    if samples.len() == 0 {
        Seq::empty()
    } else {
        let before = up_to(samples.drop_last(), tick);
        if samples.last().0 <= tick {
            before.push(samples.last())
        } else {
            before
        }
    }
}

/// The sample nearest to a tick, by position; the first of several.
pub open spec fn nearest_sample(samples: Seq<(i64, RecordModel)>, tick: i64) -> Option<int>
    decreases samples.len(),
{
    if samples.len() == 0 {
        None
    } else {
        match nearest_sample(samples.drop_last(), tick) {
            None => Some(samples.len() - 1),
            Some(best) => if size(samples.last().0 - tick) < size(samples[best].0 - tick) {
                Some(samples.len() - 1)
            } else {
                Some(best)
            },
        }
    }
}

/// The first of some ticks, not before another.
pub open spec fn first_from(ticks: Seq<i64>, from: i64) -> Option<i64>
    decreases ticks.len(),
{
    if ticks.len() == 0 {
        None
    } else {
        let before = first_from(ticks.drop_last(), from);
        if ticks.last() < from {
            before
        } else {
            match before {
                Some(best) if best <= ticks.last() => Some(best),
                _ => Some(ticks.last()),
            }
        }
    }
}

/// A projectile that can have made a kill.
pub struct ProjectileModel {
    pub entity_id: i64,
    pub projectile_type: Seq<char>,
    pub launcher_handle: Option<int>,
    pub distance: int,
    pub launch_tick: i64,
    pub impact_tick: i64,
    pub flight_ms: int,
    pub path_length: int,
    pub airshot_eligible: bool,
}

impl ProjectileEvidence {
    /// The evidence with its texts as sequences.
    pub open spec fn model(&self) -> ProjectileModel {
        ProjectileModel {
            entity_id: self.entity_id,
            projectile_type: self.projectile_type@,
            launcher_handle: match self.launcher_handle {
                Some(handle) => Some(handle as int),
                None => None,
            },
            distance: self.distance.value(),
            launch_tick: self.launch_tick,
            impact_tick: self.impact_tick,
            flight_ms: self.flight_ms as int,
            path_length: self.path_length.value(),
            airshot_eligible: self.airshot_eligible,
        }
    }
}

/// What a kill asks of a projectile.
pub struct ShotSought {
    pub victim: Place,
    pub handles: Seq<i64>,
    pub weapon: Seq<char>,
    pub tick: i64,
}

/// The kind of a projectile, in lower case.
pub open spec fn shot_kind(state: RecordModel) -> Seq<char> {
    match text_of(lookup(state, "projectile_type"@)) {
        Some(text) => lower(text),
        None => lower(Seq::empty()),
    }
}

/// The launcher of a projectile; zero where it is not told.
pub open spec fn launcher_of(state: RecordModel) -> int {
    match integer_of(lookup(state, "launcher_handle"@)) {
        Some(handle) => handle,
        None => 0,
    }
}

/// Whether a projectile was about at the time of a kill and came from the weapon
/// that made it.
pub open spec fn suits(samples: Seq<(i64, RecordModel)>, sought: ShotSought) -> bool {
    match nearest_sample(samples, sought.tick) {
        Some(at) => {
            &&& size(samples[at].0 - sought.tick) <= 6
            &&& sought.handles.contains(launcher_of(samples[at].1) as i64)
            &&& fired_by(shot_kind(samples[at].1), sought.weapon)
        },
        None => false,
    }
}

/// How long a number of ticks lasts, rounded to milliseconds.
pub open spec fn rounded_ms(ticks: int) -> int {
    if ticks > 0 {
        rounded(product(quotient(natural(ticks as nat), tick_rate()) as int, natural(1000) as int) as nat)
    } else {
        0
    }
}

/// Whether a projectile flew: every one but a pipe does, and a pipe that moved.
pub open spec fn flew(kind: Seq<char>, samples: Seq<(i64, RecordModel)>) -> bool {
    kind != "pipe"@ || path_length(samples) >= natural(2) || displacement(samples) >= natural(6)
}

/// What is told of a suitable projectile that was seen at a place.
pub open spec fn shot_told(
    entity: i64,
    samples: Seq<(i64, RecordModel)>,
    removals: Seq<i64>,
    sought: ShotSought,
) -> ProjectileModel {
    let at = nearest_sample(samples, sought.tick)->0;
    let state = samples[at].1;
    let usable = up_to(samples, sought.tick + 5);
    let launch = if usable.len() > 0 {
        usable[0].0
    } else {
        samples[at].0
    };
    let impact = match first_from(removals, launch) {
        Some(tick) => tick,
        None => sought.tick,
    };
    ProjectileModel {
        entity_id: entity,
        projectile_type: shot_kind(state),
        launcher_handle: integer_of(lookup(state, "launcher_handle"@)),
        distance: distance(place_of(state)->0, sought.victim) as int,
        launch_tick: launch,
        impact_tick: impact,
        flight_ms: rounded_ms(impact - launch),
        path_length: path_length(usable),
        airshot_eligible: flew(shot_kind(state), usable),
    }
}

/// Whether a suitable projectile was near enough to the victim.
pub open spec fn hits(samples: Seq<(i64, RecordModel)>, sought: ShotSought) -> bool {
    suits(samples, sought) && match place_of(samples[nearest_sample(samples, sought.tick)->0].1) {
        Some(place) => distance(place, sought.victim) <= natural(220),
        None => false,
    }
}

/// Whether a suitable projectile was seen at no place.
pub open spec fn unseen(samples: Seq<(i64, RecordModel)>, sought: ShotSought) -> bool {
    suits(samples, sought) && place_of(
        samples[nearest_sample(samples, sought.tick)->0].1,
    ) is None
}

/// The projectile nearest to the victim; the first of several.
pub open spec fn nearest_shot(
    tracks: Seq<(i64, Seq<(i64, RecordModel)>)>,
    removals: Seq<(i64, Seq<i64>)>,
    sought: ShotSought,
) -> Option<ProjectileModel>
    decreases tracks.len(),
{
    if tracks.len() == 0 {
        None
    } else {
        let before = nearest_shot(tracks.drop_last(), removals, sought);
        let (entity, samples) = tracks.last();
        if hits(samples, sought) {
            let shot = shot_told(entity, samples, ticks_of(removals, entity), sought);
            match before {
                Some(best) if best.distance <= shot.distance => Some(best),
                _ => Some(shot),
            }
        } else {
            before
        }
    }
}

/// Whether any suitable projectile was seen at no place.
pub open spec fn any_unseen(
    tracks: Seq<(i64, Seq<(i64, RecordModel)>)>,
    sought: ShotSought,
) -> bool {
    exists|i: int| 0 <= i < tracks.len() && unseen((#[trigger] tracks[i]).1, sought)
}

/// The whole numbers of a list.
pub open spec fn whole_numbers(list: Seq<ValueModel>) -> Seq<i64>
    decreases list.len(),
{
    if list.len() == 0 {
        Seq::empty()
    } else {
        let before = whole_numbers(list.drop_last());
        match whole_of(Some(list.last())) {
            Some(v) => before.push(v),
            None => before,
        }
    }
}

/// The weapons of a player, where they are listed.
pub open spec fn handles_of(state: RecordModel) -> Option<Seq<i64>> {
    match lookup(state, "weapon_handles"@) {
        Some(ValueModel::Many(list)) => Some(whole_numbers(list)),
        _ => None,
    }
}

/// The projectile that made a kill, as far as it can be told: nothing is told
/// where the place of the victim or the weapons of the attacker are not known, or
/// where a suitable projectile was seen at no place.
pub open spec fn projectile_of(
    attacker: RecordModel,
    victim: RecordModel,
    weapon: Seq<char>,
    tick: i64,
    tracks: Seq<(i64, Seq<(i64, RecordModel)>)>,
    removals: Seq<(i64, Seq<i64>)>,
) -> Option<ProjectileModel> {
    match (place_of(victim), handles_of(attacker)) {
        (Some(place), Some(handles)) => {
            let sought = ShotSought { victim: place, handles, weapon: lower(weapon), tick };
            if handles.len() == 0 || any_unseen(tracks, sought) {
                None
            } else {
                nearest_shot(tracks, removals, sought)
            }
        },
        _ => None,
    }
}

fn find_nearest_sample(samples: &Vec<Sample>, tick: i64) -> (out: Option<usize>)
    ensures
        match out {
            Some(at) => at < samples.len() && nearest_sample(sample_models(samples@), tick) == Some(
                at as int,
            ),
            None => nearest_sample(sample_models(samples@), tick) is None,
        },
{
    let ghost all = sample_models(samples@);
    let mut best: Option<usize> = None;
    let mut i: usize = 0;
    while i < samples.len()
        invariant
            i <= samples.len(),
            all == sample_models(samples@),
            match best {
                Some(at) => at < i && nearest_sample(all.take(i as int), tick) == Some(at as int),
                None => i == 0,
            },
        decreases samples.len() - i,
    {
        proof {
            assert(all.take(i + 1).drop_last() =~= all.take(i as int));
            assert(all.take(i + 1).last() == all[i as int]);
            if best is Some {
                assert(all.take(i as int)[best->0 as int] == all[best->0 as int]);
            }
        }
        match best {
            Some(at) => {
                if ticks_apart(samples[i].tick, tick) < ticks_apart(samples[at].tick, tick) {
                    best = Some(i);
                }
            },
            None => {
                best = Some(i);
            },
        }
        i += 1;
    }
    assert(all.take(samples.len() as int) =~= all);
    best
}

fn ticks_apart(a: i64, b: i64) -> (out: i128)
    ensures
        out == size(a - b),
{
    if a < b {
        b as i128 - a as i128
    } else {
        a as i128 - b as i128
    }
}

fn find_first_from(ticks: &Vec<i64>, from: i64) -> (out: Option<i64>)
    ensures
        out == first_from(ticks@, from),
{
    let mut best: Option<i64> = None;
    let mut i: usize = 0;
    while i < ticks.len()
        invariant
            i <= ticks.len(),
            best == first_from(ticks@.take(i as int), from),
        decreases ticks.len() - i,
    {
        proof {
            assert(ticks@.take(i + 1).drop_last() =~= ticks@.take(i as int));
            assert(ticks@.take(i + 1).last() == ticks@[i as int]);
        }
        let tick: i64 = ticks[i];
        if tick >= from {
            match best {
                Some(known) => {
                    if known > tick {
                        best = Some(tick);
                    }
                },
                None => {
                    best = Some(tick);
                },
            }
        }
        i += 1;
    }
    assert(ticks@.take(ticks.len() as int) =~= ticks@);
    best
}

/// What was seen of the way of a projectile so far.
struct WayTally {
    first: Option<i64>,
    place: Option<(Double, Double, Double)>,
    length: Double,
    range: Option<(Double, Double)>,
}

/// The values of a place.
spec fn spot(place: (Double, Double, Double)) -> Place {
    (place.0.value(), place.1.value(), place.2.value())
}

impl WayTally {
    spec fn of(&self, seen: Seq<(i64, RecordModel)>) -> bool {
        &&& (match self.first {
            Some(tick) => seen.len() > 0 && seen[0].0 == tick,
            None => seen.len() == 0,
        })
        &&& (match self.place {
            Some(place) => last_place(seen) == Some(spot(place)),
            None => last_place(seen) is None,
        })
        &&& self.length.value() == path_length(seen)
        &&& (match self.range {
            Some((low, high)) => height_range(seen) == Some((low.value(), high.value())),
            None => height_range(seen) is None,
        })
    }

    fn take(&mut self, tick: i64, state: &Record, Ghost(seen): Ghost<Seq<(i64, RecordModel)>>)
        requires
            old(self).of(seen),
        ensures
            final(self).of(seen.push((tick, state.model()))),
    {
        let ghost next = seen.push((tick, state.model()));
        assert(next.drop_last() =~= seen);
        if self.first.is_none() {
            self.first = Some(tick);
        }
        if let Some(place) = state.vector("position") {
            let (_, _, z) = place;
            self.range = Some(widen_range(self.range, z));
            if let Some(before) = self.place {
                self.length = self.length.plus(measure(place, before));
            }
            self.place = Some(place);
        }
    }
}

fn tally_way(samples: &Vec<Sample>, until: i128) -> (out: WayTally)
    ensures
        out.of(up_to(sample_models(samples@), until as int)),
{
    let ghost all = sample_models(samples@);
    let mut tally = WayTally { first: None, place: None, length: Double::zero(), range: None };
    let mut i: usize = 0;
    assert(up_to(all.take(0), until as int) =~= Seq::empty());
    while i < samples.len()
        invariant
            i <= samples.len(),
            all == sample_models(samples@),
            tally.of(up_to(all.take(i as int), until as int)),
        decreases samples.len() - i,
    {
        proof {
            assert(all.take(i + 1).drop_last() =~= all.take(i as int));
            assert(all.take(i + 1).last() == all[i as int]);
        }
        if samples[i].tick as i128 <= until {
            tally.take(
                samples[i].tick,
                &samples[i].state,
                Ghost(up_to(all.take(i as int), until as int)),
            );
        }
        i += 1;
    }
    assert(all.take(samples.len() as int) =~= all);
    tally
}

/// What a kill asks of a projectile, as plain values.
struct ShotWanted<'a> {
    victim: (Double, Double, Double),
    handles: &'a Vec<i64>,
    weapon: &'a str,
    tick: i64,
}

impl<'a> ShotWanted<'a> {
    spec fn model(&self) -> ShotSought {
        ShotSought {
            victim: spot(self.victim),
            handles: self.handles@,
            weapon: self.weapon@,
            tick: self.tick,
        }
    }
}

fn has_number(list: &Vec<i64>, number: i64) -> (r: bool)
    ensures
        r == list@.contains(number),
{
    let mut i: usize = 0;
    while i < list.len()
        invariant
            i <= list.len(),
            forall|j: int| 0 <= j < i ==> list@[j] != number,
        decreases list.len() - i,
    {
        if list[i] == number {
            assert(list@[i as int] == number);
            return true;
        }
        i += 1;
    }
    false
}

fn kind_of_shot(state: &Record) -> (out: String)
    ensures
        out@ == shot_kind(state.model()),
{
    match state.string("projectile_type") {
        Some(text) => to_lower(text.as_str()),
        None => {
            let none = String::new();
            assert(none@ =~= Seq::empty());
            to_lower(none.as_str())
        },
    }
}

fn find_suitable(samples: &Vec<Sample>, wanted: &ShotWanted) -> (out: Option<usize>)
    ensures
        match out {
            Some(at) => at < samples.len() && suits(sample_models(samples@), wanted.model())
                && nearest_sample(sample_models(samples@), wanted.tick) == Some(at as int),
            None => !suits(sample_models(samples@), wanted.model()),
        },
{
    let at: usize = match find_nearest_sample(samples, wanted.tick) {
        Some(at) => at,
        None => return None,
    };
    let state = &samples[at].state;
    assert(sample_models(samples@)[at as int] == (samples@[at as int].tick, state.model()));
    if ticks_apart(samples[at].tick, wanted.tick) > 6 {
        return None;
    }
    let handle: i64 = match state.integer("launcher_handle") {
        Some(handle) => handle,
        None => 0,
    };
    if !has_number(wanted.handles, handle) {
        return None;
    }
    let kind = kind_of_shot(state);
    if projectile_matches_weapon(kind.as_str(), wanted.weapon) {
        Some(at)
    } else {
        None
    }
}

fn ms_of(from: i64, to: i64) -> (out: u64)
    ensures
        out == rounded_ms(to - from),
{
    let ticks: i128 = to as i128 - from as i128;
    if ticks > 0 {
        let rate = Double::fraction(666_666_667, 10_000_000);
        Double::natural(ticks as u64).over(rate).times(Double::natural(1000)).rounded()
    } else {
        0
    }
}

fn tell_shot(
    entity: i64,
    samples: &Vec<Sample>,
    at: usize,
    removals: &Vec<Keyed<Vec<i64>>>,
    wanted: &ShotWanted,
    apart: Double,
) -> (out: ProjectileEvidence)
    requires
        at < samples.len(),
        nearest_sample(sample_models(samples@), wanted.tick) == Some(at as int),
        place_of(samples@[at as int].state.model()) is Some,
        apart.value() == distance(
            place_of(samples@[at as int].state.model())->0,
            spot(wanted.victim),
        ),
    ensures
        out.model() == shot_told(
            entity,
            sample_models(samples@),
            ticks_of(entries(removals@), entity),
            wanted.model(),
        ),
{
    let state = &samples[at].state;
    let ghost all = sample_models(samples@);
    assert(all[at as int] == (samples@[at as int].tick, state.model()));
    let tally = tally_way(samples, wanted.tick as i128 + 5);
    let launch: i64 = match tally.first {
        Some(tick) => tick,
        None => samples[at].tick,
    };
    let gone = match find_value(removals, entity) {
        Some(ticks) => find_first_from(ticks, launch),
        None => None,
    };
    let impact: i64 = match gone {
        Some(tick) => tick,
        None => wanted.tick,
    };
    let kind = kind_of_shot(state);
    let eligible = !same_text(kind.as_str(), "pipe") || !tally.length.less(Double::natural(2))
        || !range_height(tally.range).less(Double::natural(6));
    ProjectileEvidence {
        entity_id: entity,
        projectile_type: kind,
        launcher_handle: state.integer("launcher_handle"),
        distance: apart,
        launch_tick: launch,
        impact_tick: impact,
        flight_ms: ms_of(launch, impact),
        path_length: tally.length,
        airshot_eligible: eligible,
    }
}

fn find_shot(scan: &StateScan, wanted: &ShotWanted) -> (out: Option<ProjectileEvidence>)
    ensures
        match out {
            Some(shot) => !any_unseen(entries(scan.projectile_tracks@), wanted.model())
                && nearest_shot(
                entries(scan.projectile_tracks@),
                entries(scan.projectile_removals@),
                wanted.model(),
            ) == Some(shot.model()),
            None => any_unseen(entries(scan.projectile_tracks@), wanted.model()) || nearest_shot(
                entries(scan.projectile_tracks@),
                entries(scan.projectile_removals@),
                wanted.model(),
            ) is None,
        },
{
    let ghost tracks = entries(scan.projectile_tracks@);
    let ghost removals = entries(scan.projectile_removals@);
    let ghost sought = wanted.model();
    let mut best: Option<ProjectileEvidence> = None;
    let mut i: usize = 0;
    while i < scan.projectile_tracks.len()
        invariant
            i <= scan.projectile_tracks.len(),
            tracks == entries(scan.projectile_tracks@),
            removals == entries(scan.projectile_removals@),
            sought == wanted.model(),
            forall|k: int| 0 <= k < i ==> !unseen((#[trigger] tracks[k]).1, sought),
            match best {
                Some(shot) => nearest_shot(tracks.take(i as int), removals, sought) == Some(
                    shot.model(),
                ),
                None => nearest_shot(tracks.take(i as int), removals, sought) is None,
            },
        decreases scan.projectile_tracks.len() - i,
    {
        let entity: i64 = scan.projectile_tracks[i].key;
        let samples = &scan.projectile_tracks[i].value;
        let ghost all = sample_models(samples@);
        proof {
            assert(tracks.take(i + 1).drop_last() =~= tracks.take(i as int));
            assert(tracks.take(i + 1).last() == tracks[i as int]);
            assert(tracks[i as int] == (entity, all));
        }
        if let Some(at) = find_suitable(samples, wanted) {
            let state = &samples[at].state;
            assert(all[at as int] == (samples@[at as int].tick, state.model()));
            match state.vector("position") {
                None => {
                    assert(unseen(tracks[i as int].1, sought));
                    return None;
                },
                Some(place) => {
                    let apart = measure(place, wanted.victim);
                    if !Double::natural(220).less(apart) {
                        let shot = tell_shot(
                            entity,
                            samples,
                            at,
                            &scan.projectile_removals,
                            wanted,
                            apart,
                        );
                        let better = match &best {
                            Some(known) => apart.less(known.distance),
                            None => true,
                        };
                        if better {
                            best = Some(shot);
                        }
                    }
                },
            }
        }
        i += 1;
    }
    assert(tracks.take(scan.projectile_tracks.len() as int) =~= tracks);
    best
}

fn list_handles(list: &Vec<Value>) -> (out: Vec<i64>)
    ensures
        out@ == whole_numbers(value_models(list@)),
{
    let ghost all = value_models(list@);
    let mut out: Vec<i64> = Vec::new();
    let mut i: usize = 0;
    proof {
        lemma_value_models(list@);
    }
    while i < list.len()
        invariant
            i <= list.len(),
            all == value_models(list@),
            all.len() == list.len(),
            forall|k: int| 0 <= k < list.len() ==> #[trigger] value_models(list@)[k]
                == list@[k].model(),
            out@ == whole_numbers(all.take(i as int)),
        decreases list.len() - i,
    {
        proof {
            assert(all.take(i + 1).drop_last() =~= all.take(i as int));
            assert(all.take(i + 1).last() == list@[i as int].model());
        }
        if let Value::One(Scalar::Int(v)) = &list[i] {
            out.push(*v);
        }
        i += 1;
    }
    assert(all.take(list.len() as int) =~= all);
    out
}

/// The projectile that made a kill, as far as it can be told.
pub fn matching_projectile(
    attacker: &Record,
    victim: &Record,
    weapon: &str,
    tick: i64,
    scan: &StateScan,
) -> (out: Option<ProjectileEvidence>)
    ensures
        match out {
            Some(shot) => projectile_of(
                attacker.model(),
                victim.model(),
                weapon@,
                tick,
                entries(scan.projectile_tracks@),
                entries(scan.projectile_removals@),
            ) == Some(shot.model()),
            None => projectile_of(
                attacker.model(),
                victim.model(),
                weapon@,
                tick,
                entries(scan.projectile_tracks@),
                entries(scan.projectile_removals@),
            ) is None,
        },
{
    let place = match victim.vector("position") {
        Some(place) => place,
        None => return None,
    };
    let handles = match attacker.get("weapon_handles") {
        Some(Value::Many(list)) => list_handles(list),
        _ => return None,
    };
    if handles.len() == 0 {
        return None;
    }
    let lowered = to_lower(weapon);
    let wanted = ShotWanted { victim: place, handles: &handles, weapon: lowered.as_str(), tick };
    find_shot(scan, &wanted)
}

/// A player who is back is seen alive at the first such sample after a tick; one who is
/// not back is never seen alive after it.
pub proof fn law_next_life_is_the_first(samples: Seq<(i64, RecordModel)>, tick: i64)
    ensures
        match next_alive(samples, tick) {
            Some(back) => back > tick && exists|i: int|
                #![trigger samples[i]]
                0 <= i < samples.len() && samples[i].0 == back && alive(samples[i].1) && forall|j: int|
                    0 <= j < i ==> (#[trigger] samples[j]).0 <= tick || !alive(samples[j].1),
            None => forall|j: int|
                0 <= j < samples.len() ==> (#[trigger] samples[j]).0 <= tick || !alive(samples[j].1),
        },
    decreases samples.len(),
{
    if samples.len() > 0 {
        let rest = samples.skip(1);
        law_next_life_is_the_first(rest, tick);
        if !(samples[0].0 > tick && alive(samples[0].1)) {
            assert forall|j: int| 0 < j < samples.len() implies #[trigger] samples[j] == rest[j - 1] by {
            }
            if let Some(back) = next_alive(rest, tick) {
                let i = choose|i: int|
                    #![trigger rest[i]]
                    0 <= i < rest.len() && rest[i].0 == back && alive(rest[i].1) && forall|j: int|
                        0 <= j < i ==> (#[trigger] rest[j]).0 <= tick || !alive(rest[j].1);
                assert(samples[i + 1] == rest[i]);
                assert forall|j: int| 0 <= j < i + 1 implies (#[trigger] samples[j]).0 <= tick
                    || !alive(samples[j].1) by {
                    if j > 0 {
                        assert(rest[j - 1] == samples[j]);
                    }
                }
            }
        }
    }
}

/// A state of a player who is called dead, or who has no health left, is of no living
/// player; one that says neither is.
pub proof fn law_dead_players_do_not_live(state: RecordModel)
    ensures
        whole_of(lookup(state, "health"@)) matches Some(health) && health <= 0 ==> !alive(state),
        text_of(lookup(state, "life_state"@)) matches Some(text) && !has_text(text, "alive"@)
            ==> !alive(state),
        lookup(state, "health"@) is None && lookup(state, "life_state"@) is None ==> alive(state),
{
}

/// The last state before a tick is that of the last sample before it.
pub proof fn law_last_state_comes_before(samples: Seq<(i64, RecordModel)>, tick: i64, i: int)
    requires
        0 <= i < samples.len(),
        samples[i].0 < tick,
        forall|j: int| i < j < samples.len() ==> (#[trigger] samples[j]).0 >= tick,
    ensures
        last_before(samples, tick) == Some(samples[i].1),
    decreases samples.len(),
{
    if i < samples.len() - 1 {
        let rest = samples.drop_last();
        assert forall|j: int| i < j < rest.len() implies (#[trigger] rest[j]).0 >= tick by {
            assert(rest[j] == samples[j]);
        }
        law_last_state_comes_before(rest, tick, i);
        assert(samples[samples.len() - 1].0 >= tick);
    }
}

/// A flag is found where a sample of the ticks up to another has it, at the last of
/// those, and else not.
pub proof fn law_last_flag_is_found(
    samples: Seq<(i64, RecordModel)>,
    tick: i64,
    key: Seq<char>,
    window: i64,
)
    ensures
        match last_flag(samples, tick, key, window) {
            Some(at) => tick - window <= at <= tick && exists|i: int|
                #![trigger samples[i]]
                0 <= i < samples.len() && samples[i].0 == at && bool_of(lookup(samples[i].1, key))
                    == Some(true) && forall|j: int|
                    i < j < samples.len() && tick - window <= (#[trigger] samples[j]).0 <= tick
                        ==> bool_of(lookup(samples[j].1, key)) != Some(true),
            None => forall|j: int|
                0 <= j < samples.len() && tick - window <= (#[trigger] samples[j]).0 <= tick
                    ==> bool_of(lookup(samples[j].1, key)) != Some(true),
        },
    decreases samples.len(),
{
    if samples.len() > 0 {
        let rest = samples.drop_last();
        let last = samples.len() - 1;
        law_last_flag_is_found(rest, tick, key, window);
        assert(samples[last] == samples.last());
        if !(tick - window <= samples[last].0 <= tick && bool_of(lookup(samples[last].1, key)) == Some(
            true,
        )) {
            assert forall|j: int| 0 <= j < last implies #[trigger] samples[j] == rest[j] by {
            }
            if let Some(at) = last_flag(rest, tick, key, window) {
                let i = choose|i: int|
                    #![trigger rest[i]]
                    0 <= i < rest.len() && rest[i].0 == at && bool_of(lookup(rest[i].1, key))
                        == Some(true) && forall|j: int|
                        i < j < rest.len() && tick - window <= (#[trigger] rest[j]).0 <= tick
                            ==> bool_of(lookup(rest[j].1, key)) != Some(true);
                assert(samples[i] == rest[i]);
                assert forall|j: int|
                    i < j < samples.len() && tick - window <= (#[trigger] samples[j]).0
                        <= tick implies bool_of(lookup(samples[j].1, key)) != Some(true) by {
                    if j < last {
                        assert(rest[j] == samples[j]);
                    }
                }
            }
        } else {
            assert(samples[last].0 == samples.last().0);
        }
    }
}

/// The sample that stands for a tick is the nearest to it, and of several the first.
pub proof fn law_nearest_sample_is_found(samples: Seq<(i64, RecordModel)>, tick: i64, i: int)
    requires
        0 <= i < samples.len(),
    ensures
        nearest_sample(samples, tick) is Some,
        0 <= nearest_sample(samples, tick)->0 < samples.len(),
        vstd::math::abs(samples[nearest_sample(samples, tick)->0].0 - tick) <= vstd::math::abs(
            samples[i].0 - tick,
        ),
        i < nearest_sample(samples, tick)->0 ==> vstd::math::abs(
            samples[nearest_sample(samples, tick)->0].0 - tick,
        ) < vstd::math::abs(samples[i].0 - tick),
    decreases samples.len(),
{
    let rest = samples.drop_last();
    if i < rest.len() {
        law_nearest_sample_is_found(rest, tick, i);
    } else if rest.len() > 0 {
        law_nearest_sample_is_found(rest, tick, 0);
    }
}

/// The removal that ends a flight is the first that is not before its start.
pub proof fn law_first_removal_is_found(ticks: Seq<i64>, from: i64)
    ensures
        match first_from(ticks, from) {
            Some(first) => ticks.contains(first) && first >= from && (forall|i: int|
                0 <= i < ticks.len() && ticks[i] >= from ==> first <= #[trigger] ticks[i]),
            None => forall|i: int| 0 <= i < ticks.len() ==> #[trigger] ticks[i] < from,
        },
    decreases ticks.len(),
{
    if ticks.len() > 0 {
        let rest = ticks.drop_last();
        law_first_removal_is_found(rest, from);
        assert(ticks[ticks.len() - 1] == ticks.last());
        assert forall|i: int| 0 <= i < rest.len() implies #[trigger] ticks[i] == rest[i] by {
        }
        assert(ticks.contains(ticks.last()));
        if let Some(before) = first_from(rest, from) {
            let k = choose|k: int| 0 <= k < rest.len() && rest[k] == before;
            assert(ticks[k] == before);
        }
    }
}

proof fn lemma_nearest_shot(
    tracks: Seq<(i64, Seq<(i64, RecordModel)>)>,
    removals: Seq<(i64, Seq<i64>)>,
    sought: ShotSought,
) -> (t: int)
    ensures
        nearest_shot(tracks, removals, sought) matches Some(shot) ==> 0 <= t < tracks.len() && hits(
            tracks[t].1,
            sought,
        ) && shot == shot_told(tracks[t].0, tracks[t].1, ticks_of(removals, tracks[t].0), sought),
    decreases tracks.len(),
{
    if tracks.len() == 0 {
        0
    } else {
        let before = lemma_nearest_shot(tracks.drop_last(), removals, sought);
        let (entity, samples) = tracks.last();
        let shot = shot_told(entity, samples, ticks_of(removals, entity), sought);
        if hits(samples, sought) && !(nearest_shot(tracks.drop_last(), removals, sought) matches Some(
            best,
        ) && best.distance <= shot.distance) {
            tracks.len() - 1
        } else {
            before
        }
    }
}

proof fn lemma_no_shot_is_nearer(
    tracks: Seq<(i64, Seq<(i64, RecordModel)>)>,
    removals: Seq<(i64, Seq<i64>)>,
    sought: ShotSought,
    i: int,
)
    requires
        0 <= i < tracks.len(),
        hits(tracks[i].1, sought),
    ensures
        nearest_shot(tracks, removals, sought) is Some,
        nearest_shot(tracks, removals, sought)->0.distance <= distance(
            place_of(tracks[i].1[nearest_sample(tracks[i].1, sought.tick)->0].1)->0,
            sought.victim,
        ),
    decreases tracks.len(),
{
    let rest = tracks.drop_last();
    if i < rest.len() {
        assert(rest[i] == tracks[i]);
        lemma_no_shot_is_nearer(rest, removals, sought, i);
    }
}

proof fn lemma_first_usable(samples: Seq<(i64, RecordModel)>, tick: int)
    requires
        samples.len() > 0,
        samples[0].0 <= tick,
    ensures
        up_to(samples, tick).len() > 0,
        up_to(samples, tick)[0] == samples[0],
    decreases samples.len(),
{
    if samples.len() > 1 {
        assert(samples.drop_last()[0] == samples[0]);
        lemma_first_usable(samples.drop_last(), tick);
    } else {
        assert(up_to(samples.drop_last(), tick) =~= Seq::empty());
    }
}

/// The projectile that is told to have made a kill was seen within six ticks of it, no more
/// than 220 units from the victim, and came from a weapon of the attacker. It flew from its
/// first sample to its first removal after that, and whatever is not a pipe counts as flying.
pub proof fn law_kills_are_made_by_near_projectiles(
    attacker: RecordModel,
    victim: RecordModel,
    weapon: Seq<char>,
    tick: i64,
    tracks: Seq<(i64, Seq<(i64, RecordModel)>)>,
    removals: Seq<(i64, Seq<i64>)>,
) -> (at: (int, int))
    requires
        projectile_of(attacker, victim, weapon, tick, tracks, removals) is Some,
    ensures
        ({
            let shot = projectile_of(attacker, victim, weapon, tick, tracks, removals)->0;
            let samples = tracks[at.0].1;
            let state = samples[at.1].1;
            &&& 0 <= at.0 < tracks.len() && tracks[at.0].0 == shot.entity_id
            &&& 0 <= at.1 < samples.len() && -6 <= samples[at.1].0 - tick <= 6
            &&& handles_of(attacker) is Some && handles_of(attacker)->0.contains(
                launcher_of(state) as i64,
            )
            &&& fired_by(shot.projectile_type, lower(weapon))
            &&& place_of(state) is Some && place_of(victim) is Some
            &&& shot.distance == distance(place_of(state)->0, place_of(victim)->0)
            &&& shot.distance <= natural(220)
            &&& samples[0].0 <= tick + 5 ==> shot.launch_tick == samples[0].0
            &&& ticks_of(removals, shot.entity_id).len() == 0 ==> shot.impact_tick == tick
            &&& forall|r: int|
                0 <= r < ticks_of(removals, shot.entity_id).len() && ticks_of(
                    removals,
                    shot.entity_id,
                )[r] >= shot.launch_tick ==> shot.launch_tick <= shot.impact_tick
                    <= #[trigger] ticks_of(removals, shot.entity_id)[r]
            &&& shot.projectile_type != "pipe"@ ==> shot.airshot_eligible
        }),
{
    let place = place_of(victim)->0;
    let handles = handles_of(attacker)->0;
    let sought = ShotSought { victim: place, handles, weapon: lower(weapon), tick };
    let t = lemma_nearest_shot(tracks, removals, sought);
    let samples = tracks[t].1;
    let k = nearest_sample(samples, tick)->0;
    assert(samples.len() > 0);
    law_nearest_sample_is_found(samples, tick, 0);
    let shot = projectile_of(attacker, victim, weapon, tick, tracks, removals)->0;
    law_first_removal_is_found(ticks_of(removals, tracks[t].0), shot.launch_tick);
    if samples[0].0 <= tick + 5 {
        lemma_first_usable(samples, tick + 5);
    }
    (t, k)
}

/// No other projectile that could have made a kill was nearer to the victim than the one
/// that is told.
pub proof fn law_nearest_projectile_is_told(
    attacker: RecordModel,
    victim: RecordModel,
    weapon: Seq<char>,
    tick: i64,
    tracks: Seq<(i64, Seq<(i64, RecordModel)>)>,
    removals: Seq<(i64, Seq<i64>)>,
    i: int,
)
    requires
        projectile_of(attacker, victim, weapon, tick, tracks, removals) is Some,
        0 <= i < tracks.len(),
    ensures
        ({
            let shot = projectile_of(attacker, victim, weapon, tick, tracks, removals)->0;
            let samples = tracks[i].1;
            let seen = samples[nearest_sample(samples, tick)->0];
            samples.len() > 0 && -6 <= seen.0 - tick <= 6 && handles_of(attacker)->0.contains(
                launcher_of(seen.1) as i64,
            ) && fired_by(shot_kind(seen.1), lower(weapon)) ==> place_of(seen.1) is Some && (
            distance(place_of(seen.1)->0, place_of(victim)->0) <= natural(220) ==> shot.distance
                <= distance(place_of(seen.1)->0, place_of(victim)->0))
        }),
{
    let place = place_of(victim)->0;
    let handles = handles_of(attacker)->0;
    let sought = ShotSought { victim: place, handles, weapon: lower(weapon), tick };
    let samples = tracks[i].1;
    if samples.len() > 0 {
        law_nearest_sample_is_found(samples, tick, 0);
        if suits(samples, sought) {
            assert(!unseen(tracks[i].1, sought));
            if hits(samples, sought) {
                lemma_no_shot_is_nearer(tracks, removals, sought, i);
            }
        }
    }
}

/// Seen from the other player, a victim is as far away and as much lower as it was higher.
pub proof fn law_offsets_are_opposite(a: RecordModel, b: RecordModel)
    ensures
        offsets(a, b) is Some <==> offsets(b, a) is Some,
        offsets(a, b) is Some ==> (offsets(a, b)->0).1 == (offsets(b, a)->0).1 && (offsets(
            a,
            b,
        )->0).0 == -(offsets(b, a)->0).0,
{
    if let (Some(p), Some(q)) = (place_of(a), place_of(b)) {
        lemma_gaps_are_even(p.0, q.0);
        lemma_gaps_are_even(p.1, q.1);
        lemma_zero();
    }
}

proof fn lemma_gaps_are_even(a: int, b: int)
    ensures
        squared_gap(a, b) == squared_gap(b, a),
{
    lemma_zero();
    let d = difference(a, b);
    assert(difference(b, a) == -d);
    assert((-d) * (-d) == d * d) by (nonlinear_arith);
}

} // verus!

//! What a sequence of kills by one player is worth.
use vstd::prelude::*;
use crate::deaths::{Death, ForceFollowup};
use crate::events::{to_lowercase, unicode_lower};
use crate::floating::{natural, Double};
use crate::order::{ascending, members};
use crate::record::Record;
use crate::rounds::Round;
use crate::scoring::{
    add_kill_lines, add_kill_tags, airshot, backstab, charge_melee, direct_airshot, gather_facts,
    is_melee, kritz_kill, lemma_kill_lines_add, lemma_kill_tags_are_added, lemma_line_if,
    lemma_no_kill_tag, line_if, line_models, lines_under, market_garden, melee, print_of, put_if,
    shield_bash, tag_if, tags_under, total, with_kill_lines, with_kill_tags, worth, LineDetail,
    ScoreLine, ScoreSheet,
};
use crate::text::{same_text, views};
use crate::weapons::{
    airborne_weapon, counted_family, is_airborne_weapon, is_counted_family, is_sequence_family,
    sequence_family, taunt_kill_name, taunt_named,
};

verus! {

/// How long after the last kill an objective still counts.
pub const OBJECTIVE_CONVERSION_TICKS: i64 = 533;

/// How long after the last kill a blocked capture still counts.
pub const CAPTURE_DENIAL_TICKS: i64 = 133;

/// How long before the end of a round a kill still decides it.
pub const ROUND_CLINCH_TICKS: i64 = 200;

/// How long after the last kill a charge still counts as forced.
pub const MEDIC_FORCE_FOLLOWUP_TICKS: i64 = 267;

/// How long an advantage must last to count.
pub const PLAYER_SWING_MIN_WINDOW_TICKS: i64 = 267;

/// A building that was destroyed.
#[derive(Debug)]
pub struct BuildingEvent {
    pub tick: i64,
    pub attacker: i64,
    pub object_type: String,
}

/// Something done for the objective of the map.
#[derive(Debug)]
pub struct ObjectiveEvent {
    pub tick: i64,
    pub team: i64,
    pub actor_user_id: i64,
    pub kind: String,
    pub data: Record,
}

/// The objective that a sequence is given credit for, with its tick and position.
#[derive(Clone, Copy, Debug, PartialEq, Eq, Structural)]
pub enum ObjectiveCredit {
    Nothing,
    /// A point was captured.
    Capture { at: i64, objective: usize },
    /// The attacker blocked a capture.
    Denial { at: i64, objective: usize },
    /// The payload was pushed.
    Payload { at: i64, objective: usize, pusher: i64, own: bool },
}

impl ObjectiveCredit {
    /// The points for it, in hundredths.
    pub open spec fn points(self) -> int {
        match self {
            ObjectiveCredit::Nothing => 0,
            ObjectiveCredit::Capture { .. } => 2400,
            ObjectiveCredit::Denial { .. } => 2000,
            ObjectiveCredit::Payload { own, .. } => if own {
                1600
            } else {
                1200
            },
        }
    }

    /// When it happened.
    pub open spec fn tick(self) -> Option<i64> {
        match self {
            ObjectiveCredit::Nothing => None,
            ObjectiveCredit::Capture { at, .. } => Some(at),
            ObjectiveCredit::Denial { at, .. } => Some(at),
            ObjectiveCredit::Payload { at, .. } => Some(at),
        }
    }

    /// Which objective it was, and who pushed the payload.
    pub open spec fn detail(self) -> LineDetail<Seq<char>> {
        match self {
            ObjectiveCredit::Nothing => LineDetail::Nothing,
            ObjectiveCredit::Capture { objective, .. } => LineDetail::Objective { at: objective },
            ObjectiveCredit::Denial { objective, .. } => LineDetail::Objective { at: objective },
            ObjectiveCredit::Payload { objective, pusher, .. } => LineDetail::Push {
                at: objective,
                pusher,
            },
        }
    }

    /// Whether the attacker pushed the payload.
    pub open spec fn pushed_by_attacker(self) -> bool {
        self is Payload && self->own
    }

    /// The points for it, in hundredths.
    pub fn score(&self) -> (out: i64)
        ensures
            out == self.points(),
            0 <= out <= 2400,
    {
        match *self {
            ObjectiveCredit::Nothing => 0,
            ObjectiveCredit::Capture { .. } => 2400,
            ObjectiveCredit::Denial { .. } => 2000,
            ObjectiveCredit::Payload { own, .. } => if own {
                1600
            } else {
                1200
            },
        }
    }

    /// When it happened.
    pub fn event_tick(&self) -> (out: Option<i64>)
        ensures
            out == self.tick(),
    {
        match *self {
            ObjectiveCredit::Nothing => None,
            ObjectiveCredit::Capture { at, .. } => Some(at),
            ObjectiveCredit::Denial { at, .. } => Some(at),
            ObjectiveCredit::Payload { at, .. } => Some(at),
        }
    }

    fn told(&self) -> (out: LineDetail<String>)
        ensures
            out.model() == self.detail(),
    {
        match *self {
            ObjectiveCredit::Nothing => LineDetail::Nothing,
            ObjectiveCredit::Capture { objective, .. } => LineDetail::Objective { at: objective },
            ObjectiveCredit::Denial { objective, .. } => LineDetail::Objective { at: objective },
            ObjectiveCredit::Payload { objective, pusher, .. } => LineDetail::Push {
                at: objective,
                pusher,
            },
        }
    }

    fn is_capture(&self) -> (r: bool)
        ensures
            r == (*self is Capture),
    {
        matches!(*self, ObjectiveCredit::Capture { .. })
    }

    fn is_denial(&self) -> (r: bool)
        ensures
            r == (*self is Denial),
    {
        matches!(*self, ObjectiveCredit::Denial { .. })
    }

    fn is_payload(&self) -> (r: bool)
        ensures
            r == (*self is Payload),
    {
        matches!(*self, ObjectiveCredit::Payload { .. })
    }

    fn is_own_payload(&self) -> (r: bool)
        ensures
            r == self.pushed_by_attacker(),
    {
        match *self {
            ObjectiveCredit::Payload { own, .. } => own,
            _ => false,
        }
    }

    /// What the objective is called; empty where there is none.
    pub fn kind(&self) -> (out: &'static str)
        ensures
            out@ == (match *self {
                ObjectiveCredit::Nothing => ""@,
                ObjectiveCredit::Capture { .. } => "kills_to_secure_cap"@,
                ObjectiveCredit::Denial { .. } => "capture_denial"@,
                ObjectiveCredit::Payload { .. } => "payload_progress"@,
            }),
    {
        match *self {
            ObjectiveCredit::Nothing => "",
            ObjectiveCredit::Capture { .. } => "kills_to_secure_cap",
            ObjectiveCredit::Denial { .. } => "capture_denial",
            ObjectiveCredit::Payload { .. } => "payload_progress",
        }
    }
}

// ---------------------------------------------------------------------------
// Counting kills
// ---------------------------------------------------------------------------

/// What kills of a sequence are counted by.
#[derive(Clone, Copy, Debug, PartialEq, Eq, Structural)]
pub enum KillTrait {
    Projectile,
    Melee,
    Backstab,
    Taunt,
    ShieldBash,
    ChargeMelee,
    MedicVictim,
    DemomanVictim,
    FullCrit,
    Kritzkrieg,
    MarketGarden,
    DoubleDonk,
    Airshot,
    DirectAirshot,
    AirborneProjectile,
    UberDrop,
}

/// Whether a kill is counted.
pub open spec fn has_trait(kill: Death, kind: KillTrait) -> bool {
    match kind {
        KillTrait::Projectile => counted_family(kill.weapon@),
        KillTrait::Melee => melee(kill) && !backstab(kill) && taunt_named(kill.custom_kill as int)
            is None && !shield_bash(kill),
        KillTrait::Backstab => backstab(kill),
        KillTrait::Taunt => taunt_named(kill.custom_kill as int) is Some,
        KillTrait::ShieldBash => shield_bash(kill),
        KillTrait::ChargeMelee => charge_melee(kill),
        KillTrait::MedicVictim => kill.victim_class@ == "medic"@,
        KillTrait::DemomanVictim => kill.victim_class@ == "demoman"@,
        KillTrait::FullCrit => kill.crit_type == 2,
        KillTrait::Kritzkrieg => kritz_kill(kill),
        KillTrait::MarketGarden => market_garden(kill, kill.weapon@),
        KillTrait::DoubleDonk => kill.state.confirmed_double_donk,
        KillTrait::Airshot => airshot(kill),
        KillTrait::DirectAirshot => direct_airshot(kill),
        KillTrait::AirborneProjectile => kill.state.victim_airborne_before_projectile_impact
            && airborne_weapon(kill.weapon@),
        KillTrait::UberDrop => kill.state.confirmed_uber_drop,
    }
}

/// How many kills are counted.
pub open spec fn count_of(group: Seq<Death>, kind: KillTrait) -> nat
    decreases group.len(),
{
    if group.len() == 0 {
        0
    } else {
        count_of(group.drop_last(), kind) + if has_trait(group.last(), kind) {
            1nat
        } else {
            0
        }
    }
}

fn kill_has_trait(kill: &Death, kind: KillTrait) -> (r: bool)
    ensures
        r == has_trait(*kill, kind),
{
    let facts = gather_facts(kill, kill.weapon.as_str());
    match kind {
        KillTrait::Projectile => is_counted_family(kill.weapon.as_str()),
        KillTrait::Melee => is_melee(kill) && kill.custom_kill != 2 && taunt_kill_name(
            kill.custom_kill,
        ).is_none() && kill.custom_kill != 23,
        KillTrait::Backstab => kill.custom_kill == 2,
        KillTrait::Taunt => taunt_kill_name(kill.custom_kill).is_some(),
        KillTrait::ShieldBash => kill.custom_kill == 23,
        KillTrait::ChargeMelee => facts.charge,
        KillTrait::MedicVictim => facts.medic,
        KillTrait::DemomanVictim => facts.demoman,
        KillTrait::FullCrit => kill.crit_type == 2,
        KillTrait::Kritzkrieg => facts.kritz,
        KillTrait::MarketGarden => facts.market,
        KillTrait::DoubleDonk => kill.state.confirmed_double_donk,
        KillTrait::Airshot => facts.airshot,
        KillTrait::DirectAirshot => facts.direct,
        KillTrait::AirborneProjectile => kill.state.victim_airborne_before_projectile_impact
            && is_airborne_weapon(kill.weapon.as_str()),
        KillTrait::UberDrop => kill.state.confirmed_uber_drop,
    }
}

/// How many kills are counted.
pub fn count_kills(group: &Vec<Death>, kind: KillTrait) -> (out: usize)
    ensures
        out == count_of(group@, kind),
        out <= group.len(),
{
    let mut count: usize = 0;
    let mut i: usize = 0;
    while i < group.len()
        invariant
            i <= group.len(),
            count <= i,
            count == count_of(group@.take(i as int), kind),
        decreases group.len() - i,
    {
        proof {
            assert(group@.take(i + 1).drop_last() =~= group@.take(i as int));
            assert(group@.take(i + 1).last() == group@[i as int]);
        }
        if kill_has_trait(&group[i], kind) {
            count += 1;
        }
        i += 1;
    }
    assert(group@.take(group.len() as int) =~= group@);
    count
}

/// The victims of a sequence.
pub open spec fn victims(group: Seq<Death>) -> Set<i64> {
    Seq::new(group.len(), |i: int| group[i].victim).to_set()
}

/// How many different victims a sequence has.
pub fn count_victims(group: &Vec<Death>) -> (out: usize)
    ensures
        out == victims(group@).len(),
        out <= group.len(),
        group.len() > 0 ==> out > 0,
{
    let mut seen: Vec<i64> = Vec::new();
    let mut i: usize = 0;
    let ghost all = Seq::new(group@.len(), |i: int| group@[i].victim);
    assert(all.take(0).to_set() =~= seen@.to_set());
    while i < group.len()
        invariant
            i <= group.len(),
            all == Seq::new(group@.len(), |i: int| group@[i].victim),
            seen.len() <= i,
            i > 0 ==> seen.len() > 0,
            seen@.no_duplicates(),
            seen@.to_set() == all.take(i as int).to_set(),
        decreases group.len() - i,
    {
        let victim: i64 = group[i].victim;
        let found = number_in(&seen, victim);
        let ghost before = seen@;
        if !found {
            seen.push(victim);
        }
        proof {
            let now = all.take(i as int);
            let next = all.take(i + 1);
            assert(next =~= now.push(victim));
            assert forall|v: i64| next.to_set().contains(v) <==> now.to_set().insert(
                victim,
            ).contains(v) by {
                if next.to_set().contains(v) {
                    let k = choose|k: int| 0 <= k < next.len() && next[k] == v;
                    if k < i {
                        assert(now[k] == v);
                    }
                }
                if now.to_set().contains(v) {
                    let k = choose|k: int| 0 <= k < now.len() && now[k] == v;
                    assert(next[k] == v);
                }
                assert(next[i as int] == victim);
            }
            assert(next.to_set() =~= now.to_set().insert(victim));
            assert forall|v: i64| seen@.to_set().contains(v) <==> before.to_set().insert(
                victim,
            ).contains(v) by {
                if seen@.to_set().contains(v) {
                    let k = choose|k: int| 0 <= k < seen@.len() && seen@[k] == v;
                    if k < before.len() {
                        assert(before[k] == v);
                    }
                }
                if before.to_set().contains(v) {
                    let k = choose|k: int| 0 <= k < before.len() && before[k] == v;
                    assert(seen@[k] == v);
                }
                if !found {
                    assert(seen@[seen@.len() - 1] == victim);
                } else {
                    assert(before.contains(victim));
                }
            }
            assert(seen@.to_set() =~= before.to_set().insert(victim));
        }
        i += 1;
    }
    proof {
        assert(all.take(group.len() as int) =~= all);
        seen@.unique_seq_to_set();
    }
    seen.len()
}

fn number_in(list: &Vec<i64>, value: i64) -> (r: bool)
    ensures
        r == list@.contains(value),
{
    let mut i: usize = 0;
    while i < list.len()
        invariant
            i <= list.len(),
            forall|j: int| 0 <= j < i ==> list@[j] != value,
        decreases list.len() - i,
    {
        if list[i] == value {
            assert(list@[i as int] == value);
            return true;
        }
        i += 1;
    }
    false
}

// ---------------------------------------------------------------------------
// What followed
// ---------------------------------------------------------------------------

/// Whether one charge comes before another, by tick and then by medic.
pub open spec fn charge_before(a: ForceFollowup, b: ForceFollowup) -> bool {
    a.event_tick < b.event_tick || (a.event_tick == b.event_tick && a.medic_user_id
        < b.medic_user_id)
}

/// A charge put into a list in order; of two by one medic at one tick the later
/// one stays.
pub open spec fn put_charge(list: Seq<ForceFollowup>, charge: ForceFollowup) -> Seq<ForceFollowup>
    decreases list.len(),
{
    if list.len() == 0 {
        seq![charge]
    } else if charge_before(charge, list.last()) {
        put_charge(list.drop_last(), charge).push(list.last())
    } else if charge_before(list.last(), charge) {
        list.push(charge)
    } else {
        list.drop_last().push(charge)
    }
}

/// The charges of a kill between two ticks put into a list.
pub open spec fn put_charges(
    list: Seq<ForceFollowup>,
    charges: Seq<ForceFollowup>,
    low: int,
    high: int,
) -> Seq<ForceFollowup>
    decreases charges.len(),
{
    if charges.len() == 0 {
        list
    } else {
        let before = put_charges(list, charges.drop_last(), low, high);
        if low <= charges.last().event_tick <= high {
            put_charge(before, charges.last())
        } else {
            before
        }
    }
}

/// The charges that a sequence forced between two ticks.
pub open spec fn forced_charges(group: Seq<Death>, low: int, high: int) -> Seq<ForceFollowup>
    decreases group.len(),
{
    if group.len() == 0 {
        Seq::empty()
    } else {
        put_charges(
            forced_charges(group.drop_last(), low, high),
            group.last().state.enemy_medic_force_followups@,
            low,
            high,
        )
    }
}

fn add_charge(list: &mut Vec<ForceFollowup>, charge: ForceFollowup)
    ensures
        final(list)@ == put_charge(old(list)@, charge),
{
    let mut at: usize = list.len();
    assert(list@.take(at as int) =~= list@);
    assert(put_charge(list@, charge) =~= put_charge(list@.take(at as int), charge) + list@.skip(
        at as int,
    ));
    while at > 0 && (charge.event_tick < list[at - 1].event_tick || (charge.event_tick
        == list[at - 1].event_tick && charge.medic_user_id < list[at - 1].medic_user_id))
        invariant
            at <= list.len(),
            list@ == old(list)@,
            put_charge(list@, charge) == put_charge(list@.take(at as int), charge) + list@.skip(
                at as int,
            ),
        decreases at,
    {
        proof {
            let now = list@.take(at as int);
            assert(now.last() == list@[at - 1]);
            assert(now.drop_last() =~= list@.take(at - 1));
            assert(put_charge(now, charge) + list@.skip(at as int) =~= put_charge(
                list@.take(at - 1),
                charge,
            ) + list@.skip(at - 1));
        }
        at -= 1;
    }
    let ghost now = list@.take(at as int);
    if at > 0 && list[at - 1].event_tick == charge.event_tick && list[at - 1].medic_user_id
        == charge.medic_user_id {
        proof {
            assert(now.last() == list@[at - 1]);
            assert(list@.update(at - 1, charge) =~= now.drop_last().push(charge) + list@.skip(
                at as int,
            ));
        }
        list.set(at - 1, charge);
    } else {
        proof {
            if at > 0 {
                assert(now.last() == list@[at - 1]);
            }
            assert(list@.insert(at as int, charge) =~= now.push(charge) + list@.skip(at as int));
            assert(at == 0 ==> now.push(charge) =~= seq![charge]);
        }
        list.insert(at, charge);
    }
}

fn collect_charges(group: &Vec<Death>, low: i64, high: i128) -> (out: Vec<ForceFollowup>)
    ensures
        out@ == forced_charges(group@, low as int, high as int),
{
    let mut out: Vec<ForceFollowup> = Vec::new();
    let mut i: usize = 0;
    while i < group.len()
        invariant
            i <= group.len(),
            out@ == forced_charges(group@.take(i as int), low as int, high as int),
        decreases group.len() - i,
    {
        let charges = &group[i].state.enemy_medic_force_followups;
        let ghost start = out@;
        proof {
            assert(group@.take(i + 1).drop_last() =~= group@.take(i as int));
            assert(group@.take(i + 1).last() == group@[i as int]);
        }
        let mut j: usize = 0;
        while j < charges.len()
            invariant
                j <= charges.len(),
                out@ == put_charges(start, charges@.take(j as int), low as int, high as int),
            decreases charges.len() - j,
        {
            proof {
                assert(charges@.take(j + 1).drop_last() =~= charges@.take(j as int));
                assert(charges@.take(j + 1).last() == charges@[j as int]);
            }
            let charge = charges[j];
            if low <= charge.event_tick && charge.event_tick as i128 <= high {
                add_charge(&mut out, charge);
            }
            j += 1;
        }
        assert(charges@.take(charges.len() as int) =~= charges@);
        i += 1;
    }
    assert(group@.take(group.len() as int) =~= group@);
    out
}

/// The first tick after the last kill at which a victim is back; some other tick
/// where none comes back.
pub open spec fn first_respawn(group: Seq<Death>, after: i64, otherwise: i64) -> i64
    decreases group.len(),
{
    match earliest_respawn(group, after) {
        Some(tick) => tick,
        None => otherwise,
    }
}

/// The first tick after another at which a victim is back, if any is.
pub open spec fn earliest_respawn(group: Seq<Death>, after: i64) -> Option<i64>
    decreases group.len(),
{
    if group.len() == 0 {
        None
    } else {
        let before = earliest_respawn(group.drop_last(), after);
        match group.last().state.victim_next_respawn_tick {
            Some(tick) if tick > after => match before {
                Some(best) if best <= tick => Some(best),
                _ => Some(tick),
            },
            _ => before,
        }
    }
}

fn find_respawn(group: &Vec<Death>, after: i64, otherwise: i64) -> (out: i64)
    ensures
        out == first_respawn(group@, after, otherwise),
{
    let mut best: Option<i64> = None;
    let mut i: usize = 0;
    while i < group.len()
        invariant
            i <= group.len(),
            best == earliest_respawn(group@.take(i as int), after),
        decreases group.len() - i,
    {
        proof {
            assert(group@.take(i + 1).drop_last() =~= group@.take(i as int));
            assert(group@.take(i + 1).last() == group@[i as int]);
        }
        if let Some(tick) = group[i].state.victim_next_respawn_tick {
            if tick > after {
                match best {
                    Some(known) => {
                        if known > tick {
                            best = Some(tick);
                        }
                    },
                    None => {
                        best = Some(tick);
                    },
                }
            }
        }
        i += 1;
    }
    assert(group@.take(group.len() as int) =~= group@);
    match best {
        Some(tick) => tick,
        None => otherwise,
    }
}

/// Whether ticks are those of some friends who are back after one tick and not
/// after another, each once and in ascending order.
pub open spec fn are_respawns_between(
    ticks: Seq<i64>,
    pending: Seq<i64>,
    after: i64,
    until: i64,
) -> bool {
    &&& forall|i: int, j: int| 0 <= i < j < ticks.len() ==> ticks[i] < ticks[j]
    &&& forall|tick: i64| #[trigger]
        ticks.contains(tick) <==> pending.contains(tick) && after < tick <= until
}

/// The ticks at which friends are back after the last kill and not after the
/// first enemy.
pub fn friendly_respawns(pending: &Vec<i64>, after: i64, until: i64) -> (out: Vec<i64>)
    ensures
        are_respawns_between(out@, pending@, after, until),
{
    let mut out: Vec<i64> = Vec::new();
    let mut i: usize = 0;
    while i < pending.len()
        invariant
            i <= pending.len(),
            are_respawns_between(out@, pending@.take(i as int), after, until),
        decreases pending.len() - i,
    {
        let tick: i64 = pending[i];
        let ghost before = out@;
        if after < tick && tick <= until {
            add_tick(&mut out, tick);
        }
        proof {
            let now = pending@.take(i as int);
            let next = pending@.take(i + 1);
            assert forall|t: i64| next.contains(t) <==> now.contains(t) || t == tick by {
                if next.contains(t) {
                    let k = choose|k: int| 0 <= k < next.len() && next[k] == t;
                    if k < i {
                        assert(now[k] == t);
                    }
                }
                if now.contains(t) {
                    let k = choose|k: int| 0 <= k < now.len() && now[k] == t;
                    assert(next[k] == t);
                }
                assert(next[i as int] == tick);
            }
            assert forall|t: i64| #[trigger] out@.contains(t) <==> next.contains(t) && after < t
                <= until by {
                assert(before.contains(t) <==> now.contains(t) && after < t <= until);
            }
        }
        i += 1;
    }
    assert(pending@.take(pending.len() as int) =~= pending@);
    out
}

/// A tick put into ascending ones where it is not among them.
fn add_tick(list: &mut Vec<i64>, tick: i64)
    requires
        forall|i: int, j: int| 0 <= i < j < old(list).len() ==> old(list)@[i] < old(list)@[j],
    ensures
        forall|i: int, j: int| 0 <= i < j < final(list).len() ==> final(list)@[i] < final(list)@[j],
        forall|t: i64| #[trigger]
            final(list)@.contains(t) <==> old(list)@.contains(t) || t == tick,
{
    let mut at: usize = list.len();
    while at > 0 && list[at - 1] > tick
        invariant
            at <= list.len(),
            list@ == old(list)@,
            forall|i: int| at <= i < list.len() ==> list@[i] > tick,
        decreases at,
    {
        at -= 1;
    }
    if at > 0 && list[at - 1] == tick {
        assert(list@[at - 1] == tick);
        return;
    }
    let ghost before = list@;
    list.insert(at, tick);
    proof {
        assert forall|t: i64| #[trigger] list@.contains(t) <==> before.contains(t) || t == tick by {
            if list@.contains(t) {
                let k = choose|k: int| 0 <= k < list@.len() && list@[k] == t;
                if k < at {
                    assert(before[k] == t);
                } else if k > at {
                    assert(before[k - 1] == t);
                }
            }
            if before.contains(t) {
                let k = choose|k: int| 0 <= k < before.len() && before[k] == t;
                if k < at {
                    assert(list@[k] == t);
                } else {
                    assert(list@[k + 1] == t);
                }
            }
            assert(list@[at as int] == tick);
        }
    }
}

/// The difference of two ticks, kept in range.
pub open spec fn ticks_between(from: i64, to: i64) -> int {
    let d = to - from;
    if d > i64::MAX {
        i64::MAX as int
    } else if d < i64::MIN {
        i64::MIN as int
    } else {
        d
    }
}

fn tick_difference(from: i64, to: i64) -> (out: i64)
    ensures
        out == ticks_between(from, to),
{
    let d: i128 = to as i128 - from as i128;
    if d > 0x7fff_ffff_ffff_ffff {
        i64::MAX
    } else if d < -0x8000_0000_0000_0000 {
        i64::MIN
    } else {
        d as i64
    }
}

/// The buildings that the attacker destroyed in the two seconds before the first
/// kill, by position.
pub open spec fn linked_buildings(buildings: Seq<BuildingEvent>, first: Death) -> Seq<int>
    decreases buildings.len(),
{
    if buildings.len() == 0 {
        Seq::empty()
    } else {
        let before = linked_buildings(buildings.drop_last(), first);
        let building = buildings.last();
        if building.attacker == first.attacker && building.tick <= first.event_tick
            && first.event_tick - building.tick <= 133 {
            before.push(buildings.len() - 1)
        } else {
            before
        }
    }
}

/// What positions hold.
pub open spec fn positions(list: Seq<usize>) -> Seq<int> {
    Seq::new(list.len(), |i: int| list[i] as int)
}

fn link_buildings(buildings: &Vec<BuildingEvent>, first: &Death) -> (out: Vec<usize>)
    ensures
        positions(out@) == linked_buildings(buildings@, *first),
{
    let mut out: Vec<usize> = Vec::new();
    let mut i: usize = 0;
    assert(positions(out@) =~= Seq::empty());
    while i < buildings.len()
        invariant
            i <= buildings.len(),
            positions(out@) == linked_buildings(buildings@.take(i as int), *first),
        decreases buildings.len() - i,
    {
        proof {
            assert(buildings@.take(i + 1).drop_last() =~= buildings@.take(i as int));
            assert(buildings@.take(i + 1).last() == buildings@[i as int]);
            assert(positions(out@.push(i)) =~= positions(out@).push(i as int));
        }
        let building = &buildings[i];
        if building.attacker == first.attacker && building.tick <= first.event_tick
            && first.event_tick as i128 - building.tick as i128 <= 133 {
            out.push(i);
        }
        i += 1;
    }
    assert(buildings@.take(buildings.len() as int) =~= buildings@);
    out
}

/// The number of a team; zero where the name is of none.
pub open spec fn team_number(team: Seq<char>) -> i64 {
    if team == "red"@ {
        2
    } else if team == "blu"@ {
        3
    } else {
        0
    }
}

/// Whether an objective follows a sequence that ended at a tick.
pub open spec fn follows(objective: ObjectiveEvent, last_tick: i64, team: i64) -> bool {
    objective.tick >= last_tick && objective.tick - last_tick <= OBJECTIVE_CONVERSION_TICKS
        && objective.team == team
}

/// The objectives that follow a sequence, by position.
pub open spec fn linked_objectives(
    objectives: Seq<ObjectiveEvent>,
    last_tick: i64,
    team: i64,
) -> Seq<int>
    decreases objectives.len(),
{
    if objectives.len() == 0 {
        Seq::empty()
    } else {
        let before = linked_objectives(objectives.drop_last(), last_tick, team);
        if follows(objectives.last(), last_tick, team) {
            before.push(objectives.len() - 1)
        } else {
            before
        }
    }
}

fn link_objectives(objectives: &Vec<ObjectiveEvent>, last_tick: i64, team: i64) -> (out: Vec<usize>)
    ensures
        positions(out@) == linked_objectives(objectives@, last_tick, team),
        forall|i: int| 0 <= i < out.len() ==> #[trigger] out@[i] < objectives.len(),
{
    let mut out: Vec<usize> = Vec::new();
    let mut i: usize = 0;
    assert(positions(out@) =~= Seq::empty());
    while i < objectives.len()
        invariant
            i <= objectives.len(),
            positions(out@) == linked_objectives(objectives@.take(i as int), last_tick, team),
            forall|k: int| 0 <= k < out.len() ==> #[trigger] out@[k] < i,
        decreases objectives.len() - i,
    {
        proof {
            assert(objectives@.take(i + 1).drop_last() =~= objectives@.take(i as int));
            assert(objectives@.take(i + 1).last() == objectives@[i as int]);
            assert(positions(out@.push(i)) =~= positions(out@).push(i as int));
        }
        let objective = &objectives[i];
        if objective.tick >= last_tick && objective.tick as i128 - last_tick as i128
            <= OBJECTIVE_CONVERSION_TICKS as i128 && objective.team == team {
            out.push(i);
        }
        i += 1;
    }
    assert(objectives@.take(objectives.len() as int) =~= objectives@);
    out
}

/// Whether an objective is of a kind that can be credited: a capture, the
/// attacker's own block within two seconds, or a push.
pub open spec fn credited_as(
    objective: ObjectiveEvent,
    kind: Seq<char>,
    last_tick: i64,
    attacker: i64,
) -> bool {
    objective.kind@ == kind && (kind == "capture_denial"@ ==> objective.actor_user_id == attacker
        && objective.tick - last_tick <= CAPTURE_DENIAL_TICKS)
}

/// The first of some objectives that is of a kind.
pub open spec fn first_credited(
    objectives: Seq<ObjectiveEvent>,
    linked: Seq<int>,
    kind: Seq<char>,
    last_tick: i64,
    attacker: i64,
) -> Option<int>
    decreases linked.len(),
{
    if linked.len() == 0 {
        None
    } else if credited_as(objectives[linked[0]], kind, last_tick, attacker) {
        Some(linked[0])
    } else {
        first_credited(objectives, linked.skip(1), kind, last_tick, attacker)
    }
}

/// The objective that a sequence is given credit for: a capture before a block
/// before a push.
pub open spec fn credit_for(
    objectives: Seq<ObjectiveEvent>,
    linked: Seq<int>,
    last_tick: i64,
    attacker: i64,
) -> ObjectiveCredit {
    match first_credited(objectives, linked, "point_capture"@, last_tick, attacker) {
        Some(i) => ObjectiveCredit::Capture { at: objectives[i].tick, objective: i as usize },
        None => match first_credited(objectives, linked, "capture_denial"@, last_tick, attacker) {
            Some(i) => ObjectiveCredit::Denial { at: objectives[i].tick, objective: i as usize },
            None => match first_credited(
                objectives,
                linked,
                "payload_progress"@,
                last_tick,
                attacker,
            ) {
                Some(i) => ObjectiveCredit::Payload {
                    at: objectives[i].tick,
                    objective: i as usize,
                    pusher: objectives[i].actor_user_id,
                    own: objectives[i].actor_user_id == attacker,
                },
                None => ObjectiveCredit::Nothing,
            },
        },
    }
}

fn find_credited(
    objectives: &Vec<ObjectiveEvent>,
    linked: &Vec<usize>,
    kind: &str,
    last_tick: i64,
    attacker: i64,
) -> (out: Option<usize>)
    requires
        forall|i: int| 0 <= i < linked.len() ==> #[trigger] linked@[i] < objectives.len(),
    ensures
        match out {
            Some(i) => i < objectives.len() && first_credited(
                objectives@,
                positions(linked@),
                kind@,
                last_tick,
                attacker,
            ) == Some(i as int),
            None => first_credited(objectives@, positions(linked@), kind@, last_tick, attacker)
                is None,
        },
{
    let denial = same_text(kind, "capture_denial");
    let mut i: usize = 0;
    assert(positions(linked@).skip(0) =~= positions(linked@));
    while i < linked.len()
        invariant
            i <= linked.len(),
            denial == (kind@ == "capture_denial"@),
            forall|i: int| 0 <= i < linked.len() ==> #[trigger] linked@[i] < objectives.len(),
            first_credited(objectives@, positions(linked@), kind@, last_tick, attacker)
                == first_credited(
                objectives@,
                positions(linked@).skip(i as int),
                kind@,
                last_tick,
                attacker,
            ),
        decreases linked.len() - i,
    {
        assert(positions(linked@).skip(i as int)[0] == linked@[i as int]);
        assert(positions(linked@).skip(i as int).skip(1) =~= positions(linked@).skip(i + 1));
        let at: usize = linked[i];
        let objective = &objectives[at];
        if same_text(objective.kind.as_str(), kind) && (!denial || (objective.actor_user_id
            == attacker && objective.tick as i128 - last_tick as i128
            <= CAPTURE_DENIAL_TICKS as i128)) {
            return Some(at);
        }
        i += 1;
    }
    None
}

fn find_credit(
    objectives: &Vec<ObjectiveEvent>,
    linked: &Vec<usize>,
    last_tick: i64,
    attacker: i64,
) -> (out: ObjectiveCredit)
    requires
        forall|i: int| 0 <= i < linked.len() ==> #[trigger] linked@[i] < objectives.len(),
    ensures
        out == credit_for(objectives@, positions(linked@), last_tick, attacker),
{
    if let Some(i) = find_credited(objectives, linked, "point_capture", last_tick, attacker) {
        return ObjectiveCredit::Capture { at: objectives[i].tick, objective: i };
    }
    if let Some(i) = find_credited(objectives, linked, "capture_denial", last_tick, attacker) {
        return ObjectiveCredit::Denial { at: objectives[i].tick, objective: i };
    }
    if let Some(i) = find_credited(objectives, linked, "payload_progress", last_tick, attacker) {
        return ObjectiveCredit::Payload {
            at: objectives[i].tick,
            objective: i,
            pusher: objectives[i].actor_user_id,
            own: objectives[i].actor_user_id == attacker,
        };
    }
    ObjectiveCredit::Nothing
}

// ---------------------------------------------------------------------------
// The sequence as a whole
// ---------------------------------------------------------------------------

/// What is true of a sequence as a whole.
#[derive(Clone, Copy, Debug, PartialEq, Eq, Structural)]
pub struct GroupFacts {
    pub unique_victims: usize,
    pub airshots: usize,
    pub medic_kills: usize,
    pub wipe: bool,
    pub last_enemy: bool,
    pub medic_force: bool,
    pub swing: bool,
    pub sack: bool,
    pub rapid: bool,
    pub projectile_sequence: bool,
    pub late: bool,
    pub clinch: bool,
    pub round_end: i64,
    pub buildings: usize,
    pub objective: ObjectiveCredit,
    pub enemy_alive_after: usize,
    pub earliest_enemy_respawn_tick: i64,
    pub advantage_window_ticks: i64,
    pub friendly_alive_before: usize,
    pub enemy_alive_before: usize,
    pub recent_friendly_deaths: usize,
    pub player_disadvantage_before: usize,
    pub friendly_medic_charge: Option<Double>,
    pub enemy_medic_charge: Option<Double>,
}

/// How many enemies a sequence left alive.
pub open spec fn enemies_left(first: Death, unique: int) -> int {
    if first.state.enemy_alive_before > unique {
        first.state.enemy_alive_before - unique
    } else {
        0
    }
}

/// Whether some kill was made with a projectile.
pub open spec fn any_projectile(group: Seq<Death>) -> bool {
    exists|i: int| 0 <= i < group.len() && sequence_family((#[trigger] group[i]).weapon@)
}

impl GroupFacts {
    /// The facts of a sequence.
    pub open spec fn of(
        &self,
        group: Seq<Death>,
        round: Round<Seq<char>>,
        buildings: Seq<BuildingEvent>,
        objectives: Seq<ObjectiveEvent>,
    ) -> bool {
        let first = group.first();
        let last = group.last();
        let unique = victims(group).len();
        let left = enemies_left(first, unique as int);
        let friendly = first.state.friendly_alive_before;
        let enemy = first.state.enemy_alive_before;
        let team = team_number(first.attacker_team@);
        &&& self.unique_victims == unique
        &&& self.airshots == count_of(group, KillTrait::Airshot)
        &&& self.medic_kills == count_of(group, KillTrait::MedicVictim)
        &&& self.enemy_alive_after == left
        &&& self.wipe == (first.state.enemy_state_roster >= 4 && enemy > 0 && unique >= enemy)
        &&& self.last_enemy == (enemy == 1)
        &&& self.medic_force == (forced_charges(
            group,
            last.event_tick as int,
            last.event_tick + MEDIC_FORCE_FOLLOWUP_TICKS,
        ).len() > 0)
        &&& self.earliest_enemy_respawn_tick == first_respawn(group, last.event_tick, round.end)
        &&& self.advantage_window_ticks == ticks_between(
            last.event_tick,
            self.earliest_enemy_respawn_tick,
        )
        &&& self.swing == (friendly > 0 && enemy >= friendly + 2 && left <= friendly
            && !self.medic_force && self.advantage_window_ticks >= PLAYER_SWING_MIN_WINDOW_TICKS)
        &&& self.sack == (first.state.recent_friendly_deaths >= 2
            && first.state.enemy_uber_advantage_before && (self.swing || self.medic_kills > 0))
        &&& self.friendly_alive_before == friendly
        &&& self.enemy_alive_before == enemy
        &&& self.recent_friendly_deaths == first.state.recent_friendly_deaths
        &&& self.player_disadvantage_before == first.state.player_disadvantage_before
        &&& self.friendly_medic_charge == first.state.friendly_medic_charge
        &&& self.enemy_medic_charge == first.state.enemy_medic_charge
        &&& self.rapid == (unique >= 2 && last.event_tick - first.event_tick <= 133)
        &&& self.projectile_sequence == any_projectile(group)
        &&& self.late == (round.end - last.event_tick <= 533)
        &&& self.clinch == (team > 0 && team == round.winning_team && round.end - last.event_tick
            <= ROUND_CLINCH_TICKS)
        &&& self.round_end == round.end
        &&& self.buildings == linked_buildings(buildings, first).len()
        &&& self.objective == credit_for(
            objectives,
            linked_objectives(objectives, last.event_tick, team),
            last.event_tick,
            first.attacker,
        )
    }
}

impl GroupFacts {
    /// How many enemies were alive before.
    pub open spec fn enemies_detail(self) -> LineDetail<Seq<char>> {
        LineDetail::EnemiesAlive { count: self.enemy_alive_before }
    }

    /// The time in which the team had the better numbers.
    pub open spec fn window_detail(self) -> LineDetail<Seq<char>> {
        LineDetail::Window {
            friendly_alive_before: self.friendly_alive_before,
            enemy_alive_before: self.enemy_alive_before,
            enemy_alive_after: self.enemy_alive_after,
            window_ticks: self.advantage_window_ticks,
            earliest_enemy_respawn_tick: self.earliest_enemy_respawn_tick,
        }
    }

    /// What the team had lost before.
    pub open spec fn losses_detail(self) -> LineDetail<Seq<char>> {
        LineDetail::Losses {
            recent_friendly_deaths: self.recent_friendly_deaths,
            player_disadvantage_before: self.player_disadvantage_before,
            friendly_medic_charge: self.friendly_medic_charge,
            enemy_medic_charge: self.enemy_medic_charge,
        }
    }

    fn enemies_told(&self) -> (out: LineDetail<String>)
        ensures
            out.model() == self.enemies_detail(),
    {
        LineDetail::EnemiesAlive { count: self.enemy_alive_before }
    }

    fn window_told(&self) -> (out: LineDetail<String>)
        ensures
            out.model() == self.window_detail(),
    {
        LineDetail::Window {
            friendly_alive_before: self.friendly_alive_before,
            enemy_alive_before: self.enemy_alive_before,
            enemy_alive_after: self.enemy_alive_after,
            window_ticks: self.advantage_window_ticks,
            earliest_enemy_respawn_tick: self.earliest_enemy_respawn_tick,
        }
    }

    fn losses_told(&self) -> (out: LineDetail<String>)
        ensures
            out.model() == self.losses_detail(),
    {
        LineDetail::Losses {
            recent_friendly_deaths: self.recent_friendly_deaths,
            player_disadvantage_before: self.player_disadvantage_before,
            friendly_medic_charge: self.friendly_medic_charge,
            enemy_medic_charge: self.enemy_medic_charge,
        }
    }
}

/// The line for a sequence as a whole.
pub open spec fn group_line(
    reason: Seq<char>,
    points: i64,
    event_tick: Option<i64>,
    count: Option<u64>,
) -> ScoreLine<Seq<char>> {
    told_group_line(reason, points, event_tick, count, LineDetail::Nothing)
}

/// The line for a sequence as a whole, with what it rests on.
pub open spec fn told_group_line(
    reason: Seq<char>,
    points: i64,
    event_tick: Option<i64>,
    count: Option<u64>,
    detail: LineDetail<Seq<char>>,
) -> ScoreLine<Seq<char>> {
    ScoreLine { reason, points, event_tick, count, kill: None, detail }
}

fn put_group_line(
    sheet: &mut ScoreSheet,
    Ghost(slack): Ghost<int>,
    condition: bool,
    reason: &str,
    points: i64,
    event_tick: Option<i64>,
    count: Option<u64>,
)
    requires
        old(sheet).wf(slack),
        0 <= slack <= 0x1000_0000_0000,
        -2500 <= points <= 2500,
        old(sheet).lines.len() <= 0x2_0000_0000_0000,
    ensures
        final(sheet).wf(slack),
        final(sheet).model() == line_if(
            old(sheet).model(),
            condition,
            group_line(reason@, points, event_tick, count),
        ),
        final(sheet).lines.len() <= old(sheet).lines.len() + 1,
{
    put_told_group_line(
        sheet,
        Ghost(slack),
        condition,
        reason,
        points,
        event_tick,
        count,
        LineDetail::Nothing,
    );
}

fn put_told_group_line(
    sheet: &mut ScoreSheet,
    Ghost(slack): Ghost<int>,
    condition: bool,
    reason: &str,
    points: i64,
    event_tick: Option<i64>,
    count: Option<u64>,
    detail: LineDetail<String>,
)
    requires
        old(sheet).wf(slack),
        0 <= slack <= 0x1000_0000_0000,
        -2500 <= points <= 2500,
        old(sheet).lines.len() <= 0x2_0000_0000_0000,
    ensures
        final(sheet).wf(slack),
        final(sheet).model() == line_if(
            old(sheet).model(),
            condition,
            told_group_line(reason@, points, event_tick, count, detail.model()),
        ),
        final(sheet).lines.len() <= old(sheet).lines.len() + 1,
{
    if condition {
        let line = ScoreLine {
            reason: reason.to_owned(),
            points,
            event_tick,
            count,
            kill: None,
            detail,
        };
        let ghost before = sheet.lines@;
        sheet.points = sheet.points + points;
        sheet.lines.push(line);
        proof {
            assert(line_models(sheet.lines@) =~= line_models(before).push(line.model()));
            assert(line_models(sheet.lines@).drop_last() =~= line_models(before));
        }
    }
}

/// The line for every victim past the first added to others.
pub open spec fn with_extra_line(base: Seq<ScoreLine<Seq<char>>>, facts: GroupFacts) -> Seq<
    ScoreLine<Seq<char>>,
> {
    line_if(
        base,
        facts.unique_victims > 1,
        group_line(
            "additional_kills"@,
            (1800 * (facts.unique_victims - 1)) as i64,
            None,
            Some((facts.unique_victims - 1) as u64),
        ),
    )
}

/// The lines for the number of kills, past the first extra one, added to others.
#[verifier::opaque]
pub open spec fn with_count_lines(base: Seq<ScoreLine<Seq<char>>>, facts: GroupFacts) -> Seq<
    ScoreLine<Seq<char>>,
> {
    let l0 = line_if(base, facts.unique_victims >= 3, group_line("three_kill"@, 1500i64, None, None));
    let l1 = line_if(l0, facts.unique_victims >= 4, group_line("four_kill_plus"@, 2500i64, None, None));
    let l2 = line_if(l1, facts.airshots >= 2, group_line("multiple_confirmed_airshots"@, 1500i64, None, Some(facts.airshots as u64)));
    let l3 = line_if(l2, facts.wipe, told_group_line("sequence_finished_enemy_team"@, 1800i64, None, None, facts.enemies_detail()));
    l3
}

fn add_count_lines(lines: &mut ScoreSheet, facts: &GroupFacts, Ghost(slack): Ghost<int>)
    requires
        old(lines).wf(slack),
        0 <= slack <= 0x1000_0000_0000,
        old(lines).lines.len() <= 0x1_0000_0000_0000,
    ensures
        final(lines).wf(slack),
        final(lines).model() == with_count_lines(old(lines).model(), *facts),
        final(lines).lines.len() <= old(lines).lines.len() + 4,
{
    proof {
        reveal(with_count_lines);
    }
    put_group_line(lines, Ghost(slack), facts.unique_victims >= 3, "three_kill", 1500, None, None);
    put_group_line(lines, Ghost(slack), facts.unique_victims >= 4, "four_kill_plus", 2500, None, None);
    put_group_line(lines, Ghost(slack), facts.airshots >= 2, "multiple_confirmed_airshots", 1500, None, Some(facts.airshots as u64));
    put_told_group_line(lines, Ghost(slack), facts.wipe, "sequence_finished_enemy_team", 1800, None, None, facts.enemies_told());
}

/// The lines for what a sequence did to the balance of a fight added to others.
#[verifier::opaque]
pub open spec fn with_swing_lines(base: Seq<ScoreLine<Seq<char>>>, facts: GroupFacts) -> Seq<
    ScoreLine<Seq<char>>,
> {
    let l0 = line_if(base, facts.medic_force, told_group_line("enemy_medic_forced_uber_after_sequence"@, 1600i64, None, None, LineDetail::ForcedCharges));
    let l1 = line_if(l0, facts.swing, told_group_line("sequence_created_player_count_window"@, 1600i64, None, None, facts.window_detail()));
    let l2 = line_if(l1, facts.sack, told_group_line("sack_uber_recovery_after_losses"@, 1600i64, None, None, facts.losses_detail()));
    let l3 = line_if(l2, facts.sack && facts.medic_kills > 0, group_line("sack_uber_medic_equalizer"@, 1200i64, None, None));
    l3
}

fn add_swing_lines(lines: &mut ScoreSheet, facts: &GroupFacts, Ghost(slack): Ghost<int>)
    requires
        old(lines).wf(slack),
        0 <= slack <= 0x1000_0000_0000,
        old(lines).lines.len() <= 0x1_0000_0000_0000,
    ensures
        final(lines).wf(slack),
        final(lines).model() == with_swing_lines(old(lines).model(), *facts),
        final(lines).lines.len() <= old(lines).lines.len() + 4,
{
    proof {
        reveal(with_swing_lines);
    }
    put_told_group_line(lines, Ghost(slack), facts.medic_force, "enemy_medic_forced_uber_after_sequence", 1600, None, None, LineDetail::ForcedCharges);
    put_told_group_line(lines, Ghost(slack), facts.swing, "sequence_created_player_count_window", 1600, None, None, facts.window_told());
    put_told_group_line(lines, Ghost(slack), facts.sack, "sack_uber_recovery_after_losses", 1600, None, None, facts.losses_told());
    put_group_line(lines, Ghost(slack), facts.sack && facts.medic_kills > 0, "sack_uber_medic_equalizer", 1200, None, None);
}

/// The lines for when and with what a sequence was made added to others.
#[verifier::opaque]
pub open spec fn with_timing_lines(base: Seq<ScoreLine<Seq<char>>>, facts: GroupFacts) -> Seq<
    ScoreLine<Seq<char>>,
> {
    let l0 = line_if(base, facts.rapid, group_line("rapid_sequence"@, 1200i64, None, None));
    let l1 = line_if(l0, facts.projectile_sequence, group_line("projectile_sequence"@, 800i64, None, None));
    let l2 = line_if(l1, facts.late, group_line("late_round"@, 800i64, None, None));
    let l3 = line_if(l2, facts.clinch, group_line("team_won_immediately_after_sequence"@, 1200i64, Some(facts.round_end), None));
    let l4 = line_if(l3, facts.buildings > 0, group_line("building_destruction_led_to_kills"@, 600i64, None, Some(facts.buildings as u64)));
    l4
}

fn add_timing_lines(lines: &mut ScoreSheet, facts: &GroupFacts, Ghost(slack): Ghost<int>)
    requires
        old(lines).wf(slack),
        0 <= slack <= 0x1000_0000_0000,
        old(lines).lines.len() <= 0x1_0000_0000_0000,
    ensures
        final(lines).wf(slack),
        final(lines).model() == with_timing_lines(old(lines).model(), *facts),
        final(lines).lines.len() <= old(lines).lines.len() + 5,
{
    proof {
        reveal(with_timing_lines);
    }
    put_group_line(lines, Ghost(slack), facts.rapid, "rapid_sequence", 1200, None, None);
    put_group_line(lines, Ghost(slack), facts.projectile_sequence, "projectile_sequence", 800, None, None);
    put_group_line(lines, Ghost(slack), facts.late, "late_round", 800, None, None);
    put_group_line(lines, Ghost(slack), facts.clinch, "team_won_immediately_after_sequence", 1200, Some(facts.round_end), None);
    put_group_line(lines, Ghost(slack), facts.buildings > 0, "building_destruction_led_to_kills", 600, None, Some(facts.buildings as u64));
}

/// The line for the objective that a sequence led to added to others.
#[verifier::opaque]
pub open spec fn with_objective_lines(base: Seq<ScoreLine<Seq<char>>>, facts: GroupFacts) -> Seq<
    ScoreLine<Seq<char>>,
> {
    let l0 = line_if(base, facts.objective is Capture, told_group_line("kills_to_secure_cap"@, facts.objective.points() as i64, facts.objective.tick(), None, facts.objective.detail()));
    let l1 = line_if(l0, facts.objective is Denial, told_group_line("kill_sequence_blocked_capture"@, facts.objective.points() as i64, facts.objective.tick(), None, facts.objective.detail()));
    let l2 = line_if(l1, facts.objective is Payload, told_group_line("kill_sequence_led_to_payload_progress"@, facts.objective.points() as i64, facts.objective.tick(), None, facts.objective.detail()));
    l2
}

fn add_objective_lines(lines: &mut ScoreSheet, facts: &GroupFacts, Ghost(slack): Ghost<int>)
    requires
        old(lines).wf(slack),
        0 <= slack <= 0x1000_0000_0000,
        old(lines).lines.len() <= 0x1_0000_0000_0000,
    ensures
        final(lines).wf(slack),
        final(lines).model() == with_objective_lines(old(lines).model(), *facts),
        final(lines).lines.len() <= old(lines).lines.len() + 3,
{
    proof {
        reveal(with_objective_lines);
    }
    put_told_group_line(lines, Ghost(slack), facts.objective.is_capture(), "kills_to_secure_cap", facts.objective.score(), facts.objective.event_tick(), None, facts.objective.told());
    put_told_group_line(lines, Ghost(slack), facts.objective.is_denial(), "kill_sequence_blocked_capture", facts.objective.score(), facts.objective.event_tick(), None, facts.objective.told());
    put_told_group_line(lines, Ghost(slack), facts.objective.is_payload(), "kill_sequence_led_to_payload_progress", facts.objective.score(), facts.objective.event_tick(), None, facts.objective.told());
}

/// The tags of a sequence as a whole added to others.
#[verifier::opaque]
pub open spec fn with_group_tags(base: Set<Seq<char>>, facts: GroupFacts) -> Set<Seq<char>> {
    let s0 = tag_if(base, facts.unique_victims > 1, "multi_kill"@);
    let s1 = tag_if(s0, facts.unique_victims >= 3, "three_kill"@);
    let s2 = tag_if(s1, facts.unique_victims >= 4, "four_kill_plus"@);
    let s3 = tag_if(s2, facts.airshots >= 2, "double_airshot_sequence"@);
    let s4 = tag_if(s3, facts.wipe, "team_wipe"@);
    let s5 = tag_if(s4, facts.wipe && facts.last_enemy, "last_enemy_alive"@);
    let s6 = tag_if(s5, facts.medic_force, "medic_force"@);
    let s7 = tag_if(s6, facts.swing, "player_count_swing"@);
    let s8 = tag_if(s7, facts.sack, "sack_uber_recovery"@);
    let s9 = tag_if(s8, facts.sack && facts.medic_kills > 0, "sack_uber_medic_equalizer"@);
    let s10 = tag_if(s9, facts.rapid, "rapid_sequence"@);
    let s11 = tag_if(s10, facts.late, "late_round"@);
    let s12 = tag_if(s11, facts.clinch, "round_clinch"@);
    let s13 = tag_if(s12, facts.buildings > 0, "building_to_kill_sequence"@);
    let s14 = tag_if(s13, facts.objective is Capture, "kills_to_secure_cap"@);
    let s15 = tag_if(s14, facts.objective is Denial, "capture_denial_followup"@);
    let s16 = tag_if(s15, facts.objective is Payload, "payload_progress_followup"@);
    let s17 = tag_if(s16, facts.objective.pushed_by_attacker(), "payload_pusher"@);
    s17
}

/// The tags of a sequence as a whole take none of others away.
pub proof fn lemma_group_tags_are_added(base: Set<Seq<char>>, facts: GroupFacts)
    ensures
        base.subset_of(with_group_tags(base, facts)),
{
    reveal(with_group_tags);
}

fn add_group_tags(tags: &mut Vec<String>, facts: &GroupFacts)
    requires
        ascending(views(old(tags)@)),
    ensures
        ascending(views(final(tags)@)),
        members(final(tags)@) == with_group_tags(members(old(tags)@), *facts),
{
    proof {
        reveal(with_group_tags);
    }
    put_if(tags, facts.unique_victims > 1, "multi_kill");
    put_if(tags, facts.unique_victims >= 3, "three_kill");
    put_if(tags, facts.unique_victims >= 4, "four_kill_plus");
    put_if(tags, facts.airshots >= 2, "double_airshot_sequence");
    put_if(tags, facts.wipe, "team_wipe");
    put_if(tags, facts.wipe && facts.last_enemy, "last_enemy_alive");
    put_if(tags, facts.medic_force, "medic_force");
    put_if(tags, facts.swing, "player_count_swing");
    put_if(tags, facts.sack, "sack_uber_recovery");
    put_if(tags, facts.sack && facts.medic_kills > 0, "sack_uber_medic_equalizer");
    put_if(tags, facts.rapid, "rapid_sequence");
    put_if(tags, facts.late, "late_round");
    put_if(tags, facts.clinch, "round_clinch");
    put_if(tags, facts.buildings > 0, "building_to_kill_sequence");
    put_if(tags, facts.objective.is_capture(), "kills_to_secure_cap");
    put_if(tags, facts.objective.is_denial(), "capture_denial_followup");
    put_if(tags, facts.objective.is_payload(), "payload_progress_followup");
    put_if(tags, facts.objective.is_own_payload(), "payload_pusher");
}

/// The tags of the kills of a sequence.
pub open spec fn kills_tags(group: Seq<Death>) -> Set<Seq<char>>
    decreases group.len(),
{
    if group.len() == 0 {
        Set::empty()
    } else {
        with_kill_tags(
            kills_tags(group.drop_last()),
            group.last(),
            unicode_lower(group.last().weapon@),
        )
    }
}

/// The lines for the kills of a sequence, after the one that every candidate
/// starts with.
pub open spec fn kills_lines(group: Seq<Death>) -> Seq<ScoreLine<Seq<char>>>
    decreases group.len(),
{
    if group.len() == 0 {
        seq![group_line("candidate_base"@, 1000, None, None)]
    } else {
        with_kill_lines(
            kills_lines(group.drop_last()),
            group.last(),
            unicode_lower(group.last().weapon@),
            group.len() - 1,
        )
    }
}

/// All lines for a sequence.
pub open spec fn group_lines(group: Seq<Death>, facts: GroupFacts) -> Seq<ScoreLine<Seq<char>>> {
    with_objective_lines(
        with_timing_lines(
            with_swing_lines(
                with_count_lines(with_extra_line(kills_lines(group), facts), facts),
                facts,
            ),
            facts,
        ),
        facts,
    )
}

/// What a sequence is worth. The score is in hundredths.
#[derive(Debug)]
pub struct ScoredGroup {
    pub score: i64,
    pub score_before_floor: i64,
    pub tags: Vec<String>,
    pub lines: Vec<ScoreLine<String>>,
    pub facts: GroupFacts,
    pub force_followups: Vec<ForceFollowup>,
    /// When friends are back before the first enemy is.
    pub friendly_respawns: Vec<i64>,
    /// The buildings and objectives that belong to the sequence, by position.
    pub building_followups: Vec<usize>,
    pub objective_followups: Vec<usize>,
}

impl ScoredGroup {
    /// The worth of a sequence, with what it rests on.
    pub open spec fn of(
        &self,
        group: Seq<Death>,
        round: Round<Seq<char>>,
        buildings: Seq<BuildingEvent>,
        objectives: Seq<ObjectiveEvent>,
    ) -> bool {
        &&& self.facts.of(group, round, buildings, objectives)
        &&& ascending(views(self.tags@))
        &&& members(self.tags@) == with_group_tags(kills_tags(group), self.facts)
        &&& line_models(self.lines@) == group_lines(group, self.facts)
        &&& self.score_before_floor == total(line_models(self.lines@))
        &&& self.score == (if self.score_before_floor > 0 {
            self.score_before_floor
        } else {
            0
        })
        &&& self.force_followups@ == forced_charges(
            group,
            group.last().event_tick as int,
            group.last().event_tick + MEDIC_FORCE_FOLLOWUP_TICKS,
        )
        &&& are_respawns_between(
            self.friendly_respawns@,
            group.last().state.friendly_pending_respawn_ticks@,
            group.last().event_tick,
            self.facts.earliest_enemy_respawn_tick,
        )
        &&& positions(self.building_followups@) == linked_buildings(buildings, group.first())
        &&& positions(self.objective_followups@) == linked_objectives(
            objectives,
            group.last().event_tick,
            team_number(group.first().attacker_team@),
        )
    }
}

fn uses_projectiles(group: &Vec<Death>) -> (r: bool)
    ensures
        r == any_projectile(group@),
{
    let mut i: usize = 0;
    while i < group.len()
        invariant
            i <= group.len(),
            forall|j: int| 0 <= j < i ==> !sequence_family((#[trigger] group@[j]).weapon@),
        decreases group.len() - i,
    {
        if is_sequence_family(group[i].weapon.as_str()) {
            assert(sequence_family(group@[i as int].weapon@));
            return true;
        }
        i += 1;
    }
    false
}

/// The number of a team.
pub fn team_number_of(team: &str) -> (out: i64)
    ensures
        out == team_number(team@),
{
    if same_text(team, "red") {
        2
    } else if same_text(team, "blu") {
        3
    } else {
        0
    }
}

fn tag_kills(group: &Vec<Death>) -> (out: Vec<String>)
    ensures
        ascending(views(out@)),
        members(out@) == kills_tags(group@),
{
    let mut tags: Vec<String> = Vec::new();
    let mut i: usize = 0;
    assert(members(tags@) =~= Set::empty());
    while i < group.len()
        invariant
            i <= group.len(),
            ascending(views(tags@)),
            members(tags@) == kills_tags(group@.take(i as int)),
        decreases group.len() - i,
    {
        proof {
            assert(group@.take(i + 1).drop_last() =~= group@.take(i as int));
            assert(group@.take(i + 1).last() == group@[i as int]);
        }
        let weapon = to_lowercase(group[i].weapon.as_str());
        let facts = gather_facts(&group[i], weapon.as_str());
        add_kill_tags(&mut tags, &group[i], weapon.as_str(), &facts);
        i += 1;
    }
    assert(group@.take(group.len() as int) =~= group@);
    tags
}

fn score_kills(group: &Vec<Death>) -> (out: ScoreSheet)
    requires
        group.len() <= 0xffff_ffff,
    ensures
        out.wf(0),
        out.model() == kills_lines(group@),
        out.lines.len() <= 24 * group.len() + 1,
{
    let mut sheet = ScoreSheet { lines: Vec::new(), points: 0 };
    assert(line_models(sheet.lines@) =~= Seq::empty());
    put_group_line(&mut sheet, Ghost(0), true, "candidate_base", 1000, None, None);
    assert(sheet.model() =~= kills_lines(group@.take(0)));
    let mut i: usize = 0;
    while i < group.len()
        invariant
            i <= group.len() <= 0xffff_ffff,
            sheet.wf(0),
            sheet.model() == kills_lines(group@.take(i as int)),
            sheet.lines.len() <= 24 * i + 1,
        decreases group.len() - i,
    {
        proof {
            assert(group@.take(i + 1).drop_last() =~= group@.take(i as int));
            assert(group@.take(i + 1).last() == group@[i as int]);
        }
        let weapon = to_lowercase(group[i].weapon.as_str());
        let facts = gather_facts(&group[i], weapon.as_str());
        add_kill_lines(&mut sheet, &group[i], weapon.as_str(), &facts, i);
        i += 1;
    }
    assert(group@.take(group.len() as int) =~= group@);
    sheet
}

fn add_extra_line(sheet: &mut ScoreSheet, facts: &GroupFacts)
    requires
        old(sheet).wf(0),
        old(sheet).lines.len() <= 0x1_0000_0000_0000,
        facts.unique_victims <= 0xffff_ffff,
    ensures
        final(sheet).wf(0x1000_0000_0000),
        final(sheet).model() == with_extra_line(old(sheet).model(), *facts),
        final(sheet).lines.len() <= old(sheet).lines.len() + 1,
{
    if facts.unique_victims > 1 {
        let extra: usize = facts.unique_victims - 1;
        let points: i64 = 1800 * extra as i64;
        let line = ScoreLine {
            reason: "additional_kills".to_owned(),
            points,
            event_tick: None,
            count: Some(extra as u64),
            kill: None,
            detail: LineDetail::Nothing,
        };
        let ghost before = sheet.lines@;
        sheet.points = sheet.points + points;
        sheet.lines.push(line);
        proof {
            assert(line_models(sheet.lines@) =~= line_models(before).push(line.model()));
            assert(line_models(sheet.lines@).drop_last() =~= line_models(before));
        }
    }
}

/// The worth of a sequence of kills in a round.
pub fn score_group(
    group: &Vec<Death>,
    round: &Round<String>,
    buildings: &Vec<BuildingEvent>,
    objectives: &Vec<ObjectiveEvent>,
) -> (out: ScoredGroup)
    requires
        0 < group.len() <= 0xffff_ffff,
    ensures
        out.of(group@, round.model(), buildings@, objectives@),
{
    let first = &group[0];
    let last = &group[group.len() - 1];
    let unique: usize = count_victims(group);
    let medic_kills: usize = count_kills(group, KillTrait::MedicVictim);
    let enemy: usize = first.state.enemy_alive_before;
    let friendly: usize = first.state.friendly_alive_before;
    let left: usize = if enemy > unique {
        enemy - unique
    } else {
        0
    };
    let force_followups = collect_charges(
        group,
        last.event_tick,
        last.event_tick as i128 + MEDIC_FORCE_FOLLOWUP_TICKS as i128,
    );
    let medic_force = force_followups.len() > 0;
    let respawn: i64 = find_respawn(group, last.event_tick, round.end);
    let window: i64 = tick_difference(last.event_tick, respawn);
    let swing = friendly > 0 && enemy as u128 >= friendly as u128 + 2 && left <= friendly
        && !medic_force && window >= PLAYER_SWING_MIN_WINDOW_TICKS;
    let to_end: i128 = round.end as i128 - last.event_tick as i128;
    let team: i64 = team_number_of(first.attacker_team.as_str());
    let building_followups = link_buildings(buildings, first);
    let objective_followups = link_objectives(objectives, last.event_tick, team);
    let facts = GroupFacts {
        unique_victims: unique,
        airshots: count_kills(group, KillTrait::Airshot),
        medic_kills,
        wipe: first.state.enemy_state_roster >= 4 && enemy > 0 && unique >= enemy,
        last_enemy: enemy == 1,
        medic_force,
        swing,
        sack: first.state.recent_friendly_deaths >= 2 && first.state.enemy_uber_advantage_before
            && (swing || medic_kills > 0),
        rapid: unique >= 2 && last.event_tick as i128 - first.event_tick as i128 <= 133,
        projectile_sequence: uses_projectiles(group),
        late: to_end <= 533,
        clinch: team > 0 && team == round.winning_team && to_end <= ROUND_CLINCH_TICKS as i128,
        round_end: round.end,
        buildings: building_followups.len(),
        objective: find_credit(objectives, &objective_followups, last.event_tick, first.attacker),
        enemy_alive_after: left,
        earliest_enemy_respawn_tick: respawn,
        advantage_window_ticks: window,
        friendly_alive_before: friendly,
        enemy_alive_before: enemy,
        recent_friendly_deaths: first.state.recent_friendly_deaths,
        player_disadvantage_before: first.state.player_disadvantage_before,
        friendly_medic_charge: first.state.friendly_medic_charge,
        enemy_medic_charge: first.state.enemy_medic_charge,
    };
    assert(positions(building_followups@).len() == building_followups.len());
    let mut tags = tag_kills(group);
    add_group_tags(&mut tags, &facts);
    let mut sheet = score_kills(group);
    add_extra_line(&mut sheet, &facts);
    add_count_lines(&mut sheet, &facts, Ghost(0x1000_0000_0000));
    add_swing_lines(&mut sheet, &facts, Ghost(0x1000_0000_0000));
    add_timing_lines(&mut sheet, &facts, Ghost(0x1000_0000_0000));
    add_objective_lines(&mut sheet, &facts, Ghost(0x1000_0000_0000));
    let raw: i64 = sheet.points;
    let score: i64 = if raw > 0 {
        raw
    } else {
        0
    };
    ScoredGroup {
        score,
        score_before_floor: raw,
        tags,
        lines: sheet.lines,
        facts,
        force_followups,
        friendly_respawns: friendly_respawns(
            &last.state.friendly_pending_respawn_ticks,
            last.event_tick,
            respawn,
        ),
        building_followups,
        objective_followups,
    }
}

// ---------------------------------------------------------------------------
// What a sequence is tagged for, and what it is worth
// ---------------------------------------------------------------------------

/// Kills are counted by the numbers that the game gives them, and by whom and what they
/// hit.
pub proof fn law_kills_are_counted_for_what_they_are(kill: Death)
    ensures
        has_trait(kill, KillTrait::Backstab) <==> kill.custom_kill == 2,
        has_trait(kill, KillTrait::ShieldBash) <==> kill.custom_kill == 23,
        has_trait(kill, KillTrait::Taunt) <==> (kill.custom_kill == 7 || kill.custom_kill == 9
            || kill.custom_kill == 10 || kill.custom_kill == 13 || kill.custom_kill == 15
            || kill.custom_kill == 21 || kill.custom_kill == 24 || kill.custom_kill == 29
            || kill.custom_kill == 33 || kill.custom_kill == 38 || kill.custom_kill == 52
            || kill.custom_kill == 60 || kill.custom_kill == 80),
        has_trait(kill, KillTrait::Melee) <==> melee(kill) && kill.custom_kill != 2
            && kill.custom_kill != 23 && !has_trait(kill, KillTrait::Taunt),
        has_trait(kill, KillTrait::ChargeMelee) <==> melee(kill) && kill.custom_kill != 23
            && kill.attacker_class@ == "demoman"@
            && kill.state.attacker_recent_shield_charge_tick is Some,
        has_trait(kill, KillTrait::MedicVictim) <==> kill.victim_class@ == "medic"@,
        has_trait(kill, KillTrait::DemomanVictim) <==> kill.victim_class@ == "demoman"@,
        has_trait(kill, KillTrait::FullCrit) <==> kill.crit_type == 2,
        has_trait(kill, KillTrait::Kritzkrieg) <==> kill.state.confirmed_kritzkrieg_boost
            && kill.crit_type > 0,
        has_trait(kill, KillTrait::DoubleDonk) <==> kill.state.confirmed_double_donk,
        has_trait(kill, KillTrait::UberDrop) <==> kill.state.confirmed_uber_drop,
        has_trait(kill, KillTrait::Airshot)
            <==> kill.state.victim_airborne_before_projectile_impact && (
        kill.state.projectile matches Some(projectile) && projectile.airshot_eligible),
        has_trait(kill, KillTrait::DirectAirshot) <==> has_trait(kill, KillTrait::Airshot)
            && kill.state.projectile->0.distance.value() <= natural(64),
{
}

/// The kills of two sequences are counted together as each by itself, and a kill counts
/// once.
pub proof fn law_counts_add_up(a: Seq<Death>, b: Seq<Death>, kill: Death, kind: KillTrait)
    ensures
        count_of(a + b, kind) == count_of(a, kind) + count_of(b, kind),
        count_of(seq![kill], kind) == (if has_trait(kill, kind) {
            1nat
        } else {
            0
        }),
    decreases b.len(),
{
    assert(seq![kill].drop_last() =~= Seq::empty());
    assert(seq![kill].last() == kill);
    reveal_with_fuel(count_of, 2);
    if b.len() == 0 {
        assert(a + b =~= a);
    } else {
        assert((a + b).drop_last() =~= a + b.drop_last());
        assert((a + b).last() == b.last());
        law_counts_add_up(a, b.drop_last(), kill, kind);
    }
}

/// The prints of the tags of sequences.
proof fn lemma_group_tags_differ()
    ensures
        print_of("multi_kill"@) == 116109010,
        print_of("three_kill"@) == 101116010,
        print_of("four_kill_plus"@) == 114102014,
        print_of("double_airshot_sequence"@) == 98100023,
        print_of("team_wipe"@) == 109116009,
        print_of("last_enemy_alive"@) == 116108016,
        print_of("medic_force"@) == 105109011,
        print_of("player_count_swing"@) == 121112018,
        print_of("sack_uber_recovery"@) == 107115018,
        print_of("sack_uber_medic_equalizer"@) == 107115025,
        print_of("rapid_sequence"@) == 105114014,
        print_of("late_round"@) == 101108010,
        print_of("round_clinch"@) == 110114012,
        print_of("building_to_kill_sequence"@) == 108098025,
        print_of("kills_to_secure_cap"@) == 108107019,
        print_of("capture_denial_followup"@) == 116099023,
        print_of("payload_progress_followup"@) == 108112025,
        print_of("payload_pusher"@) == 108112014,
{
    reveal(print_of);
    reveal_strlit("multi_kill");
    reveal_strlit("three_kill");
    reveal_strlit("four_kill_plus");
    reveal_strlit("double_airshot_sequence");
    reveal_strlit("team_wipe");
    reveal_strlit("last_enemy_alive");
    reveal_strlit("medic_force");
    reveal_strlit("player_count_swing");
    reveal_strlit("sack_uber_recovery");
    reveal_strlit("sack_uber_medic_equalizer");
    reveal_strlit("rapid_sequence");
    reveal_strlit("late_round");
    reveal_strlit("round_clinch");
    reveal_strlit("building_to_kill_sequence");
    reveal_strlit("kills_to_secure_cap");
    reveal_strlit("capture_denial_followup");
    reveal_strlit("payload_progress_followup");
    reveal_strlit("payload_pusher");
}

proof fn lemma_tags_of_kills(group: Seq<Death>)
    ensures
        forall|tag: Seq<char>| #[trigger]
            kills_tags(group).contains(tag) <==> exists|i: int|
                0 <= i < group.len() && tags_under(
                    #[trigger] group[i],
                    unicode_lower(group[i].weapon@),
                ).contains(tag),
    decreases group.len(),
{
    if group.len() > 0 {
        let rest = group.drop_last();
        let last = group.last();
        lemma_tags_of_kills(rest);
        lemma_kill_tags_are_added(kills_tags(rest), last, unicode_lower(last.weapon@));
        assert forall|tag: Seq<char>| #[trigger] kills_tags(group).contains(tag) <==> exists|i: int|
            0 <= i < group.len() && tags_under(
                #[trigger] group[i],
                unicode_lower(group[i].weapon@),
            ).contains(tag) by {
            if kills_tags(rest).contains(tag) {
                let i = choose|i: int|
                    0 <= i < rest.len() && tags_under(
                        #[trigger] rest[i],
                        unicode_lower(rest[i].weapon@),
                    ).contains(tag);
                assert(group[i] == rest[i]);
            }
            if tags_under(last, unicode_lower(last.weapon@)).contains(tag) {
                assert(group[group.len() - 1] == last);
            }
            if exists|i: int|
                0 <= i < group.len() && tags_under(
                    #[trigger] group[i],
                    unicode_lower(group[i].weapon@),
                ).contains(tag) {
                let i = choose|i: int|
                    0 <= i < group.len() && tags_under(
                        #[trigger] group[i],
                        unicode_lower(group[i].weapon@),
                    ).contains(tag);
                if i < rest.len() {
                    assert(rest[i] == group[i]);
                }
            }
        }
    }
}

proof fn lemma_not_of_kills(group: Seq<Death>, tag: Seq<char>)
    requires
        print_of(tag) != 106112015,
        print_of(tag) != 101112004,
        print_of(tag) != 107114006,
        print_of(tag) != 116104008,
        print_of(tag) != 115099008,
        print_of(tag) != 107109015,
        print_of(tag) != 105097012,
        print_of(tag) != 107098010,
        print_of(tag) != 97097010,
        print_of(tag) != 97107005,
        print_of(tag) != 114101014,
        print_of(tag) != 98116016,
        print_of(tag) != 116107015,
        print_of(tag) != 107109013,
        print_of(tag) != 98100011,
        print_of(tag) != 112115015,
        print_of(tag) != 111100010,
        print_of(tag) != 101115016,
        print_of(tag) != 114099017,
        print_of(tag) != 101109010,
        print_of(tag) != 107098008,
        print_of(tag) != 110116010,
        print_of(tag) != 105109010,
        print_of(tag) != 114117009,
        print_of(tag) != 111100012,
        print_of(tag) != 102099017,
        print_of(tag) != 101100014,
        print_of(tag) != 103108019,
        print_of(tag) != 104104012,
        print_of(tag) != 119115015,
        print_of(tag) != 114101015,
        print_of(tag) != 98097024,
        print_of(tag) != 107114018,
        print_of(tag) != 101115014,
        print_of(tag) != 100114016,
    ensures
        !kills_tags(group).contains(tag),
{
    lemma_tags_of_kills(group);
    assert forall|i: int| 0 <= i < group.len() implies !tags_under(
        #[trigger] group[i],
        unicode_lower(group[i].weapon@),
    ).contains(tag) by {
        lemma_no_kill_tag(group[i], unicode_lower(group[i].weapon@), tag);
    }
}

/// The tags of a sequence.
pub open spec fn tags_of_group(group: Seq<Death>, facts: GroupFacts) -> Set<Seq<char>> {
    with_group_tags(kills_tags(group), facts)
}

/// Every tag of a kill is one of its sequence: there is a stab in the back in it where a
/// kill is one, a Medic where a kill hit one, an airshot where one was made.
pub proof fn law_sequence_has_the_tags_of_its_kills(
    group: Seq<Death>,
    facts: GroupFacts,
    i: int,
    tag: Seq<char>,
)
    requires
        0 <= i < group.len(),
        tags_under(group[i], unicode_lower(group[i].weapon@)).contains(tag),
    ensures
        tags_of_group(group, facts).contains(tag),
{
    lemma_tags_of_kills(group);
    lemma_group_tags_are_added(kills_tags(group), facts);
    assert(kills_tags(group).contains(tag));
}

/// A sequence is tagged for how many it killed, how fast, and how late in the round.
pub proof fn law_sequence_is_tagged_for_its_kills(
    group: Seq<Death>,
    facts: GroupFacts,
    round: Round<Seq<char>>,
    buildings: Seq<BuildingEvent>,
    objectives: Seq<ObjectiveEvent>,
)
    requires
        group.len() > 0,
        facts.of(group, round, buildings, objectives),
    ensures
        ({
            let tags = tags_of_group(group, facts);
            let first = group.first();
            let last = group.last();
            let killed = victims(group).len();
            &&& tags.contains("multi_kill"@) <==> killed >= 2
            &&& tags.contains("three_kill"@) <==> killed >= 3
            &&& tags.contains("four_kill_plus"@) <==> killed >= 4
            &&& tags.contains("rapid_sequence"@) <==> killed >= 2 && last.event_tick
                - first.event_tick <= 133
            &&& tags.contains("late_round"@) <==> round.end - last.event_tick <= 533
            &&& tags.contains("round_clinch"@) <==> round.end - last.event_tick <= 200 && (
            first.attacker_team@ == "red"@ && round.winning_team == 2 || first.attacker_team@
                == "blu"@ && round.winning_team == 3)
            &&& tags.contains("double_airshot_sequence"@) <==> count_of(group, KillTrait::Airshot)
                >= 2
            &&& tags.contains("team_wipe"@) <==> first.state.enemy_state_roster >= 4
                && first.state.enemy_alive_before > 0 && killed >= first.state.enemy_alive_before
            &&& tags.contains("last_enemy_alive"@) <==> tags.contains("team_wipe"@)
                && first.state.enemy_alive_before == 1
        }),
{
    lemma_group_tags_differ();
    reveal_strlit("red");
    reveal_strlit("blu");
    assert("red"@[0] == 'r' && "blu"@[0] == 'b');
    lemma_not_of_kills(group, "multi_kill"@);
    lemma_not_of_kills(group, "three_kill"@);
    lemma_not_of_kills(group, "four_kill_plus"@);
    lemma_not_of_kills(group, "double_airshot_sequence"@);
    lemma_not_of_kills(group, "team_wipe"@);
    lemma_not_of_kills(group, "last_enemy_alive"@);
    lemma_not_of_kills(group, "medic_force"@);
    lemma_not_of_kills(group, "player_count_swing"@);
    lemma_not_of_kills(group, "sack_uber_recovery"@);
    lemma_not_of_kills(group, "sack_uber_medic_equalizer"@);
    lemma_not_of_kills(group, "rapid_sequence"@);
    lemma_not_of_kills(group, "late_round"@);
    lemma_not_of_kills(group, "round_clinch"@);
    lemma_not_of_kills(group, "building_to_kill_sequence"@);
    lemma_not_of_kills(group, "kills_to_secure_cap"@);
    lemma_not_of_kills(group, "capture_denial_followup"@);
    lemma_not_of_kills(group, "payload_progress_followup"@);
    lemma_not_of_kills(group, "payload_pusher"@);
    reveal(with_group_tags);
}

/// A sequence swings a fight where its team was two or more players short before and is
/// not short of any after, for four seconds or more, without a charge forced; and it
/// recovers from a lost fight where two or more friends had died against a better charge.
pub proof fn law_sequence_is_tagged_for_the_fight(
    group: Seq<Death>,
    facts: GroupFacts,
    round: Round<Seq<char>>,
    buildings: Seq<BuildingEvent>,
    objectives: Seq<ObjectiveEvent>,
)
    requires
        group.len() > 0,
        facts.of(group, round, buildings, objectives),
    ensures
        ({
            let tags = tags_of_group(group, facts);
            let state = group.first().state;
            let end = group.last().event_tick;
            let killed = victims(group).len();
            &&& tags.contains("medic_force"@) <==> exists|i: int, j: int|
                0 <= i < group.len() && 0 <= j < group[i].state.enemy_medic_force_followups.len()
                    && end <= (
                #[trigger] group[i].state.enemy_medic_force_followups@[j]).event_tick <= end + 267
            &&& tags.contains("player_count_swing"@) <==> state.friendly_alive_before > 0
                && state.enemy_alive_before >= state.friendly_alive_before + 2
                && state.enemy_alive_before - killed <= state.friendly_alive_before
                && !tags.contains("medic_force"@) && facts.advantage_window_ticks >= 267
            &&& tags.contains("sack_uber_recovery"@) <==> state.recent_friendly_deaths >= 2
                && state.enemy_uber_advantage_before && (tags.contains("player_count_swing"@)
                || count_of(group, KillTrait::MedicVictim) > 0)
            &&& tags.contains("sack_uber_medic_equalizer"@) <==> tags.contains(
                "sack_uber_recovery"@,
            ) && count_of(group, KillTrait::MedicVictim) > 0
        }),
{
    lemma_group_tags_differ();
    lemma_forced(
        group,
        group.last().event_tick as int,
        group.last().event_tick + MEDIC_FORCE_FOLLOWUP_TICKS,
    );
    lemma_not_of_kills(group, "multi_kill"@);
    lemma_not_of_kills(group, "three_kill"@);
    lemma_not_of_kills(group, "four_kill_plus"@);
    lemma_not_of_kills(group, "double_airshot_sequence"@);
    lemma_not_of_kills(group, "team_wipe"@);
    lemma_not_of_kills(group, "last_enemy_alive"@);
    lemma_not_of_kills(group, "medic_force"@);
    lemma_not_of_kills(group, "player_count_swing"@);
    lemma_not_of_kills(group, "sack_uber_recovery"@);
    lemma_not_of_kills(group, "sack_uber_medic_equalizer"@);
    lemma_not_of_kills(group, "rapid_sequence"@);
    lemma_not_of_kills(group, "late_round"@);
    lemma_not_of_kills(group, "round_clinch"@);
    lemma_not_of_kills(group, "building_to_kill_sequence"@);
    lemma_not_of_kills(group, "kills_to_secure_cap"@);
    lemma_not_of_kills(group, "capture_denial_followup"@);
    lemma_not_of_kills(group, "payload_progress_followup"@);
    lemma_not_of_kills(group, "payload_pusher"@);
    reveal(with_group_tags);
}

proof fn lemma_put_charge(list: Seq<ForceFollowup>, charge: ForceFollowup)
    ensures
        put_charge(list, charge).len() > 0,
    decreases list.len(),
{
    if list.len() > 0 {
        lemma_put_charge(list.drop_last(), charge);
    }
}

proof fn lemma_put_charges(
    list: Seq<ForceFollowup>,
    charges: Seq<ForceFollowup>,
    low: int,
    high: int,
)
    ensures
        put_charges(list, charges, low, high).len() > 0 <==> list.len() > 0 || exists|j: int|
            0 <= j < charges.len() && low <= (#[trigger] charges[j]).event_tick <= high,
    decreases charges.len(),
{
    if charges.len() > 0 {
        let rest = charges.drop_last();
        lemma_put_charges(list, rest, low, high);
        let before = put_charges(list, rest, low, high);
        lemma_put_charge(before, charges.last());
        let last = charges.len() - 1;
        assert(charges[last] == charges.last());
        if exists|j: int| 0 <= j < rest.len() && low <= (#[trigger] rest[j]).event_tick <= high {
            let j = choose|j: int|
                0 <= j < rest.len() && low <= (#[trigger] rest[j]).event_tick <= high;
            assert(charges[j] == rest[j]);
        }
        if exists|j: int| 0 <= j < charges.len() && low <= (#[trigger] charges[j]).event_tick
            <= high {
            let j = choose|j: int|
                0 <= j < charges.len() && low <= (#[trigger] charges[j]).event_tick <= high;
            if j < last {
                assert(rest[j] == charges[j]);
            }
        }
    }
}

proof fn lemma_forced(group: Seq<Death>, low: int, high: int)
    ensures
        forced_charges(group, low, high).len() > 0 <==> exists|i: int, j: int|
            0 <= i < group.len() && 0 <= j < group[i].state.enemy_medic_force_followups.len()
                && low <= (#[trigger] group[i].state.enemy_medic_force_followups@[j]).event_tick
                <= high,
    decreases group.len(),
{
    if group.len() > 0 {
        let rest = group.drop_last();
        let last = group.len() - 1;
        let charges = group[last].state.enemy_medic_force_followups@;
        lemma_forced(rest, low, high);
        lemma_put_charges(forced_charges(rest, low, high), charges, low, high);
        if forced_charges(rest, low, high).len() > 0 {
            let (i, j) = choose|i: int, j: int|
                0 <= i < rest.len() && 0 <= j < rest[i].state.enemy_medic_force_followups.len()
                    && low <= (#[trigger] rest[i].state.enemy_medic_force_followups@[j]).event_tick
                    <= high;
            assert(group[i] == rest[i]);
            assert(low <= group[i].state.enemy_medic_force_followups@[j].event_tick <= high);
        }
        if exists|j: int| 0 <= j < charges.len() && low <= (#[trigger] charges[j]).event_tick
            <= high {
            let j = choose|j: int|
                0 <= j < charges.len() && low <= (#[trigger] charges[j]).event_tick <= high;
            assert(low <= group[last].state.enemy_medic_force_followups@[j].event_tick <= high);
        }
        if exists|i: int, j: int|
            0 <= i < group.len() && 0 <= j < group[i].state.enemy_medic_force_followups.len()
                && low <= (#[trigger] group[i].state.enemy_medic_force_followups@[j]).event_tick
                <= high {
            let (i, j) = choose|i: int, j: int|
                0 <= i < group.len() && 0 <= j < group[i].state.enemy_medic_force_followups.len()
                    && low <= (
                #[trigger] group[i].state.enemy_medic_force_followups@[j]).event_tick <= high;
            if i < last {
                assert(rest[i] == group[i]);
                assert(low <= rest[i].state.enemy_medic_force_followups@[j].event_tick <= high);
            } else {
                assert(charges[j] == group[i].state.enemy_medic_force_followups@[j]);
            }
        }
    }
}

/// Whether an objective of a kind comes within eight seconds after a sequence, for its
/// team.
pub open spec fn comes_after(
    objective: ObjectiveEvent,
    kind: Seq<char>,
    group: Seq<Death>,
) -> bool {
    &&& objective.kind@ == kind
    &&& 0 <= objective.tick - group.last().event_tick <= 533
    &&& objective.team == (if group.first().attacker_team@ == "red"@ {
        2i64
    } else if group.first().attacker_team@ == "blu"@ {
        3
    } else {
        0
    })
}

proof fn lemma_linked(
    objectives: Seq<ObjectiveEvent>,
    last_tick: i64,
    team: i64,
)
    ensures
        forall|k: int|
            0 <= k < linked_objectives(objectives, last_tick, team).len() ==> 0
                <= #[trigger] linked_objectives(objectives, last_tick, team)[k] < objectives.len()
                && follows(
                objectives[linked_objectives(objectives, last_tick, team)[k]],
                last_tick,
                team,
            ),
        forall|i: int|
            0 <= i < objectives.len() && follows(#[trigger] objectives[i], last_tick, team)
                ==> linked_objectives(objectives, last_tick, team).contains(i),
    decreases objectives.len(),
{
    if objectives.len() > 0 {
        let rest = objectives.drop_last();
        let known = linked_objectives(rest, last_tick, team);
        let all = linked_objectives(objectives, last_tick, team);
        lemma_linked(rest, last_tick, team);
        assert forall|k: int| 0 <= k < all.len() implies 0 <= #[trigger] all[k] < objectives.len()
            && follows(objectives[all[k]], last_tick, team) by {
            if k < known.len() {
                assert(all[k] == known[k]);
                assert(rest[known[k]] == objectives[known[k]]);
            }
        }
        assert forall|i: int|
            0 <= i < objectives.len() && follows(
                #[trigger] objectives[i],
                last_tick,
                team,
            ) implies all.contains(i) by {
            if i < rest.len() {
                assert(rest[i] == objectives[i]);
                assert(known.contains(i));
                let k = choose|k: int| 0 <= k < known.len() && known[k] == i;
                assert(all[k] == i);
            } else {
                assert(all[all.len() - 1] == i);
            }
        }
    }
}

proof fn lemma_first_credited(
    objectives: Seq<ObjectiveEvent>,
    linked: Seq<int>,
    kind: Seq<char>,
    last_tick: i64,
    attacker: i64,
)
    ensures
        match first_credited(objectives, linked, kind, last_tick, attacker) {
            Some(i) => linked.contains(i) && credited_as(objectives[i], kind, last_tick, attacker),
            None => forall|k: int|
                0 <= k < linked.len() ==> !credited_as(
                    objectives[#[trigger] linked[k]],
                    kind,
                    last_tick,
                    attacker,
                ),
        },
    decreases linked.len(),
{
    if linked.len() > 0 {
        let rest = linked.skip(1);
        lemma_first_credited(objectives, rest, kind, last_tick, attacker);
        assert(linked[0] == linked.first());
        match first_credited(objectives, linked, kind, last_tick, attacker) {
            Some(i) => {
                if i != linked[0] {
                    let k = choose|k: int| 0 <= k < rest.len() && rest[k] == i;
                    assert(linked[k + 1] == i);
                }
            },
            None => {
                assert forall|k: int| 0 <= k < linked.len() implies !credited_as(
                    objectives[#[trigger] linked[k]],
                    kind,
                    last_tick,
                    attacker,
                ) by {
                    if k > 0 {
                        assert(rest[k - 1] == linked[k]);
                    }
                }
            },
        }
    }
}

proof fn lemma_credited(
    objectives: Seq<ObjectiveEvent>,
    last_tick: i64,
    team: i64,
    kind: Seq<char>,
    attacker: i64,
)
    ensures
        first_credited(
            objectives,
            linked_objectives(objectives, last_tick, team),
            kind,
            last_tick,
            attacker,
        ) is Some <==> exists|i: int|
            0 <= i < objectives.len() && follows(#[trigger] objectives[i], last_tick, team)
                && credited_as(objectives[i], kind, last_tick, attacker),
{
    let linked = linked_objectives(objectives, last_tick, team);
    lemma_linked(objectives, last_tick, team);
    lemma_first_credited(objectives, linked, kind, last_tick, attacker);
    if exists|i: int|
        0 <= i < objectives.len() && follows(#[trigger] objectives[i], last_tick, team)
            && credited_as(objectives[i], kind, last_tick, attacker) {
        let i = choose|i: int|
            0 <= i < objectives.len() && follows(#[trigger] objectives[i], last_tick, team)
                && credited_as(objectives[i], kind, last_tick, attacker);
        assert(linked.contains(i));
        let k = choose|k: int| 0 <= k < linked.len() && linked[k] == i;
        assert(credited_as(objectives[linked[k]], kind, last_tick, attacker));
    }
    if let Some(i) = first_credited(objectives, linked, kind, last_tick, attacker) {
        let k = choose|k: int| 0 <= k < linked.len() && linked[k] == i;
        assert(follows(objectives[linked[k]], last_tick, team));
    }
}

/// A sequence is credited with one objective that its team reached within eight seconds
/// after it: a captured point, else a capture that the attacker blocked within two
/// seconds, else a push of the payload.
pub proof fn law_sequence_is_tagged_for_the_objective(
    group: Seq<Death>,
    facts: GroupFacts,
    round: Round<Seq<char>>,
    buildings: Seq<BuildingEvent>,
    objectives: Seq<ObjectiveEvent>,
)
    requires
        group.len() > 0,
        facts.of(group, round, buildings, objectives),
    ensures
        ({
            let tags = tags_of_group(group, facts);
            let attacker = group.first().attacker;
            let end = group.last().event_tick;
            &&& tags.contains("kills_to_secure_cap"@) <==> exists|i: int|
                0 <= i < objectives.len() && comes_after(
                    #[trigger] objectives[i],
                    "point_capture"@,
                    group,
                )
            &&& tags.contains("capture_denial_followup"@) <==> !tags.contains(
                "kills_to_secure_cap"@,
            ) && exists|i: int|
                0 <= i < objectives.len() && comes_after(
                    #[trigger] objectives[i],
                    "capture_denial"@,
                    group,
                ) && objectives[i].actor_user_id == attacker && objectives[i].tick - end <= 133
            &&& tags.contains("payload_progress_followup"@) <==> !tags.contains(
                "kills_to_secure_cap"@,
            ) && !tags.contains("capture_denial_followup"@) && exists|i: int|
                0 <= i < objectives.len() && comes_after(
                    #[trigger] objectives[i],
                    "payload_progress"@,
                    group,
                )
            &&& tags.contains("payload_pusher"@) ==> tags.contains("payload_progress_followup"@)
        }),
{
    let last = group.last().event_tick;
    let team = team_number(group.first().attacker_team@);
    let attacker = group.first().attacker;
    lemma_group_tags_differ();
    lemma_credited(objectives, last, team, "point_capture"@, attacker);
    lemma_credited(objectives, last, team, "capture_denial"@, attacker);
    lemma_credited(objectives, last, team, "payload_progress"@, attacker);
    reveal_strlit("point_capture");
    reveal_strlit("capture_denial");
    reveal_strlit("payload_progress");
    assert("point_capture"@.len() == 13 && "capture_denial"@.len() == 14
        && "payload_progress"@.len() == 16);
    assert forall|i: int| 0 <= i < objectives.len() implies (#[trigger] comes_after(
        objectives[i],
        "point_capture"@,
        group,
    ) <==> follows(objectives[i], last, team) && credited_as(
        objectives[i],
        "point_capture"@,
        last,
        attacker,
    )) by {
    }
    assert forall|i: int| 0 <= i < objectives.len() implies (#[trigger] comes_after(
        objectives[i],
        "payload_progress"@,
        group,
    ) <==> follows(objectives[i], last, team) && credited_as(
        objectives[i],
        "payload_progress"@,
        last,
        attacker,
    )) by {
    }
    lemma_not_of_kills(group, "multi_kill"@);
    lemma_not_of_kills(group, "three_kill"@);
    lemma_not_of_kills(group, "four_kill_plus"@);
    lemma_not_of_kills(group, "double_airshot_sequence"@);
    lemma_not_of_kills(group, "team_wipe"@);
    lemma_not_of_kills(group, "last_enemy_alive"@);
    lemma_not_of_kills(group, "medic_force"@);
    lemma_not_of_kills(group, "player_count_swing"@);
    lemma_not_of_kills(group, "sack_uber_recovery"@);
    lemma_not_of_kills(group, "sack_uber_medic_equalizer"@);
    lemma_not_of_kills(group, "rapid_sequence"@);
    lemma_not_of_kills(group, "late_round"@);
    lemma_not_of_kills(group, "round_clinch"@);
    lemma_not_of_kills(group, "building_to_kill_sequence"@);
    lemma_not_of_kills(group, "kills_to_secure_cap"@);
    lemma_not_of_kills(group, "capture_denial_followup"@);
    lemma_not_of_kills(group, "payload_progress_followup"@);
    lemma_not_of_kills(group, "payload_pusher"@);
    reveal(with_group_tags);
}

/// A sequence is tagged for the buildings that its player destroyed in the two seconds
/// before the first kill.
pub proof fn law_sequence_is_tagged_for_its_buildings(
    group: Seq<Death>,
    facts: GroupFacts,
    round: Round<Seq<char>>,
    buildings: Seq<BuildingEvent>,
    objectives: Seq<ObjectiveEvent>,
)
    requires
        group.len() > 0,
        facts.of(group, round, buildings, objectives),
    ensures
        tags_of_group(group, facts).contains("building_to_kill_sequence"@) <==> exists|i: int|
            0 <= i < buildings.len() && (#[trigger] buildings[i]).attacker == group.first().attacker
                && 0 <= group.first().event_tick - buildings[i].tick <= 133,
{
    lemma_group_tags_differ();
    lemma_buildings(buildings, group.first());
    lemma_not_of_kills(group, "building_to_kill_sequence"@);
    reveal(with_group_tags);
}

proof fn lemma_buildings(buildings: Seq<BuildingEvent>, first: Death)
    ensures
        linked_buildings(buildings, first).len() > 0 <==> exists|i: int|
            0 <= i < buildings.len() && (#[trigger] buildings[i]).attacker == first.attacker && 0
                <= first.event_tick - buildings[i].tick <= 133,
    decreases buildings.len(),
{
    if buildings.len() > 0 {
        let rest = buildings.drop_last();
        let last = buildings.len() - 1;
        lemma_buildings(rest, first);
        assert(buildings[last] == buildings.last());
        if linked_buildings(rest, first).len() > 0 {
            let i = choose|i: int|
                0 <= i < rest.len() && (#[trigger] rest[i]).attacker == first.attacker && 0
                    <= first.event_tick - rest[i].tick <= 133;
            assert(buildings[i] == rest[i]);
        }
        if exists|i: int|
            0 <= i < buildings.len() && (#[trigger] buildings[i]).attacker == first.attacker && 0
                <= first.event_tick - buildings[i].tick <= 133 {
            let i = choose|i: int|
                0 <= i < buildings.len() && (#[trigger] buildings[i]).attacker == first.attacker
                    && 0 <= first.event_tick - buildings[i].tick <= 133;
            if i < last {
                assert(rest[i] == buildings[i]);
            }
        }
    }
}

/// What the kills of a sequence are worth by themselves, in hundredths.
pub open spec fn kills_worth(group: Seq<Death>) -> int
    decreases group.len(),
{
    if group.len() == 0 {
        0
    } else {
        kills_worth(group.drop_last()) + total(
            lines_under(group.last(), unicode_lower(group.last().weapon@), group.len() - 1),
        )
    }
}

proof fn lemma_kills_worth(group: Seq<Death>)
    ensures
        total(kills_lines(group)) == 1000 + kills_worth(group),
    decreases group.len(),
{
    if group.len() == 0 {
        let base = seq![group_line("candidate_base"@, 1000, None, None)];
        assert(base.drop_last() =~= Seq::empty());
        assert(base.last().points == 1000);
        reveal_with_fuel(total, 2);
    } else {
        lemma_kills_worth(group.drop_last());
        lemma_kill_lines_add(
            kills_lines(group.drop_last()),
            group.last(),
            unicode_lower(group.last().weapon@),
            group.len() - 1,
        );
    }
}

/// A sequence is worth ten points, what its kills are worth, 18 points for every player
/// killed past the first, and what its own tags are worth. Points are in hundredths.
pub proof fn law_sequence_is_worth_its_tags(
    group: Seq<Death>,
    facts: GroupFacts,
    round: Round<Seq<char>>,
    buildings: Seq<BuildingEvent>,
    objectives: Seq<ObjectiveEvent>,
)
    requires
        0 < group.len() <= 0xffff_ffff,
        facts.of(group, round, buildings, objectives),
    ensures
        ({
            let tags = tags_of_group(group, facts);
            let killed = victims(group).len();
            total(group_lines(group, facts)) == 1000 + kills_worth(group) + 1800 * (killed - 1)
                + worth(tags.contains("three_kill"@), 1500)
                + worth(tags.contains("four_kill_plus"@), 2500)
                + worth(tags.contains("double_airshot_sequence"@), 1500)
                + worth(tags.contains("team_wipe"@), 1800)
                + worth(tags.contains("medic_force"@), 1600)
                + worth(tags.contains("player_count_swing"@), 1600)
                + worth(tags.contains("sack_uber_recovery"@), 1600)
                + worth(tags.contains("sack_uber_medic_equalizer"@), 1200)
                + worth(tags.contains("rapid_sequence"@), 1200)
                + worth(tags.contains("late_round"@), 800)
                + worth(tags.contains("round_clinch"@), 1200)
                + worth(tags.contains("building_to_kill_sequence"@), 600)
                + worth(tags.contains("kills_to_secure_cap"@), 2400)
                + worth(tags.contains("capture_denial_followup"@), 2000)
                + worth(tags.contains("payload_progress_followup"@), 1200)
                + worth(tags.contains("payload_pusher"@), 400)
                + worth(any_projectile(group), 800)
        }),
{
    lemma_kills_worth(group);
    lemma_victims_bounded(group);
    lemma_group_worth(kills_lines(group), facts);
    lemma_group_tags_told(group, facts);
}

proof fn lemma_group_tags_told(group: Seq<Death>, facts: GroupFacts)
    ensures
        tags_of_group(group, facts).contains("three_kill"@) == (facts.unique_victims >= 3),
        tags_of_group(group, facts).contains("four_kill_plus"@) == (facts.unique_victims >= 4),
        tags_of_group(group, facts).contains("double_airshot_sequence"@) == (facts.airshots >= 2),
        tags_of_group(group, facts).contains("team_wipe"@) == (facts.wipe),
        tags_of_group(group, facts).contains("medic_force"@) == (facts.medic_force),
        tags_of_group(group, facts).contains("player_count_swing"@) == (facts.swing),
        tags_of_group(group, facts).contains("sack_uber_recovery"@) == (facts.sack),
        tags_of_group(group, facts).contains("sack_uber_medic_equalizer"@) == ((facts.sack && facts.medic_kills > 0)),
        tags_of_group(group, facts).contains("rapid_sequence"@) == (facts.rapid),
        tags_of_group(group, facts).contains("late_round"@) == (facts.late),
        tags_of_group(group, facts).contains("round_clinch"@) == (facts.clinch),
        tags_of_group(group, facts).contains("building_to_kill_sequence"@) == ((facts.buildings > 0)),
        tags_of_group(group, facts).contains("kills_to_secure_cap"@) == ((facts.objective is Capture)),
        tags_of_group(group, facts).contains("capture_denial_followup"@) == ((facts.objective is Denial)),
        tags_of_group(group, facts).contains("payload_progress_followup"@) == ((facts.objective is Payload)),
        tags_of_group(group, facts).contains("payload_pusher"@) == (facts.objective.pushed_by_attacker()),
{
    lemma_group_tags_differ();
    lemma_not_of_kills(group, "multi_kill"@);
    lemma_not_of_kills(group, "three_kill"@);
    lemma_not_of_kills(group, "four_kill_plus"@);
    lemma_not_of_kills(group, "double_airshot_sequence"@);
    lemma_not_of_kills(group, "team_wipe"@);
    lemma_not_of_kills(group, "last_enemy_alive"@);
    lemma_not_of_kills(group, "medic_force"@);
    lemma_not_of_kills(group, "player_count_swing"@);
    lemma_not_of_kills(group, "sack_uber_recovery"@);
    lemma_not_of_kills(group, "sack_uber_medic_equalizer"@);
    lemma_not_of_kills(group, "rapid_sequence"@);
    lemma_not_of_kills(group, "late_round"@);
    lemma_not_of_kills(group, "round_clinch"@);
    lemma_not_of_kills(group, "building_to_kill_sequence"@);
    lemma_not_of_kills(group, "kills_to_secure_cap"@);
    lemma_not_of_kills(group, "capture_denial_followup"@);
    lemma_not_of_kills(group, "payload_progress_followup"@);
    lemma_not_of_kills(group, "payload_pusher"@);
    reveal(with_group_tags);
}

proof fn lemma_victims_bounded(group: Seq<Death>)
    requires
        group.len() > 0,
    ensures
        0 < victims(group).len() <= group.len(),
{
    let all = Seq::new(group.len(), |i: int| group[i].victim);
    all.lemma_cardinality_of_set();
    assert(all.contains(all[0]));
    assert(all.to_set().contains(all[0]));
    assert(all.to_set().finite());
    assert(all.to_set().len() > 0) by {
        if all.to_set().len() == 0 {
            assert(all.to_set() =~= Set::empty());
        }
    }
}

proof fn lemma_group_worth(base: Seq<ScoreLine<Seq<char>>>, facts: GroupFacts)
    requires
        0 < facts.unique_victims <= 0xffff_ffff,
    ensures
        total(
            with_objective_lines(
                with_timing_lines(
                    with_swing_lines(with_count_lines(with_extra_line(base, facts), facts), facts),
                    facts,
                ),
                facts,
            ),
        ) == total(base) + 1800 * (facts.unique_victims - 1)
            + worth(facts.unique_victims >= 3, 1500)
            + worth(facts.unique_victims >= 4, 2500)
            + worth(facts.airshots >= 2, 1500)
            + worth(facts.wipe, 1800)
            + worth(facts.medic_force, 1600)
            + worth(facts.swing, 1600)
            + worth(facts.sack, 1600)
            + worth((facts.sack && facts.medic_kills > 0), 1200)
            + worth(facts.rapid, 1200)
            + worth(facts.late, 800)
            + worth(facts.clinch, 1200)
            + worth((facts.buildings > 0), 600)
            + worth((facts.objective is Capture), 2400)
            + worth((facts.objective is Denial), 2000)
            + worth((facts.objective is Payload), 1200)
            + worth(facts.objective.pushed_by_attacker(), 400)
            + worth(facts.projectile_sequence, 800),
{
    let extra = with_extra_line(base, facts);
    let counted = with_count_lines(extra, facts);
    let swung = with_swing_lines(counted, facts);
    let timed = with_timing_lines(swung, facts);
    lemma_line_if(
        base,
        facts.unique_victims > 1,
        group_line(
            "additional_kills"@,
            (1800 * (facts.unique_victims - 1)) as i64,
            None,
            Some((facts.unique_victims - 1) as u64),
        ),
    );
    lemma_count_worth(extra, facts);
    lemma_swing_worth(counted, facts);
    lemma_timing_worth(swung, facts);
    lemma_objective_worth(timed, facts);
}

proof fn lemma_count_worth(base: Seq<ScoreLine<Seq<char>>>, facts: GroupFacts)
    ensures
        total(with_count_lines(base, facts)) == total(base) + worth(facts.unique_victims >= 3, 1500) + worth(facts.unique_victims >= 4, 2500) + worth(facts.airshots >= 2, 1500) + worth(facts.wipe, 1800),
{
    reveal(with_count_lines);
    let x0 = group_line("three_kill"@, 1500i64, None, None);
    lemma_line_if(base, facts.unique_victims >= 3, x0);
    let l0 = line_if(base, facts.unique_victims >= 3, x0);
    let x1 = group_line("four_kill_plus"@, 2500i64, None, None);
    lemma_line_if(l0, facts.unique_victims >= 4, x1);
    let l1 = line_if(l0, facts.unique_victims >= 4, x1);
    let x2 = group_line("multiple_confirmed_airshots"@, 1500i64, None, Some(facts.airshots as u64));
    lemma_line_if(l1, facts.airshots >= 2, x2);
    let l2 = line_if(l1, facts.airshots >= 2, x2);
    let x3 = told_group_line("sequence_finished_enemy_team"@, 1800i64, None, None, facts.enemies_detail());
    lemma_line_if(l2, facts.wipe, x3);
}

proof fn lemma_swing_worth(base: Seq<ScoreLine<Seq<char>>>, facts: GroupFacts)
    ensures
        total(with_swing_lines(base, facts)) == total(base) + worth(facts.medic_force, 1600) + worth(facts.swing, 1600) + worth(facts.sack, 1600) + worth(facts.sack && facts.medic_kills > 0, 1200),
{
    reveal(with_swing_lines);
    let x0 = told_group_line("enemy_medic_forced_uber_after_sequence"@, 1600i64, None, None, LineDetail::ForcedCharges);
    lemma_line_if(base, facts.medic_force, x0);
    let l0 = line_if(base, facts.medic_force, x0);
    let x1 = told_group_line("sequence_created_player_count_window"@, 1600i64, None, None, facts.window_detail());
    lemma_line_if(l0, facts.swing, x1);
    let l1 = line_if(l0, facts.swing, x1);
    let x2 = told_group_line("sack_uber_recovery_after_losses"@, 1600i64, None, None, facts.losses_detail());
    lemma_line_if(l1, facts.sack, x2);
    let l2 = line_if(l1, facts.sack, x2);
    let x3 = group_line("sack_uber_medic_equalizer"@, 1200i64, None, None);
    lemma_line_if(l2, facts.sack && facts.medic_kills > 0, x3);
}

proof fn lemma_timing_worth(base: Seq<ScoreLine<Seq<char>>>, facts: GroupFacts)
    ensures
        total(with_timing_lines(base, facts)) == total(base) + worth(facts.rapid, 1200) + worth(facts.projectile_sequence, 800) + worth(facts.late, 800) + worth(facts.clinch, 1200) + worth(facts.buildings > 0, 600),
{
    reveal(with_timing_lines);
    let x0 = group_line("rapid_sequence"@, 1200i64, None, None);
    lemma_line_if(base, facts.rapid, x0);
    let l0 = line_if(base, facts.rapid, x0);
    let x1 = group_line("projectile_sequence"@, 800i64, None, None);
    lemma_line_if(l0, facts.projectile_sequence, x1);
    let l1 = line_if(l0, facts.projectile_sequence, x1);
    let x2 = group_line("late_round"@, 800i64, None, None);
    lemma_line_if(l1, facts.late, x2);
    let l2 = line_if(l1, facts.late, x2);
    let x3 = group_line("team_won_immediately_after_sequence"@, 1200i64, Some(facts.round_end), None);
    lemma_line_if(l2, facts.clinch, x3);
    let l3 = line_if(l2, facts.clinch, x3);
    let x4 = group_line("building_destruction_led_to_kills"@, 600i64, None, Some(facts.buildings as u64));
    lemma_line_if(l3, facts.buildings > 0, x4);
}

proof fn lemma_objective_worth(base: Seq<ScoreLine<Seq<char>>>, facts: GroupFacts)
    ensures
        total(with_objective_lines(base, facts)) == total(base) + worth(facts.objective is Capture, 2400) + worth(facts.objective is Denial, 2000) + worth(facts.objective is Payload, 1200) + worth(facts.objective.pushed_by_attacker(), 400),
{
    reveal(with_objective_lines);
    let x0 = told_group_line("kills_to_secure_cap"@, facts.objective.points() as i64, facts.objective.tick(), None, facts.objective.detail());
    lemma_line_if(base, facts.objective is Capture, x0);
    let l0 = line_if(base, facts.objective is Capture, x0);
    let x1 = told_group_line("kill_sequence_blocked_capture"@, facts.objective.points() as i64, facts.objective.tick(), None, facts.objective.detail());
    lemma_line_if(l0, facts.objective is Denial, x1);
    let l1 = line_if(l0, facts.objective is Denial, x1);
    let x2 = told_group_line("kill_sequence_led_to_payload_progress"@, facts.objective.points() as i64, facts.objective.tick(), None, facts.objective.detail());
    lemma_line_if(l1, facts.objective is Payload, x2);
}

} // verus!

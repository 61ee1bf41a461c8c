//! What the states and the events of a match add to what is known of a kill.
use vstd::prelude::*;
use crate::arrange::{arrange, in_order, Ranked};
use crate::deaths::{Death, ForceFollowup, StateEvidence};
use crate::events::{
    canonical_class, canonical_team_value, class_of, int_among, int_field, team_of, EventRecord,
};
use crate::keyed::{entries, entry_of, find_value, Keyed};
use crate::motion::{
    airborne_before, alive, last_before, last_flag, last_player_flag_tick, matching_projectile,
    next_alive, next_alive_tick, player_airborne_before_impact, player_alive, player_state_before,
    projectile_of,
};
use crate::order::{insert_number, rising};
use crate::floating::{
    difference, lemma_natural_positive, lemma_natural_rises, lemma_zero, natural, Double,
};
use crate::record::{bool_of, lookup, number_of, text_of, Record, RecordModel};
use crate::sequence::{CAPTURE_DENIAL_TICKS, MEDIC_FORCE_FOLLOWUP_TICKS};
use crate::text::{contains_text, has_text, lower, same_text, to_lower};
use crate::tracking::{snapshot_models, state_class, Snapshot, SnapshotModel, StateScan};

verus! {

/// How far back a team's losses count.
pub const SACK_RECOVERY_TICKS: i64 = 667;

/// How long a boost of critical hits lasts.
pub const KRITZKRIEG_DURATION_TICKS: i64 = 533;

/// How long before a charge an attack on the medic still forced it.
pub const MEDIC_FORCE_PRESSURE_TICKS: i64 = 133;

/// How far apart the two hits of a cannonball may lie.
pub const DOUBLE_DONK_WINDOW_TICKS: i64 = 33;

/// How long after a shield charge a hit still comes of it.
pub const CHARGE_MELEE_FOLLOWUP_TICKS: i64 = 57;

/// How long before an impact a projectile cannot have moved its victim.
pub const AIRSHOT_STANDARD_IMPACT_GUARD_TICKS: i64 = 2;

/// The same for a cannonball, which pushes its victim before it goes off.
pub const AIRSHOT_LOOSE_CANNON_IMPACT_GUARD_TICKS: i64 = 6;

/// The charge, in percent, at which a medic counts as ready.
pub const READY_CHARGE: u64 = 95;

// ---------------------------------------------------------------------------
// States
// ---------------------------------------------------------------------------

impl Ranked for i64 {
    /// The lower number.
    open spec fn before(self, other: Self) -> bool {
        self < other
    }

    proof fn before_orders(a: Self, b: Self, c: Self) {
    }

    fn comes_before(&self, other: &Self) -> (r: bool) {
        *self < *other
    }
}

/// The snapshot for a tick.
pub open spec fn snapshot_at(snapshots: Seq<SnapshotModel>, tick: i64) -> Option<SnapshotModel>
    decreases snapshots.len(),
{
    if snapshots.len() == 0 {
        None
    } else if snapshots[0].tick == tick {
        Some(snapshots[0])
    } else {
        snapshot_at(snapshots.skip(1), tick)
    }
}

fn find_snapshot(scan: &StateScan, tick: i64) -> (out: Option<&Snapshot>)
    ensures
        match out {
            Some(snapshot) => snapshot_at(snapshot_models(scan.snapshots@), tick) == Some(
                snapshot.model(),
            ),
            None => snapshot_at(snapshot_models(scan.snapshots@), tick) is None,
        },
{
    let ghost all = snapshot_models(scan.snapshots@);
    let mut i: usize = 0;
    assert(all.skip(0) =~= all);
    while i < scan.snapshots.len()
        invariant
            i <= scan.snapshots.len(),
            all == snapshot_models(scan.snapshots@),
            snapshot_at(all, tick) == snapshot_at(all.skip(i as int), tick),
        decreases scan.snapshots.len() - i,
    {
        assert(all.skip(i as int)[0] == all[i as int]);
        assert(all.skip(i as int).skip(1) =~= all.skip(i + 1));
        if scan.snapshots[i].tick == tick {
            return Some(&scan.snapshots[i]);
        }
        i += 1;
    }
    None
}

/// The team that a state tells.
pub open spec fn state_team(state: RecordModel) -> Seq<char> {
    team_of(lookup(state, "team"@))
}

/// The higher of two numbers, either of which may be missing.
pub open spec fn higher(a: Option<int>, b: Option<int>) -> Option<int> {
    match (a, b) {
        (Some(x), Some(y)) => if x >= y {
            Some(x)
        } else {
            Some(y)
        },
        (Some(x), None) => Some(x),
        (None, b) => b,
    }
}

/// How a team stood.
pub struct TeamStanding {
    pub roster: int,
    pub alive: int,
    pub charge: Option<int>,
}

/// How a team stood among players.
pub open spec fn standing(players: Seq<(i64, RecordModel)>, team: Seq<char>) -> TeamStanding
    decreases players.len(),
{
    if players.len() == 0 {
        TeamStanding { roster: 0, alive: 0, charge: None }
    } else {
        let before = standing(players.drop_last(), team);
        let state = players.last().1;
        if state_team(state) == team {
            TeamStanding {
                roster: before.roster + 1,
                alive: if alive(state) {
                    before.alive + 1
                } else {
                    before.alive
                },
                charge: if alive(state) && state_class(state) == "medic"@ {
                    higher(before.charge, number_of(lookup(state, "medic_charge"@)))
                } else {
                    before.charge
                },
            }
        } else {
            before
        }
    }
}

/// When the dead of a team are back, as far as it is known.
pub open spec fn pending_respawns(
    players: Seq<(i64, RecordModel)>,
    team: Seq<char>,
    scan: StateScan,
    tick: i64,
) -> Seq<i64>
    decreases players.len(),
{
    if players.len() == 0 {
        Seq::empty()
    } else {
        let before = pending_respawns(players.drop_last(), team, scan, tick);
        let (user, state) = players.last();
        match next_alive(scan.history(user), tick) {
            Some(back) if state_team(state) == team && !alive(state) => before.push(back),
            _ => before,
        }
    }
}

/// Whether the enemy's charge was well ahead: ready where the own one was not, or
/// nearly ready and far ahead.
pub open spec fn charge_ahead(enemy: Option<int>, friendly: Option<int>) -> bool {
    match enemy {
        Some(enemy) => {
            ||| enemy >= natural(READY_CHARGE as nat) && (friendly matches Some(own) ==> own
                < natural(READY_CHARGE as nat))
            ||| enemy >= natural(75) && (friendly matches Some(own) ==> difference(enemy, own)
                >= natural(25))
        },
        None => false,
    }
}

/// What the snapshot says of the class of a player.
pub open spec fn class_in(
    snapshot: SnapshotModel,
    user: i64,
    otherwise: Seq<char>,
) -> Seq<char> {
    match entry_of(snapshot.selected, user) {
        Some(state) => match text_of(lookup(state, "class"@)) {
            Some(text) => class_of(text),
            None => otherwise,
        },
        None => otherwise,
    }
}

/// What the snapshot says of the team of a player.
pub open spec fn team_in(snapshot: SnapshotModel, user: i64, otherwise: Seq<char>) -> Seq<char> {
    match entry_of(snapshot.selected, user) {
        Some(state) => state_team(state),
        None => otherwise,
    }
}

/// What the snapshot says of the state of a player.
pub open spec fn state_in(
    snapshot: SnapshotModel,
    user: i64,
    otherwise: RecordModel,
) -> RecordModel {
    match entry_of(snapshot.selected, user) {
        Some(state) => state,
        None => otherwise,
    }
}

/// The value of a number that may be missing.
pub open spec fn optional_value(v: Option<Double>) -> Option<int> {
    match v {
        Some(v) => Some(v.value()),
        None => None,
    }
}

/// Whether two kills are the same but for the classes, teams and states.
pub open spec fn same_kill(a: Death, b: Death) -> bool {
    &&& a.event_tick == b.event_tick
    &&& a.demo_tick == b.demo_tick
    &&& a.packet_sequence == b.packet_sequence
    &&& a.event_index == b.event_index
    &&& a.attacker == b.attacker
    &&& a.victim == b.victim
    &&& a.assister == b.assister
    &&& a.round_index == b.round_index
    &&& a.weapon == b.weapon
    &&& a.weapon_id == b.weapon_id
    &&& a.weapon_def_index == b.weapon_def_index
    &&& a.weapon_slot == b.weapon_slot
    &&& a.custom_kill == b.custom_kill
    &&& a.crit_type == b.crit_type
    &&& a.kill_streak_total == b.kill_streak_total
    &&& a.rocket_jump_victim == b.rocket_jump_victim
}

/// Whether a kill was given the right state from a snapshot.
pub open spec fn stated(
    before: Death,
    after: Death,
    snapshot: SnapshotModel,
    scan: StateScan,
) -> bool {
    let friendly = standing(snapshot.all, after.attacker_team@);
    let enemy = standing(snapshot.all, after.victim_team@);
    &&& same_kill(before, after)
    &&& after.attacker_class@ == class_in(snapshot, before.attacker, before.attacker_class@)
    &&& after.attacker_team@ == team_in(snapshot, before.attacker, before.attacker_team@)
    &&& after.victim_class@ == class_in(snapshot, before.victim, before.victim_class@)
    &&& after.victim_team@ == team_in(snapshot, before.victim, before.victim_team@)
    &&& after.state.attacker.model() == state_in(
        snapshot,
        before.attacker,
        before.state.attacker.model(),
    )
    &&& after.state.victim.model() == state_in(
        snapshot,
        before.victim,
        before.state.victim.model(),
    )
    &&& after.state.friendly_state_roster == friendly.roster
    &&& after.state.enemy_state_roster == enemy.roster
    &&& after.state.friendly_alive_before == friendly.alive
    &&& after.state.enemy_alive_before == enemy.alive
    &&& optional_value(after.state.friendly_medic_charge) == friendly.charge
    &&& optional_value(after.state.enemy_medic_charge) == enemy.charge
    &&& after.state.player_disadvantage_before == (if enemy.alive > friendly.alive {
        enemy.alive - friendly.alive
    } else {
        0
    })
    &&& after.state.enemy_uber_advantage_before == charge_ahead(enemy.charge, friendly.charge)
    &&& after.state.friendly_pending_respawn_ticks@ == in_order(
        pending_respawns(snapshot.all, after.attacker_team@, scan, before.event_tick),
    )
    &&& after.state.victim_next_respawn_tick == next_alive(
        scan.history(before.victim),
        before.event_tick,
    )
    &&& after.state.confirmed_uber_drop == (after.victim_class@ == "medic"@ && (number_of(
        lookup(after.state.victim.model(), "medic_charge"@),
    ) matches Some(charge) && charge >= natural(READY_CHARGE as nat)))
    &&& (match after.state.projectile {
        Some(shot) => Some(shot.model()),
        None => None,
    }) == projectile_of(
        after.state.attacker.model(),
        after.state.victim.model(),
        before.weapon@,
        before.event_tick,
        entries(scan.projectile_tracks@),
        entries(scan.projectile_removals@),
    )
    &&& after.state.recent_friendly_deaths == before.state.recent_friendly_deaths
    &&& after.state.recent_friendly_death_ticks == before.state.recent_friendly_death_ticks
    &&& after.state.geometry == before.state.geometry
    &&& after.state.attacker_recent_shield_charge_tick
        == before.state.attacker_recent_shield_charge_tick
    &&& after.state.confirmed_double_donk == before.state.confirmed_double_donk
    &&& after.state.victim_airborne_before_projectile_impact
        == before.state.victim_airborne_before_projectile_impact
    &&& after.state.projectile_impact_check_tick == before.state.projectile_impact_check_tick
    &&& after.state.confirmed_kritzkrieg_boost == before.state.confirmed_kritzkrieg_boost
    &&& after.state.enemy_medic_force_followups == before.state.enemy_medic_force_followups
}

/// How a team stood, as plain values.
struct Standing {
    roster: usize,
    alive: usize,
    charge: Option<Double>,
}

fn stand(players: &Vec<Keyed<Record>>, team: &str) -> (out: Standing)
    ensures
        out.roster == standing(entries(players@), team@).roster,
        out.alive == standing(entries(players@), team@).alive,
        optional_value(out.charge) == standing(entries(players@), team@).charge,
{
    let ghost all = entries(players@);
    let mut roster: usize = 0;
    let mut living: usize = 0;
    let mut charge: Option<Double> = None;
    let mut i: usize = 0;
    while i < players.len()
        invariant
            i <= players.len(),
            all == entries(players@),
            roster <= i,
            living <= i,
            roster == standing(all.take(i as int), team@).roster,
            living == standing(all.take(i as int), team@).alive,
            optional_value(charge) == standing(all.take(i as int), team@).charge,
        decreases players.len() - i,
    {
        let state = &players[i].value;
        proof {
            assert(all.take(i + 1).drop_last() =~= all.take(i as int));
            assert(all.take(i + 1).last() == (players@[i as int].key, state.model()));
            reveal_strlit("medic");
        }
        if same_text(canonical_team_value(state, "team").as_str(), team) {
            roster += 1;
            if player_alive(state) {
                living += 1;
                if is_class(state, "medic") {
                    let own = state.number("medic_charge");
                    match own {
                        Some(own) => {
                            match charge {
                                Some(best) => {
                                    if best.less(own) {
                                        charge = Some(own);
                                    }
                                },
                                None => {
                                    charge = Some(own);
                                },
                            }
                        },
                        None => {},
                    }
                }
            }
        }
        i += 1;
    }
    assert(all.take(players.len() as int) =~= all);
    Standing { roster, alive: living, charge }
}

fn is_class(state: &Record, class: &str) -> (r: bool)
    requires
        class@.len() > 0,
    ensures
        r == (state_class(state.model()) == class@),
{
    match state.string("class") {
        Some(text) => same_text(canonical_class(text.as_str()).as_str(), class),
        None => false,
    }
}

fn find_respawns(players: &Vec<Keyed<Record>>, team: &str, scan: &StateScan, tick: i64) -> (out:
    Vec<i64>)
    ensures
        out@ == in_order(pending_respawns(entries(players@), team@, *scan, tick)),
{
    let ghost all = entries(players@);
    let mut out: Vec<i64> = Vec::new();
    let mut i: usize = 0;
    while i < players.len()
        invariant
            i <= players.len(),
            all == entries(players@),
            out@ == pending_respawns(all.take(i as int), team@, *scan, tick),
        decreases players.len() - i,
    {
        let state = &players[i].value;
        proof {
            assert(all.take(i + 1).drop_last() =~= all.take(i as int));
            assert(all.take(i + 1).last() == (players@[i as int].key, state.model()));
        }
        if same_text(canonical_team_value(state, "team").as_str(), team) && !player_alive(state) {
            if let Some(back) = next_alive_tick(scan, players[i].key, tick) {
                out.push(back);
            }
        }
        i += 1;
    }
    assert(all.take(players.len() as int) =~= all);
    arrange(out)
}

fn is_charge_ahead(enemy: Option<Double>, friendly: Option<Double>) -> (r: bool)
    ensures
        r == charge_ahead(optional_value(enemy), optional_value(friendly)),
{
    match enemy {
        Some(enemy) => {
            let ready = !enemy.less(Double::natural(READY_CHARGE));
            let nearly = !enemy.less(Double::natural(75));
            match friendly {
                Some(own) => (ready && own.less(Double::natural(READY_CHARGE))) || (nearly
                    && !enemy.minus(own).less(Double::natural(25))),
                None => ready || nearly,
            }
        },
        None => false,
    }
}

fn class_or(state: &Record, otherwise: &String) -> (out: String)
    ensures
        out@ == (match text_of(lookup(state.model(), "class"@)) {
            Some(text) => class_of(text),
            None => otherwise@,
        }),
{
    match state.string("class") {
        Some(text) => canonical_class(text.as_str()),
        None => otherwise.clone(),
    }
}

/// Gives a kill the state of the players just before it. Nothing changes where
/// no snapshot was taken for its tick.
pub fn attach_state(death: &mut Death, scan: &StateScan)
    ensures
        match snapshot_at(snapshot_models(scan.snapshots@), old(death).event_tick) {
            Some(snapshot) => stated(*old(death), *final(death), snapshot, *scan),
            None => *final(death) == *old(death),
        },
{
    let tick: i64 = death.event_tick;
    let snapshot = match find_snapshot(scan, tick) {
        Some(snapshot) => snapshot,
        None => return,
    };
    let mut attacker_class = death.attacker_class.clone();
    let mut attacker_team = death.attacker_team.clone();
    let mut attacker_state = death.state.attacker.copy();
    if let Some(state) = find_value(&snapshot.selected, death.attacker) {
        attacker_class = class_or(state, &death.attacker_class);
        attacker_team = canonical_team_value(state, "team");
        attacker_state = state.copy();
    }
    let mut victim_class = death.victim_class.clone();
    let mut victim_team = death.victim_team.clone();
    let mut victim_state = death.state.victim.copy();
    if let Some(state) = find_value(&snapshot.selected, death.victim) {
        victim_class = class_or(state, &death.victim_class);
        victim_team = canonical_team_value(state, "team");
        victim_state = state.copy();
    }
    let friendly = stand(&snapshot.all, attacker_team.as_str());
    let enemy = stand(&snapshot.all, victim_team.as_str());
    let disadvantage: usize = if enemy.alive > friendly.alive {
        enemy.alive - friendly.alive
    } else {
        0
    };
    let ahead = is_charge_ahead(enemy.charge, friendly.charge);
    let pending = find_respawns(&snapshot.all, attacker_team.as_str(), scan, tick);
    let back = next_alive_tick(scan, death.victim, tick);
    let charged = match victim_state.number("medic_charge") {
        Some(charge) => !charge.less(Double::natural(READY_CHARGE)),
        None => false,
    };
    let dropped = same_text(victim_class.as_str(), "medic") && charged;
    let shot = matching_projectile(
        &attacker_state,
        &victim_state,
        death.weapon.as_str(),
        tick,
        scan,
    );
    death.attacker_class = attacker_class;
    death.attacker_team = attacker_team;
    death.victim_class = victim_class;
    death.victim_team = victim_team;
    death.state.attacker = attacker_state;
    death.state.victim = victim_state;
    death.state.friendly_state_roster = friendly.roster;
    death.state.enemy_state_roster = enemy.roster;
    death.state.friendly_alive_before = friendly.alive;
    death.state.enemy_alive_before = enemy.alive;
    death.state.friendly_medic_charge = friendly.charge;
    death.state.enemy_medic_charge = enemy.charge;
    death.state.player_disadvantage_before = disadvantage;
    death.state.enemy_uber_advantage_before = ahead;
    death.state.friendly_pending_respawn_ticks = pending;
    death.state.victim_next_respawn_tick = back;
    death.state.confirmed_uber_drop = dropped;
    death.state.projectile = shot;
}

// ---------------------------------------------------------------------------
// Signals
// ---------------------------------------------------------------------------

/// A charge that a medic used.
#[derive(Clone, Copy, Debug, PartialEq, Eq, Structural)]
pub struct Deploy {
    pub tick: i64,
    pub medic: i64,
    pub target: i64,
}

/// A hit that a player took.
#[derive(Clone, Copy, Debug, PartialEq, Eq, Structural)]
pub struct Hurt {
    pub tick: i64,
    pub attacker: i64,
    pub victim: i64,
    pub weapon_id: i64,
    pub mini_crit: bool,
}

/// A medic who died with a charge.
#[derive(Clone, Copy, Debug, PartialEq, Eq, Structural)]
pub struct ChargedDeath {
    pub tick: i64,
    pub medic: i64,
}

/// The events of a match that bear on kills.
#[derive(Debug)]
pub struct MatchSignals {
    pub deploys: Vec<Deploy>,
    pub charged_deaths: Vec<ChargedDeath>,
    pub hurts: Vec<Hurt>,
}

/// The charges that events tell of.
pub open spec fn deploys_in(events: Seq<EventRecord>) -> Seq<Deploy>
    decreases events.len(),
{
    if events.len() == 0 {
        Seq::empty()
    } else {
        let before = deploys_in(events.drop_last());
        let event = events.last();
        if event.kind() == "player_chargedeployed"@ || event.kind() == "medic_deployed"@ {
            before.push(
                Deploy {
                    tick: event.at(),
                    medic: event.user() as i64,
                    target: int_among(event.data(), "targetid"@, "target_user_id"@) as i64,
                },
            )
        } else {
            before
        }
    }
}

/// The deaths of charged medics that events tell of.
pub open spec fn charged_in(events: Seq<EventRecord>) -> Seq<ChargedDeath>
    decreases events.len(),
{
    if events.len() == 0 {
        Seq::empty()
    } else {
        let before = charged_in(events.drop_last());
        let event = events.last();
        if event.kind() == "medic_death"@ && bool_of(lookup(event.data(), "charged"@)) == Some(
            true,
        ) {
            before.push(ChargedDeath { tick: event.at(), medic: event.user() as i64 })
        } else {
            before
        }
    }
}

/// Whether a hit was a small critical one. The first of two spellings that is
/// there counts.
pub open spec fn mini_crit(record: RecordModel) -> bool {
    match lookup(record, "mini_crit"@) {
        Some(value) => bool_of(Some(value)) == Some(true),
        None => bool_of(lookup(record, "minicrit"@)) == Some(true),
    }
}

/// The hits that events tell of.
pub open spec fn hurts_in(events: Seq<EventRecord>) -> Seq<Hurt>
    decreases events.len(),
{
    if events.len() == 0 {
        Seq::empty()
    } else {
        let before = hurts_in(events.drop_last());
        let event = events.last();
        if event.kind() == "player_hurt"@ {
            before.push(
                Hurt {
                    tick: event.at(),
                    attacker: int_field(event.data(), "attacker"@) as i64,
                    victim: event.user() as i64,
                    weapon_id: int_field(event.data(), "weapon_id"@) as i64,
                    mini_crit: mini_crit(event.data()),
                },
            )
        } else {
            before
        }
    }
}

/// The events of a match that bear on kills.
pub fn gather_signals(events: &Vec<EventRecord>) -> (out: MatchSignals)
    ensures
        out.deploys@ == deploys_in(events@),
        out.charged_deaths@ == charged_in(events@),
        out.hurts@ == hurts_in(events@),
{
    let mut deploys: Vec<Deploy> = Vec::new();
    let mut charged_deaths: Vec<ChargedDeath> = Vec::new();
    let mut hurts: Vec<Hurt> = Vec::new();
    let mut i: usize = 0;
    while i < events.len()
        invariant
            i <= events.len(),
            deploys@ == deploys_in(events@.take(i as int)),
            charged_deaths@ == charged_in(events@.take(i as int)),
            hurts@ == hurts_in(events@.take(i as int)),
        decreases events.len() - i,
    {
        proof {
            assert(events@.take(i + 1).drop_last() =~= events@.take(i as int));
            assert(events@.take(i + 1).last() == events@[i as int]);
        }
        let event = &events[i];
        let tick: i64 = event.analysis_tick();
        if event.is("player_chargedeployed") || event.is("medic_deployed") {
            deploys.push(
                Deploy {
                    tick,
                    medic: event.user_id(),
                    target: event.number_of_either("targetid", "target_user_id"),
                },
            );
        }
        if event.is("medic_death") && event.event.is_set("charged") {
            charged_deaths.push(ChargedDeath { tick, medic: event.user_id() });
        }
        if event.is("player_hurt") {
            let mini = match event.event.get("mini_crit") {
                Some(_) => event.event.is_set("mini_crit"),
                None => event.event.is_set("minicrit"),
            };
            hurts.push(
                Hurt {
                    tick,
                    attacker: event.number("attacker"),
                    victim: event.user_id(),
                    weapon_id: event.number("weapon_id"),
                    mini_crit: mini,
                },
            );
        }
        i += 1;
    }
    assert(events@.take(events.len() as int) =~= events@);
    MatchSignals { deploys, charged_deaths, hurts }
}

/// A kill as a loss of the victim's team.
#[derive(Debug)]
pub struct Loss {
    pub tick: i64,
    pub victim: i64,
    pub team: String,
}

/// The losses that kills are.
pub open spec fn losses_of(losses: Seq<Loss>, deaths: Seq<Death>) -> bool {
    &&& losses.len() == deaths.len()
    &&& forall|i: int|
        0 <= i < losses.len() ==> (#[trigger] losses[i]).tick == deaths[i].event_tick
            && losses[i].victim == deaths[i].victim && losses[i].team@ == deaths[i].victim_team@
}

/// The losses that kills are.
pub fn list_losses(deaths: &Vec<Death>) -> (out: Vec<Loss>)
    ensures
        losses_of(out@, deaths@),
{
    let mut out: Vec<Loss> = Vec::new();
    let mut i: usize = 0;
    while i < deaths.len()
        invariant
            i <= deaths.len(),
            out.len() == i,
            forall|k: int|
                0 <= k < i ==> (#[trigger] out@[k]).tick == deaths@[k].event_tick && out@[k].victim
                    == deaths@[k].victim && out@[k].team@ == deaths@[k].victim_team@,
        decreases deaths.len() - i,
    {
        out.push(
            Loss {
                tick: deaths[i].event_tick,
                victim: deaths[i].victim,
                team: deaths[i].victim_team.clone(),
            },
        );
        i += 1;
    }
    out
}

// ---------------------------------------------------------------------------
// What signals say of a kill
// ---------------------------------------------------------------------------

/// Whether a loss of a team came shortly before a tick.
pub open spec fn recent_loss(loss: Loss, team: Seq<char>, tick: i64) -> bool {
    loss.tick < tick && loss.tick >= tick - SACK_RECOVERY_TICKS && loss.team@ == team
}

/// Who was lost shortly before a tick.
pub open spec fn recently_lost(losses: Seq<Loss>, team: Seq<char>, tick: i64) -> Set<i64>
    decreases losses.len(),
{
    if losses.len() == 0 {
        Set::empty()
    } else {
        let before = recently_lost(losses.drop_last(), team, tick);
        if recent_loss(losses.last(), team, tick) {
            before.insert(losses.last().victim)
        } else {
            before
        }
    }
}

/// When someone was lost shortly before a tick.
pub open spec fn recent_loss_ticks(losses: Seq<Loss>, team: Seq<char>, tick: i64) -> Set<i64>
    decreases losses.len(),
{
    if losses.len() == 0 {
        Set::empty()
    } else {
        let before = recent_loss_ticks(losses.drop_last(), team, tick);
        if recent_loss(losses.last(), team, tick) {
            before.insert(losses.last().tick)
        } else {
            before
        }
    }
}

fn find_recent(losses: &Vec<Loss>, team: &str, tick: i64) -> (out: (Vec<i64>, Vec<i64>))
    ensures
        rising(out.0@),
        out.0@.to_set() == recently_lost(losses@, team@, tick),
        rising(out.1@),
        out.1@.to_set() == recent_loss_ticks(losses@, team@, tick),
{
    let mut users: Vec<i64> = Vec::new();
    let mut ticks: Vec<i64> = Vec::new();
    let mut i: usize = 0;
    assert(users@.to_set() =~= Set::empty());
    assert(ticks@.to_set() =~= Set::empty());
    while i < losses.len()
        invariant
            i <= losses.len(),
            rising(users@),
            users@.to_set() == recently_lost(losses@.take(i as int), team@, tick),
            rising(ticks@),
            ticks@.to_set() == recent_loss_ticks(losses@.take(i as int), team@, tick),
        decreases losses.len() - i,
    {
        proof {
            assert(losses@.take(i + 1).drop_last() =~= losses@.take(i as int));
            assert(losses@.take(i + 1).last() == losses@[i as int]);
        }
        let loss = &losses[i];
        if loss.tick < tick && loss.tick as i128 >= tick as i128 - SACK_RECOVERY_TICKS as i128
            && same_text(loss.team.as_str(), team) {
            insert_number(&mut users, loss.victim);
            insert_number(&mut ticks, loss.tick);
        }
        i += 1;
    }
    assert(losses@.take(losses.len() as int) =~= losses@);
    (users, ticks)
}

/// Whether a medic used their charge shortly before a tick.
pub open spec fn recently_deployed(deploys: Seq<Deploy>, medic: i64, tick: i64) -> bool {
    exists|i: int|
        0 <= i < deploys.len() && (#[trigger] deploys[i]).medic == medic && deploys[i].tick <= tick
            && tick - deploys[i].tick <= CAPTURE_DENIAL_TICKS
}

fn has_deployed(deploys: &Vec<Deploy>, medic: i64, tick: i64) -> (r: bool)
    ensures
        r == recently_deployed(deploys@, medic, tick),
{
    let mut i: usize = 0;
    while i < deploys.len()
        invariant
            i <= deploys.len(),
            forall|k: int|
                0 <= k < i ==> !((#[trigger] deploys@[k]).medic == medic && deploys@[k].tick <= tick
                    && tick - deploys@[k].tick <= CAPTURE_DENIAL_TICKS),
        decreases deploys.len() - i,
    {
        let deploy = deploys[i];
        if deploy.medic == medic && deploy.tick <= tick && tick as i128 - deploy.tick as i128
            <= CAPTURE_DENIAL_TICKS as i128 {
            assert(deploys@[i as int].medic == medic);
            return true;
        }
        i += 1;
    }
    false
}

fn died_charged(list: &Vec<ChargedDeath>, tick: i64, medic: i64) -> (r: bool)
    ensures
        r == list@.contains(ChargedDeath { tick, medic }),
{
    let mut i: usize = 0;
    while i < list.len()
        invariant
            i <= list.len(),
            forall|k: int| 0 <= k < i ==> list@[k] != (ChargedDeath { tick, medic }),
        decreases list.len() - i,
    {
        if list[i].tick == tick && list[i].medic == medic {
            assert(list@[i as int] == (ChargedDeath { tick, medic }));
            return true;
        }
        i += 1;
    }
    false
}

/// Whether a state is of a medic of a team with a medigun for critical hits.
pub open spec fn kritz_medic(state: RecordModel, team: Seq<char>) -> bool {
    &&& state_class(state) == "medic"@
    &&& state_team(state) == team
    &&& text_of(lookup(state, "medigun"@)) matches Some(text) && has_text(lower(text), "kritz"@)
}

/// Whether a charge gave a player a boost that lasts to a tick.
pub open spec fn boosts(
    deploy: Deploy,
    attacker: i64,
    team: Seq<char>,
    tick: i64,
    scan: StateScan,
) -> bool {
    &&& deploy.target == attacker
    &&& deploy.tick <= tick
    &&& tick - deploy.tick <= KRITZKRIEG_DURATION_TICKS
    &&& last_before(scan.history(deploy.medic), deploy.tick) matches Some(state) && kritz_medic(
        state,
        team,
    )
}

fn was_boosted(
    deploys: &Vec<Deploy>,
    attacker: i64,
    team: &str,
    tick: i64,
    scan: &StateScan,
) -> (r: bool)
    ensures
        r == exists|i: int|
            0 <= i < deploys.len() && boosts(#[trigger] deploys@[i], attacker, team@, tick, *scan),
{
    let mut i: usize = 0;
    while i < deploys.len()
        invariant
            i <= deploys.len(),
            forall|k: int|
                0 <= k < i ==> !boosts(#[trigger] deploys@[k], attacker, team@, tick, *scan),
        decreases deploys.len() - i,
    {
        let deploy = deploys[i];
        if deploy.target == attacker && deploy.tick <= tick && tick as i128 - deploy.tick as i128
            <= KRITZKRIEG_DURATION_TICKS as i128 {
            if let Some(state) = player_state_before(scan, deploy.medic, deploy.tick) {
                proof {
                    reveal_strlit("medic");
                }
                let medigun = match state.string("medigun") {
                    Some(text) => contains_text(to_lower(text.as_str()).as_str(), "kritz"),
                    None => false,
                };
                if is_class(state, "medic") && same_text(
                    canonical_team_value(state, "team").as_str(),
                    team,
                ) && medigun {
                    assert(boosts(deploys@[i as int], attacker, team@, tick, *scan));
                    return true;
                }
            }
        }
        i += 1;
    }
    false
}

/// Whether a hit is one that a kill with a cannonball can come of.
pub open spec fn cannon_hit(hurt: Hurt, death: Death) -> bool {
    &&& hurt.attacker == death.attacker
    &&& hurt.victim == death.victim
    &&& hurt.tick <= death.event_tick
    &&& death.event_tick - hurt.tick <= DOUBLE_DONK_WINDOW_TICKS
    &&& (hurt.weapon_id == 0 || death.weapon_id == 0 || hurt.weapon_id == death.weapon_id)
}

/// The hits that a kill with a cannonball can come of.
pub open spec fn cannon_hits(hurts: Seq<Hurt>, death: Death) -> Seq<Hurt>
    decreases hurts.len(),
{
    if hurts.len() == 0 {
        Seq::empty()
    } else {
        let before = cannon_hits(hurts.drop_last(), death);
        if cannon_hit(hurts.last(), death) {
            before.push(hurts.last())
        } else {
            before
        }
    }
}

/// Whether a hit and an explosion make a kill with both.
pub open spec fn donks(impact: Hurt, explosion: Hurt, tick: i64) -> bool {
    &&& !impact.mini_crit
    &&& explosion.mini_crit
    &&& explosion.tick >= impact.tick
    &&& explosion.tick - impact.tick <= DOUBLE_DONK_WINDOW_TICKS
    &&& tick - explosion.tick <= 1
}

/// Whether hits show a kill by the ball and its explosion.
pub open spec fn double_donk(hits: Seq<Hurt>, tick: i64) -> bool {
    exists|i: int, j: int|
        0 <= i < hits.len() && 0 <= j < hits.len() && donks(
            #[trigger] hits[i],
            #[trigger] hits[j],
            tick,
        )
}

/// The earliest of some hits; some other tick where there is none.
pub open spec fn first_hit(hits: Seq<Hurt>, otherwise: i64) -> i64
    decreases hits.len(),
{
    match earliest_hit(hits) {
        Some(tick) => tick,
        None => otherwise,
    }
}

/// The tick of the earliest of some hits.
pub open spec fn earliest_hit(hits: Seq<Hurt>) -> Option<i64>
    decreases hits.len(),
{
    if hits.len() == 0 {
        None
    } else {
        match earliest_hit(hits.drop_last()) {
            Some(best) if best <= hits.last().tick => Some(best),
            _ => Some(hits.last().tick),
        }
    }
}

fn find_cannon_hits(hurts: &Vec<Hurt>, death: &Death) -> (out: Vec<Hurt>)
    ensures
        out@ == cannon_hits(hurts@, *death),
{
    let mut out: Vec<Hurt> = Vec::new();
    let mut i: usize = 0;
    while i < hurts.len()
        invariant
            i <= hurts.len(),
            out@ == cannon_hits(hurts@.take(i as int), *death),
        decreases hurts.len() - i,
    {
        proof {
            assert(hurts@.take(i + 1).drop_last() =~= hurts@.take(i as int));
            assert(hurts@.take(i + 1).last() == hurts@[i as int]);
        }
        let hurt = hurts[i];
        if hurt.attacker == death.attacker && hurt.victim == death.victim && hurt.tick
            <= death.event_tick && death.event_tick as i128 - hurt.tick as i128
            <= DOUBLE_DONK_WINDOW_TICKS as i128 && (hurt.weapon_id == 0 || death.weapon_id == 0
            || hurt.weapon_id == death.weapon_id) {
            out.push(hurt);
        }
        i += 1;
    }
    assert(hurts@.take(hurts.len() as int) =~= hurts@);
    out
}

fn is_double_donk(hits: &Vec<Hurt>, tick: i64) -> (r: bool)
    ensures
        r == double_donk(hits@, tick),
{
    let mut i: usize = 0;
    while i < hits.len()
        invariant
            i <= hits.len(),
            forall|a: int, b: int|
                0 <= a < i && 0 <= b < hits.len() ==> !donks(
                    #[trigger] hits@[a],
                    #[trigger] hits@[b],
                    tick,
                ),
        decreases hits.len() - i,
    {
        let impact = hits[i];
        let mut j: usize = 0;
        while j < hits.len()
            invariant
                i < hits.len(),
                j <= hits.len(),
                impact == hits@[i as int],
                forall|b: int| 0 <= b < j ==> !donks(impact, #[trigger] hits@[b], tick),
            decreases hits.len() - j,
        {
            let explosion = hits[j];
            if !impact.mini_crit && explosion.mini_crit && explosion.tick >= impact.tick
                && explosion.tick as i128 - impact.tick as i128 <= DOUBLE_DONK_WINDOW_TICKS as i128
                && tick as i128 - explosion.tick as i128 <= 1 {
                assert(donks(hits@[i as int], hits@[j as int], tick));
                return true;
            }
            j += 1;
        }
        i += 1;
    }
    false
}

fn find_first_hit(hits: &Vec<Hurt>, otherwise: i64) -> (out: i64)
    ensures
        out == first_hit(hits@, otherwise),
{
    let mut best: Option<i64> = None;
    let mut i: usize = 0;
    while i < hits.len()
        invariant
            i <= hits.len(),
            best == earliest_hit(hits@.take(i as int)),
        decreases hits.len() - i,
    {
        proof {
            assert(hits@.take(i + 1).drop_last() =~= hits@.take(i as int));
            assert(hits@.take(i + 1).last() == hits@[i as int]);
        }
        match best {
            Some(known) => {
                if known > hits[i].tick {
                    best = Some(hits[i].tick);
                }
            },
            None => {
                best = Some(hits[i].tick);
            },
        }
        i += 1;
    }
    assert(hits@.take(hits.len() as int) =~= hits@);
    match best {
        Some(tick) => tick,
        None => otherwise,
    }
}

/// Whether the attacker put pressure on a medic, or on the target of the charge,
/// just before it.
pub open spec fn pressed(hurts: Seq<Hurt>, attacker: i64, deploy: Deploy) -> bool {
    exists|i: int|
        0 <= i < hurts.len() && (#[trigger] hurts[i]).attacker == attacker && (hurts[i].victim
            == deploy.medic || hurts[i].victim == deploy.target) && hurts[i].tick <= deploy.tick
            && deploy.tick - hurts[i].tick <= MEDIC_FORCE_PRESSURE_TICKS
}

fn is_pressed(hurts: &Vec<Hurt>, attacker: i64, deploy: Deploy) -> (r: bool)
    ensures
        r == pressed(hurts@, attacker, deploy),
{
    let mut i: usize = 0;
    while i < hurts.len()
        invariant
            i <= hurts.len(),
            forall|k: int|
                0 <= k < i ==> !((#[trigger] hurts@[k]).attacker == attacker && (hurts@[k].victim
                    == deploy.medic || hurts@[k].victim == deploy.target) && hurts@[k].tick
                    <= deploy.tick && deploy.tick - hurts@[k].tick <= MEDIC_FORCE_PRESSURE_TICKS),
        decreases hurts.len() - i,
    {
        let hurt = hurts[i];
        if hurt.attacker == attacker && (hurt.victim == deploy.medic || hurt.victim
            == deploy.target) && hurt.tick <= deploy.tick && deploy.tick as i128
            - hurt.tick as i128 <= MEDIC_FORCE_PRESSURE_TICKS as i128 {
            assert(hurts@[i as int].attacker == attacker);
            return true;
        }
        i += 1;
    }
    false
}

/// What is known of a medic at a charge: the last state before it, else the one
/// at the kill.
pub open spec fn medic_state(
    deploy: Deploy,
    players: Seq<(i64, RecordModel)>,
    scan: StateScan,
) -> Option<RecordModel> {
    match last_before(scan.history(deploy.medic), deploy.tick) {
        Some(state) => Some(state),
        None => entry_of(players, deploy.medic),
    }
}

/// Whether a kill forced an enemy medic to use a charge.
pub open spec fn forces(
    deploy: Deploy,
    death: Death,
    players: Seq<(i64, RecordModel)>,
    hurts: Seq<Hurt>,
    scan: StateScan,
) -> bool {
    &&& deploy.tick >= death.event_tick
    &&& deploy.tick - death.event_tick <= MEDIC_FORCE_FOLLOWUP_TICKS
    &&& medic_state(deploy, players, scan) matches Some(state) && state_team(state)
        == death.victim_team@ && state_class(state) == "medic"@
    &&& pressed(hurts, death.attacker, deploy)
}

/// The charges that a kill forced.
pub open spec fn forced_by(
    deploys: Seq<Deploy>,
    death: Death,
    players: Seq<(i64, RecordModel)>,
    hurts: Seq<Hurt>,
    scan: StateScan,
) -> Seq<ForceFollowup>
    decreases deploys.len(),
{
    if deploys.len() == 0 {
        Seq::empty()
    } else {
        let before = forced_by(deploys.drop_last(), death, players, hurts, scan);
        let deploy = deploys.last();
        if forces(deploy, death, players, hurts, scan) {
            before.push(
                ForceFollowup {
                    event_tick: deploy.tick,
                    medic_user_id: deploy.medic,
                    target_user_id: deploy.target,
                },
            )
        } else {
            before
        }
    }
}

fn find_forced(
    deploys: &Vec<Deploy>,
    death: &Death,
    players: &Vec<Keyed<Record>>,
    hurts: &Vec<Hurt>,
    scan: &StateScan,
) -> (out: Vec<ForceFollowup>)
    ensures
        out@ == forced_by(deploys@, *death, entries(players@), hurts@, *scan),
{
    let ghost all = entries(players@);
    let mut out: Vec<ForceFollowup> = Vec::new();
    let mut i: usize = 0;
    while i < deploys.len()
        invariant
            i <= deploys.len(),
            all == entries(players@),
            out@ == forced_by(deploys@.take(i as int), *death, all, hurts@, *scan),
        decreases deploys.len() - i,
    {
        proof {
            assert(deploys@.take(i + 1).drop_last() =~= deploys@.take(i as int));
            assert(deploys@.take(i + 1).last() == deploys@[i as int]);
            reveal_strlit("medic");
        }
        let deploy = deploys[i];
        if deploy.tick >= death.event_tick && deploy.tick as i128 - death.event_tick as i128
            <= MEDIC_FORCE_FOLLOWUP_TICKS as i128 {
            let known = match player_state_before(scan, deploy.medic, deploy.tick) {
                Some(state) => Some(state),
                None => find_value(players, deploy.medic),
            };
            if let Some(state) = known {
                if same_text(
                    canonical_team_value(state, "team").as_str(),
                    death.victim_team.as_str(),
                ) && is_class(state, "medic") && is_pressed(hurts, death.attacker, deploy) {
                    out.push(
                        ForceFollowup {
                            event_tick: deploy.tick,
                            medic_user_id: deploy.medic,
                            target_user_id: deploy.target,
                        },
                    );
                }
            }
        }
        i += 1;
    }
    assert(deploys@.take(deploys.len() as int) =~= deploys@);
    out
}

/// Whether a kill was made with a cannonball.
pub open spec fn cannon_kill(death: Death) -> bool {
    has_text(death.weapon@, "loose_cannon"@)
}

/// When the victim was hit.
pub open spec fn impact_of(death: Death, hurts: Seq<Hurt>) -> i64 {
    if cannon_kill(death) {
        first_hit(cannon_hits(hurts, death), death.event_tick)
    } else {
        death.event_tick
    }
}

/// Whether a kill was given the right evidence from the events of the match.
pub open spec fn signalled(
    before: Death,
    after: Death,
    signals: MatchSignals,
    losses: Seq<Loss>,
    scan: StateScan,
) -> bool {
    let tick = before.event_tick;
    let deploys = signals.deploys@;
    let hurts = signals.hurts@;
    &&& same_kill(before, after)
    &&& after.attacker_class == before.attacker_class
    &&& after.attacker_team == before.attacker_team
    &&& after.victim_class == before.victim_class
    &&& after.victim_team == before.victim_team
    &&& after.state.recent_friendly_deaths == recently_lost(
        losses,
        before.attacker_team@,
        tick,
    ).len()
    &&& rising(after.state.recent_friendly_death_ticks@)
    &&& after.state.recent_friendly_death_ticks@.to_set() == recent_loss_ticks(
        losses,
        before.attacker_team@,
        tick,
    )
    &&& after.state.confirmed_uber_drop == ((before.state.confirmed_uber_drop
        || signals.charged_deaths@.contains(ChargedDeath { tick, medic: before.victim }))
        && !recently_deployed(deploys, before.victim, tick))
    &&& after.state.confirmed_kritzkrieg_boost == (bool_of(
        lookup(before.state.attacker.model(), "kritz_boosted"@),
    ) == Some(true) && exists|i: int|
        0 <= i < deploys.len() && boosts(
            #[trigger] deploys[i],
            before.attacker,
            before.attacker_team@,
            tick,
            scan,
        ))
    &&& after.state.confirmed_double_donk == (if cannon_kill(before) {
        double_donk(cannon_hits(hurts, before), tick)
    } else {
        before.state.confirmed_double_donk
    })
    &&& after.state.projectile_impact_check_tick == Some(impact_of(before, hurts))
    &&& after.state.victim_airborne_before_projectile_impact == airborne_before(
        scan.history(before.victim),
        impact_of(before, hurts),
        if cannon_kill(before) {
            AIRSHOT_LOOSE_CANNON_IMPACT_GUARD_TICKS
        } else {
            AIRSHOT_STANDARD_IMPACT_GUARD_TICKS
        },
    )
    &&& after.state.attacker_recent_shield_charge_tick == last_flag(
        scan.history(before.attacker),
        tick,
        "shield_charging"@,
        CHARGE_MELEE_FOLLOWUP_TICKS,
    )
    &&& after.state.enemy_medic_force_followups@ == (match snapshot_at(
        snapshot_models(scan.snapshots@),
        tick,
    ) {
        Some(snapshot) => before.state.enemy_medic_force_followups@ + forced_by(
            deploys,
            before,
            snapshot.all,
            hurts,
            scan,
        ),
        None => before.state.enemy_medic_force_followups@,
    })
    &&& same_standing(before.state, after.state)
}

/// Whether two states are the same but for what the events say.
pub open spec fn same_standing(a: StateEvidence, b: StateEvidence) -> bool {
    &&& a.attacker == b.attacker
    &&& a.victim == b.victim
    &&& a.friendly_alive_before == b.friendly_alive_before
    &&& a.enemy_alive_before == b.enemy_alive_before
    &&& a.friendly_state_roster == b.friendly_state_roster
    &&& a.enemy_state_roster == b.enemy_state_roster
    &&& a.friendly_medic_charge == b.friendly_medic_charge
    &&& a.enemy_medic_charge == b.enemy_medic_charge
    &&& a.player_disadvantage_before == b.player_disadvantage_before
    &&& a.enemy_uber_advantage_before == b.enemy_uber_advantage_before
    &&& a.victim_next_respawn_tick == b.victim_next_respawn_tick
    &&& a.friendly_pending_respawn_ticks == b.friendly_pending_respawn_ticks
    &&& a.projectile == b.projectile
    &&& a.geometry == b.geometry
}

fn joined_charges(known: &Vec<ForceFollowup>, more: Vec<ForceFollowup>) -> (out: Vec<
    ForceFollowup,
>)
    ensures
        out@ == known@ + more@,
{
    let mut out: Vec<ForceFollowup> = Vec::new();
    let mut i: usize = 0;
    while i < known.len()
        invariant
            i <= known.len(),
            out@ == known@.take(i as int),
        decreases known.len() - i,
    {
        out.push(known[i]);
        assert(known@.take(i + 1) =~= known@.take(i as int).push(known@[i as int]));
        i += 1;
    }
    assert(known@.take(known.len() as int) =~= known@);
    let mut k: usize = 0;
    assert(known@ + more@.take(0) =~= known@);
    while k < more.len()
        invariant
            k <= more.len(),
            out@ == known@ + more@.take(k as int),
        decreases more.len() - k,
    {
        out.push(more[k]);
        assert(known@ + more@.take(k + 1) =~= (known@ + more@.take(k as int)).push(
            more@[k as int],
        ));
        k += 1;
    }
    assert(more@.take(more.len() as int) =~= more@);
    out
}

/// Gives a kill the evidence that the events of the match hold for it.
pub fn attach_event_evidence(
    death: &mut Death,
    signals: &MatchSignals,
    losses: &Vec<Loss>,
    scan: &StateScan,
)
    ensures
        signalled(*old(death), *final(death), *signals, losses@, *scan),
{
    let tick: i64 = death.event_tick;
    let (users, loss_ticks) = find_recent(losses, death.attacker_team.as_str(), tick);
    proof {
        assert(users@.no_duplicates());
        users@.unique_seq_to_set();
    }
    let dropped = (death.state.confirmed_uber_drop || died_charged(
        &signals.charged_deaths,
        tick,
        death.victim,
    )) && !has_deployed(&signals.deploys, death.victim, tick);
    let boosted = death.state.attacker.is_set("kritz_boosted") && was_boosted(
        &signals.deploys,
        death.attacker,
        death.attacker_team.as_str(),
        tick,
        scan,
    );
    let cannon = contains_text(death.weapon.as_str(), "loose_cannon");
    let hits = find_cannon_hits(&signals.hurts, death);
    let donk = if cannon {
        is_double_donk(&hits, tick)
    } else {
        death.state.confirmed_double_donk
    };
    let impact: i64 = if cannon {
        find_first_hit(&hits, tick)
    } else {
        tick
    };
    let guard: i64 = if cannon {
        AIRSHOT_LOOSE_CANNON_IMPACT_GUARD_TICKS
    } else {
        AIRSHOT_STANDARD_IMPACT_GUARD_TICKS
    };
    let airborne = player_airborne_before_impact(scan, death.victim, impact, guard);
    let charge = last_player_flag_tick(
        scan,
        death.attacker,
        tick,
        "shield_charging",
        CHARGE_MELEE_FOLLOWUP_TICKS,
    );
    let forced = match find_snapshot(scan, tick) {
        Some(snapshot) => find_forced(
            &signals.deploys,
            death,
            &snapshot.all,
            &signals.hurts,
            scan,
        ),
        None => Vec::new(),
    };
    let followups = joined_charges(&death.state.enemy_medic_force_followups, forced);
    proof {
        if snapshot_at(snapshot_models(scan.snapshots@), tick) is None {
            assert(followups@ =~= old(death).state.enemy_medic_force_followups@);
        }
    }
    death.state.recent_friendly_deaths = users.len();
    death.state.recent_friendly_death_ticks = loss_ticks;
    death.state.confirmed_uber_drop = dropped;
    death.state.confirmed_kritzkrieg_boost = boosted;
    death.state.confirmed_double_donk = donk;
    death.state.projectile_impact_check_tick = Some(impact);
    death.state.victim_airborne_before_projectile_impact = airborne;
    death.state.attacker_recent_shield_charge_tick = charge;
    death.state.enemy_medic_force_followups = followups;
}

// ---------------------------------------------------------------------------
// What evidence rests on
// ---------------------------------------------------------------------------

proof fn lemma_recently_lost(losses: Seq<Loss>, team: Seq<char>, tick: i64, user: i64)
    ensures
        recently_lost(losses, team, tick).contains(user) <==> exists|i: int|
            0 <= i < losses.len() && (#[trigger] losses[i]).victim == user && losses[i].team@
                == team && tick - 667 <= losses[i].tick < tick,
    decreases losses.len(),
{
    if losses.len() > 0 {
        let rest = losses.drop_last();
        let last = losses.len() - 1;
        lemma_recently_lost(rest, team, tick, user);
        assert(losses[last] == losses.last());
        if recently_lost(rest, team, tick).contains(user) {
            let i = choose|i: int|
                0 <= i < rest.len() && (#[trigger] rest[i]).victim == user && rest[i].team@ == team
                    && tick - 667 <= rest[i].tick < tick;
            assert(losses[i] == rest[i]);
        }
        if exists|i: int|
            0 <= i < losses.len() && (#[trigger] losses[i]).victim == user && losses[i].team@
                == team && tick - 667 <= losses[i].tick < tick {
            let i = choose|i: int|
                0 <= i < losses.len() && (#[trigger] losses[i]).victim == user && losses[i].team@
                    == team && tick - 667 <= losses[i].tick < tick;
            if i < last {
                assert(rest[i] == losses[i]);
            }
        }
    }
}

/// A friend counts as lost before a kill where they died in the ten seconds before it,
/// each friend once.
pub proof fn law_recent_losses_are_told(
    before: Death,
    after: Death,
    signals: MatchSignals,
    losses: Seq<Loss>,
    scan: StateScan,
)
    requires
        signalled(before, after, signals, losses, scan),
    ensures
        ({
            let lost = Set::new(
                |user: i64|
                    exists|i: int|
                        0 <= i < losses.len() && (#[trigger] losses[i]).victim == user
                            && losses[i].team@ == before.attacker_team@ && before.event_tick - 667
                            <= losses[i].tick < before.event_tick,
            );
            after.state.recent_friendly_deaths == lost.len()
        }),
{
    let lost = Set::new(
        |user: i64|
            exists|i: int|
                0 <= i < losses.len() && (#[trigger] losses[i]).victim == user && losses[i].team@
                    == before.attacker_team@ && before.event_tick - 667 <= losses[i].tick
                    < before.event_tick,
    );
    let known = recently_lost(losses, before.attacker_team@, before.event_tick);
    assert forall|user: i64| #[trigger] known.contains(user) <==> lost.contains(user) by {
        lemma_recently_lost(losses, before.attacker_team@, before.event_tick, user);
    }
    assert(known =~= lost);
}

/// A Medic dropped a charge where they died with one, or with 95 per cent of one, unless
/// they had used it in the two seconds before.
pub proof fn law_dropped_charges_are_told(
    before: Death,
    after: Death,
    signals: MatchSignals,
    losses: Seq<Loss>,
    scan: StateScan,
)
    requires
        signalled(before, after, signals, losses, scan),
    ensures
        after.state.confirmed_uber_drop <==> (before.state.confirmed_uber_drop || exists|i: int|
            0 <= i < signals.charged_deaths.len() && (#[trigger] signals.charged_deaths@[i]).tick
                == before.event_tick && signals.charged_deaths@[i].medic == before.victim)
            && !exists|i: int|
            0 <= i < signals.deploys.len() && (#[trigger] signals.deploys@[i]).medic
                == before.victim && 0 <= before.event_tick - signals.deploys@[i].tick <= 133,
{
    let one = ChargedDeath { tick: before.event_tick, medic: before.victim };
    let list = signals.charged_deaths@;
    if list.contains(one) {
        let i = choose|i: int| 0 <= i < list.len() && list[i] == one;
        assert(list[i].tick == before.event_tick);
    }
    if exists|i: int|
        0 <= i < list.len() && (#[trigger] list[i]).tick == before.event_tick && list[i].medic
            == before.victim {
        let i = choose|i: int|
            0 <= i < list.len() && (#[trigger] list[i]).tick == before.event_tick && list[i].medic
                == before.victim;
        assert(list[i] == one);
    }
}

/// A kill by the ball of a cannon and its explosion takes two hits of the attacker on the
/// victim within half a second, the later one a small critical hit that comes at most a
/// tick before the kill.
pub proof fn law_double_donks_take_two_hits(
    before: Death,
    after: Death,
    signals: MatchSignals,
    losses: Seq<Loss>,
    scan: StateScan,
)
    requires
        signalled(before, after, signals, losses, scan),
        has_text(before.weapon@, "loose_cannon"@),
    ensures
        after.state.confirmed_double_donk ==> exists|i: int, j: int|
            #![trigger signals.hurts@[i], signals.hurts@[j]]
            0 <= i < signals.hurts.len() && 0 <= j < signals.hurts.len() && ({
                let ball = signals.hurts@[i];
                let blast = signals.hurts@[j];
                &&& ball.attacker == before.attacker && blast.attacker == before.attacker
                &&& ball.victim == before.victim && blast.victim == before.victim
                &&& !ball.mini_crit && blast.mini_crit
                &&& 0 <= blast.tick - ball.tick <= 33
                &&& 0 <= before.event_tick - blast.tick <= 1
                &&& before.event_tick - ball.tick <= 33
            }),
        forall|i: int, j: int|
            #![trigger signals.hurts@[i], signals.hurts@[j]]
            0 <= i < signals.hurts.len() && 0 <= j < signals.hurts.len() && ({
                let ball = signals.hurts@[i];
                let blast = signals.hurts@[j];
                &&& ball.attacker == before.attacker && blast.attacker == before.attacker
                &&& ball.victim == before.victim && blast.victim == before.victim
                &&& ball.weapon_id == before.weapon_id && blast.weapon_id == before.weapon_id
                &&& !ball.mini_crit && blast.mini_crit
                &&& 0 <= blast.tick - ball.tick <= 33
                &&& 0 <= before.event_tick - blast.tick <= 1
                &&& before.event_tick - ball.tick <= 33
            }) ==> after.state.confirmed_double_donk,
{
    let hurts = signals.hurts@;
    let hits = cannon_hits(hurts, before);
    lemma_cannon_hits(hurts, before);
    if after.state.confirmed_double_donk {
        let (i, j) = choose|i: int, j: int|
            0 <= i < hits.len() && 0 <= j < hits.len() && donks(
                #[trigger] hits[i],
                #[trigger] hits[j],
                before.event_tick,
            );
        assert(hits.contains(hits[i]) && hits.contains(hits[j]));
        let a = choose|a: int| 0 <= a < hurts.len() && hurts[a] == hits[i];
        let b = choose|b: int| 0 <= b < hurts.len() && hurts[b] == hits[j];
        assert(hurts[a].tick <= hurts[b].tick);
    }
    assert forall|i: int, j: int|
        #![trigger hurts[i], hurts[j]]
        0 <= i < hurts.len() && 0 <= j < hurts.len() && ({
            let ball = hurts[i];
            let blast = hurts[j];
            &&& ball.attacker == before.attacker && blast.attacker == before.attacker
            &&& ball.victim == before.victim && blast.victim == before.victim
            &&& ball.weapon_id == before.weapon_id && blast.weapon_id == before.weapon_id
            &&& !ball.mini_crit && blast.mini_crit
            &&& 0 <= blast.tick - ball.tick <= 33
            &&& 0 <= before.event_tick - blast.tick <= 1
            &&& before.event_tick - ball.tick <= 33
        }) implies after.state.confirmed_double_donk by {
        assert(cannon_hit(hurts[i], before) && cannon_hit(hurts[j], before));
        assert(hurts.contains(hurts[i]) && hurts.contains(hurts[j]));
        assert(hits.contains(hurts[i]) && hits.contains(hurts[j]));
        let a = choose|a: int| 0 <= a < hits.len() && hits[a] == hurts[i];
        let b = choose|b: int| 0 <= b < hits.len() && hits[b] == hurts[j];
        assert(donks(hits[a], hits[b], before.event_tick));
    }
}

proof fn lemma_cannon_hits(hurts: Seq<Hurt>, death: Death)
    ensures
        forall|hurt: Hurt| #[trigger]
            cannon_hits(hurts, death).contains(hurt) <==> hurts.contains(hurt) && cannon_hit(
                hurt,
                death,
            ),
    decreases hurts.len(),
{
    if hurts.len() > 0 {
        let rest = hurts.drop_last();
        let known = cannon_hits(rest, death);
        let all = cannon_hits(hurts, death);
        lemma_cannon_hits(rest, death);
        assert forall|hurt: Hurt| #[trigger] all.contains(hurt) <==> hurts.contains(hurt)
            && cannon_hit(hurt, death) by {
            if all.contains(hurt) {
                let k = choose|k: int| 0 <= k < all.len() && all[k] == hurt;
                if k < known.len() {
                    assert(known[k] == hurt);
                    assert(known.contains(hurt));
                    let n = choose|n: int| 0 <= n < rest.len() && rest[n] == hurt;
                    assert(hurts[n] == hurt);
                } else {
                    assert(hurts[hurts.len() - 1] == hurt);
                }
            }
            if hurts.contains(hurt) && cannon_hit(hurt, death) {
                let n = choose|n: int| 0 <= n < hurts.len() && hurts[n] == hurt;
                if n < rest.len() {
                    assert(rest[n] == hurt);
                    assert(known.contains(hurt));
                    let k = choose|k: int| 0 <= k < known.len() && known[k] == hurt;
                    assert(all[k] == hurt);
                } else {
                    assert(all[all.len() - 1] == hurt);
                }
            }
        }
    } else {
        assert(cannon_hits(hurts, death) =~= Seq::empty());
    }
}

/// Whether the victim was in the air is told from what was known two ticks before they
/// were hit, and six ticks before the first hit of a cannonball, which so cannot lift
/// them itself.
pub proof fn law_victims_fly_before_they_are_hit(
    before: Death,
    after: Death,
    signals: MatchSignals,
    losses: Seq<Loss>,
    scan: StateScan,
    other: StateScan,
    flown: Death,
)
    requires
        signalled(before, after, signals, losses, scan),
        signalled(before, flown, signals, losses, other),
    ensures
        !has_text(before.weapon@, "loose_cannon"@) ==> (
        after.state.victim_airborne_before_projectile_impact <==> airborne_before(
            scan.history(before.victim),
            before.event_tick,
            2,
        )),
        has_text(before.weapon@, "loose_cannon"@) ==> (
        after.state.projectile_impact_check_tick matches Some(hit) && hit <= before.event_tick && (
        after.state.victim_airborne_before_projectile_impact <==> airborne_before(
            scan.history(before.victim),
            hit,
            6,
        )) && forall|i: int|
            0 <= i < signals.hurts.len() && (#[trigger] signals.hurts@[i]).attacker
                == before.attacker && signals.hurts@[i].victim == before.victim
                && signals.hurts@[i].weapon_id == before.weapon_id && 0 <= before.event_tick
                - signals.hurts@[i].tick <= 33 ==> hit <= signals.hurts@[i].tick),
        scan.history(before.victim) == other.history(before.victim)
            ==> after.state.victim_airborne_before_projectile_impact
            == flown.state.victim_airborne_before_projectile_impact,
{
    let hurts = signals.hurts@;
    let hits = cannon_hits(hurts, before);
    lemma_cannon_hits(hurts, before);
    lemma_earliest(hits);
    if let Some(at) = earliest_hit(hits) {
        let k = choose|k: int| 0 <= k < hits.len() && (#[trigger] hits[k]).tick == at;
        assert(hits.contains(hits[k]));
    }
    if has_text(before.weapon@, "loose_cannon"@) {
        assert forall|i: int|
            0 <= i < hurts.len() && (#[trigger] hurts[i]).attacker == before.attacker
                && hurts[i].victim == before.victim && hurts[i].weapon_id == before.weapon_id && 0
                <= before.event_tick - hurts[i].tick <= 33 implies impact_of(before, hurts)
            <= hurts[i].tick by {
            assert(cannon_hit(hurts[i], before));
            assert(hurts.contains(hurts[i]));
            assert(hits.contains(hurts[i]));
            let k = choose|k: int| 0 <= k < hits.len() && hits[k] == hurts[i];
            assert(hits[k].tick == hurts[i].tick);
        }
    }
}

proof fn lemma_earliest(hits: Seq<Hurt>)
    ensures
        match earliest_hit(hits) {
            Some(at) => (forall|k: int| 0 <= k < hits.len() ==> at <= (#[trigger] hits[k]).tick)
                && exists|k: int| 0 <= k < hits.len() && (#[trigger] hits[k]).tick == at,
            None => hits.len() == 0,
        },
    decreases hits.len(),
{
    if hits.len() > 0 {
        let rest = hits.drop_last();
        let last = hits.len() - 1;
        lemma_earliest(rest);
        assert(hits[last] == hits.last());
        assert forall|k: int| 0 <= k < last implies #[trigger] hits[k] == rest[k] by {
        }
        if let Some(best) = earliest_hit(rest) {
            let k = choose|k: int| 0 <= k < rest.len() && (#[trigger] rest[k]).tick == best;
            assert(hits[k] == rest[k]);
        }
    }
}

/// A boost for critical hits comes of a charge on the attacker in the eight seconds before
/// the kill, by a Medic of their team with the medigun for it.
pub proof fn law_boosts_come_of_charges(
    before: Death,
    after: Death,
    signals: MatchSignals,
    losses: Seq<Loss>,
    scan: StateScan,
)
    requires
        signalled(before, after, signals, losses, scan),
    ensures
        after.state.confirmed_kritzkrieg_boost <==> bool_of(
            lookup(before.state.attacker.model(), "kritz_boosted"@),
        ) == Some(true) && exists|i: int|
            0 <= i < signals.deploys.len() && (#[trigger] signals.deploys@[i]).target
                == before.attacker && 0 <= before.event_tick - signals.deploys@[i].tick <= 533 && (
            last_before(
                scan.history(signals.deploys@[i].medic),
                signals.deploys@[i].tick,
            ) matches Some(state) && state_class(state) == "medic"@ && state_team(state)
                == before.attacker_team@ && (text_of(lookup(state, "medigun"@)) matches Some(gun)
                && has_text(lower(gun), "kritz"@))),
        after.state.attacker_recent_shield_charge_tick == last_flag(
            scan.history(before.attacker),
            before.event_tick,
            "shield_charging"@,
            57,
        ),
{
    let deploys = signals.deploys@;
    assert forall|i: int| 0 <= i < deploys.len() implies (boosts(
        #[trigger] deploys[i],
        before.attacker,
        before.attacker_team@,
        before.event_tick,
        scan,
    ) <==> deploys[i].target == before.attacker && 0 <= before.event_tick - deploys[i].tick <= 533
        && (last_before(scan.history(deploys[i].medic), deploys[i].tick) matches Some(state)
        && state_class(state) == "medic"@ && state_team(state) == before.attacker_team@ && (text_of(
        lookup(state, "medigun"@),
    ) matches Some(gun) && has_text(lower(gun), "kritz"@)))) by {
    }
}

/// A kill forces the charges that an enemy Medic uses in the four seconds after it, where
/// the attacker hit the Medic or their target in the two seconds before the charge.
pub proof fn law_forced_charges_are_told(
    deploys: Seq<Deploy>,
    death: Death,
    players: Seq<(i64, RecordModel)>,
    hurts: Seq<Hurt>,
    scan: StateScan,
    charge: ForceFollowup,
)
    ensures
        forced_by(deploys, death, players, hurts, scan).contains(charge) <==> exists|i: int|
            #![trigger deploys[i]]
            0 <= i < deploys.len() && charge.event_tick == deploys[i].tick && charge.medic_user_id
                == deploys[i].medic && charge.target_user_id == deploys[i].target && 0
                <= deploys[i].tick - death.event_tick <= 267 && (medic_state(
                deploys[i],
                players,
                scan,
            ) matches Some(state) && state_team(state) == death.victim_team@ && state_class(state)
                == "medic"@) && exists|k: int|
                0 <= k < hurts.len() && (#[trigger] hurts[k]).attacker == death.attacker && (
                hurts[k].victim == deploys[i].medic || hurts[k].victim == deploys[i].target) && 0
                    <= deploys[i].tick - hurts[k].tick <= 133,
    decreases deploys.len(),
{
    let all = forced_by(deploys, death, players, hurts, scan);
    if deploys.len() > 0 {
        let rest = deploys.drop_last();
        let last = deploys.len() - 1;
        let known = forced_by(rest, death, players, hurts, scan);
        law_forced_charges_are_told(rest, death, players, hurts, scan, charge);
        assert forall|i: int| 0 <= i < last implies #[trigger] deploys[i] == rest[i] by {
        }
        assert(deploys[last] == deploys.last());
        if all.contains(charge) {
            let k = choose|k: int| 0 <= k < all.len() && all[k] == charge;
            if k < known.len() {
                assert(known[k] == charge);
                assert(known.contains(charge));
            } else {
                assert(forces(deploys[last], death, players, hurts, scan));
            }
        }
        if known.contains(charge) {
            let k = choose|k: int| 0 <= k < known.len() && known[k] == charge;
            assert(all[k] == charge);
        }
        if forces(deploys[last], death, players, hurts, scan) {
            assert(all[all.len() - 1] == (ForceFollowup {
                event_tick: deploys[last].tick,
                medic_user_id: deploys[last].medic,
                target_user_id: deploys[last].target,
            }));
        }
    } else {
        assert(all =~= Seq::empty());
    }
}

/// A charge is well ahead where it is ready and the other is not, or where it is at 75 per
/// cent and 25 ahead; no charge is ahead of itself, and without one nobody is ahead.
pub proof fn law_charges_are_compared(enemy: int, friendly: int)
    ensures
        !charge_ahead(None, Some(friendly)),
        !charge_ahead(None, None),
        charge_ahead(Some(enemy), None) <==> enemy >= natural(75),
        enemy >= natural(95) && friendly < natural(95) ==> charge_ahead(Some(enemy), Some(friendly)),
        enemy < natural(75) ==> !charge_ahead(Some(enemy), Some(friendly)),
        natural(75) <= enemy < natural(95) ==> (charge_ahead(Some(enemy), Some(friendly))
            <==> difference(enemy, friendly) >= natural(25)),
        !charge_ahead(Some(enemy), Some(enemy)),
{
    lemma_natural_rises(75, 95);
    lemma_natural_positive(25);
    lemma_zero();
}

/// A team stands as each of its players: adding one of the team adds one to it, and one
/// to the living where they live; players of other teams change nothing.
pub proof fn law_players_stand_for_their_team(
    players: Seq<(i64, RecordModel)>,
    player: (i64, RecordModel),
    team: Seq<char>,
)
    ensures
        ({
            let before = standing(players, team);
            let after = standing(players.push(player), team);
            let own = team_of(lookup(player.1, "team"@)) == team;
            &&& after.roster == before.roster + (if own {
                1int
            } else {
                0
            })
            &&& after.alive == before.alive + (if own && alive(player.1) {
                1int
            } else {
                0
            })
            &&& after.charge == (if own && alive(player.1) && state_class(player.1) == "medic"@ {
                higher(before.charge, number_of(lookup(player.1, "medic_charge"@)))
            } else {
                before.charge
            })
            &&& standing(Seq::empty(), team).roster == 0 && standing(Seq::empty(), team).alive == 0
        }),
{
    assert(players.push(player).drop_last() =~= players);
}

/// One more event adds what it tells to what was told before: a charge, the death of a
/// charged medic, or a hit.
pub proof fn law_events_add_their_signals(events: Seq<EventRecord>, event: EventRecord)
    ensures
        ({
            let more = events.push(event);
            let charge = event.kind() == "player_chargedeployed"@ || event.kind()
                == "medic_deployed"@;
            let death = event.kind() == "medic_death"@ && bool_of(
                lookup(event.data(), "charged"@),
            ) == Some(true);
            let hit = event.kind() == "player_hurt"@;
            &&& !charge ==> deploys_in(more) == deploys_in(events)
            &&& charge ==> deploys_in(more).drop_last() == deploys_in(events) && deploys_in(
                more,
            ).len() == deploys_in(events).len() + 1 && deploys_in(more).last().tick == event.at()
                && deploys_in(more).last().medic == event.user() as i64
            &&& !death ==> charged_in(more) == charged_in(events)
            &&& death ==> charged_in(more).drop_last() == charged_in(events) && charged_in(
                more,
            ).len() == charged_in(events).len() + 1 && charged_in(more).last().tick == event.at()
                && charged_in(more).last().medic == event.user() as i64
            &&& !hit ==> hurts_in(more) == hurts_in(events)
            &&& hit ==> hurts_in(more).drop_last() == hurts_in(events) && hurts_in(more).len()
                == hurts_in(events).len() + 1 && hurts_in(more).last().tick == event.at()
                && hurts_in(more).last().victim == event.user() as i64 && hurts_in(
                more,
            ).last().attacker == int_field(event.data(), "attacker"@) as i64
        }),
{
    let more = events.push(event);
    assert(more.drop_last() =~= events);
    if event.kind() == "player_chargedeployed"@ || event.kind() == "medic_deployed"@ {
        assert(deploys_in(more).drop_last() =~= deploys_in(events));
    }
    if event.kind() == "medic_death"@ && bool_of(lookup(event.data(), "charged"@)) == Some(true) {
        assert(charged_in(more).drop_last() =~= charged_in(events));
    }
    if event.kind() == "player_hurt"@ {
        assert(hurts_in(more).drop_last() =~= hurts_in(events));
    }
}

} // verus!

//! Kills during live play, told from the events of a demo.
use std::collections::HashMap;
use vstd::prelude::*;
use vstd::std_specs::hash::*;
use crate::events::{
    canonical_class, canonical_team_value, class_of, int_among, int_field, team_of, text_among,
    text_field, to_lowercase, unicode_lower, EventRecord,
};
use crate::floating::Double;
use crate::models::DemoContext;
use crate::record::{bool_of, lookup, Record, RecordModel};
use crate::rounds::{round_models, Round};
use crate::text::{lower, same_text, to_lower};

verus! {

/// Kills of one victim that come this many ticks after one another, or sooner,
/// are reports of one kill.
pub const DUPLICATE_DEATH_TICKS: i64 = 133;

/// A projectile that can have made a kill.
#[derive(Debug)]
pub struct ProjectileEvidence {
    pub entity_id: i64,
    pub projectile_type: String,
    pub launcher_handle: Option<i64>,
    pub distance: Double,
    pub launch_tick: i64,
    pub impact_tick: i64,
    pub flight_ms: u64,
    pub path_length: Double,
    pub airshot_eligible: bool,
}

/// A charge that an enemy medic had to use after a kill.
#[derive(Clone, Copy, Debug, PartialEq, Eq, Structural)]
pub struct ForceFollowup {
    pub event_tick: i64,
    pub medic_user_id: i64,
    pub target_user_id: i64,
}

/// How the victim stood to the attacker; the elevation is in degrees.
#[derive(Clone, Copy, Debug, PartialEq, Eq, Structural)]
pub struct AirshotGeometry {
    pub relative_height: Double,
    pub horizontal_distance: Double,
    pub elevation: Double,
}

/// What the state of the players tells of a kill. Charges are in percent.
#[derive(Debug)]
pub struct StateEvidence {
    pub attacker: Record,
    pub victim: Record,
    pub friendly_alive_before: usize,
    pub enemy_alive_before: usize,
    pub friendly_state_roster: usize,
    pub enemy_state_roster: usize,
    pub friendly_medic_charge: Option<Double>,
    pub enemy_medic_charge: Option<Double>,
    pub recent_friendly_deaths: usize,
    pub recent_friendly_death_ticks: Vec<i64>,
    pub player_disadvantage_before: usize,
    pub enemy_uber_advantage_before: bool,
    pub victim_next_respawn_tick: Option<i64>,
    pub friendly_pending_respawn_ticks: Vec<i64>,
    pub projectile: Option<ProjectileEvidence>,
    pub geometry: Option<AirshotGeometry>,
    pub attacker_recent_shield_charge_tick: Option<i64>,
    pub confirmed_double_donk: bool,
    pub victim_airborne_before_projectile_impact: bool,
    pub projectile_impact_check_tick: Option<i64>,
    pub confirmed_kritzkrieg_boost: bool,
    pub confirmed_uber_drop: bool,
    pub enemy_medic_force_followups: Vec<ForceFollowup>,
}

/// One kill.
#[derive(Debug)]
pub struct Death {
    pub event_tick: i64,
    pub demo_tick: i64,
    pub packet_sequence: i64,
    pub event_index: i64,
    pub attacker: i64,
    pub victim: i64,
    pub assister: i64,
    pub round_index: i64,
    pub weapon: String,
    pub weapon_id: i64,
    pub weapon_def_index: i64,
    pub weapon_slot: String,
    pub custom_kill: i64,
    pub crit_type: i64,
    pub kill_streak_total: i64,
    pub rocket_jump_victim: bool,
    pub attacker_class: String,
    pub attacker_team: String,
    pub victim_class: String,
    pub victim_team: String,
    pub state: StateEvidence,
}

impl StateEvidence {
    /// Nothing is known.
    pub open spec fn is_blank(&self) -> bool {
        &&& self.attacker.model() == RecordModel::empty()
        &&& self.victim.model() == RecordModel::empty()
        &&& self.friendly_alive_before == 0
        &&& self.enemy_alive_before == 0
        &&& self.friendly_state_roster == 0
        &&& self.enemy_state_roster == 0
        &&& self.friendly_medic_charge is None
        &&& self.enemy_medic_charge is None
        &&& self.recent_friendly_deaths == 0
        &&& self.recent_friendly_death_ticks@ == Seq::<i64>::empty()
        &&& self.player_disadvantage_before == 0
        &&& !self.enemy_uber_advantage_before
        &&& self.victim_next_respawn_tick is None
        &&& self.friendly_pending_respawn_ticks@ == Seq::<i64>::empty()
        &&& self.projectile is None
        &&& self.geometry is None
        &&& self.attacker_recent_shield_charge_tick is None
        &&& !self.confirmed_double_donk
        &&& !self.victim_airborne_before_projectile_impact
        &&& self.projectile_impact_check_tick is None
        &&& !self.confirmed_kritzkrieg_boost
        &&& !self.confirmed_uber_drop
        &&& self.enemy_medic_force_followups@ == Seq::<ForceFollowup>::empty()
    }
}

impl Default for StateEvidence {
    fn default() -> (out: Self)
        ensures
            out.is_blank(),
    {
        StateEvidence {
            attacker: Record::new(),
            victim: Record::new(),
            friendly_alive_before: 0,
            enemy_alive_before: 0,
            friendly_state_roster: 0,
            enemy_state_roster: 0,
            friendly_medic_charge: None,
            enemy_medic_charge: None,
            recent_friendly_deaths: 0,
            recent_friendly_death_ticks: Vec::new(),
            player_disadvantage_before: 0,
            enemy_uber_advantage_before: false,
            victim_next_respawn_tick: None,
            friendly_pending_respawn_ticks: Vec::new(),
            projectile: None,
            geometry: None,
            attacker_recent_shield_charge_tick: None,
            confirmed_double_donk: false,
            victim_airborne_before_projectile_impact: false,
            projectile_impact_check_tick: None,
            confirmed_kritzkrieg_boost: false,
            confirmed_uber_drop: false,
            enemy_medic_force_followups: Vec::new(),
        }
    }
}

impl Default for Death {
    fn default() -> (out: Self)
        ensures
            out.event_tick == 0,
            out.demo_tick == 0,
            out.packet_sequence == 0,
            out.event_index == 0,
            out.attacker == 0,
            out.victim == 0,
            out.assister == 0,
            out.round_index == 0,
            out.weapon@ == Seq::<char>::empty(),
            out.weapon_id == 0,
            out.weapon_def_index == 0,
            out.weapon_slot@ == Seq::<char>::empty(),
            out.custom_kill == 0,
            out.crit_type == 0,
            out.kill_streak_total == 0,
            !out.rocket_jump_victim,
            out.attacker_class@ == Seq::<char>::empty(),
            out.attacker_team@ == Seq::<char>::empty(),
            out.victim_class@ == Seq::<char>::empty(),
            out.victim_team@ == Seq::<char>::empty(),
            out.state.is_blank(),
    {
        Death {
            event_tick: 0,
            demo_tick: 0,
            packet_sequence: 0,
            event_index: 0,
            attacker: 0,
            victim: 0,
            assister: 0,
            round_index: 0,
            weapon: String::new(),
            weapon_id: 0,
            weapon_def_index: 0,
            weapon_slot: String::new(),
            custom_kill: 0,
            crit_type: 0,
            kill_streak_total: 0,
            rocket_jump_victim: false,
            attacker_class: String::new(),
            attacker_team: String::new(),
            victim_class: String::new(),
            victim_team: String::new(),
            state: StateEvidence::default(),
        }
    }
}

// ---------------------------------------------------------------------------
// The item schema
// ---------------------------------------------------------------------------

/// What the item schema says of an item.
#[derive(Debug)]
pub struct ItemInfo {
    pub index: i64,
    pub slot: String,
    pub log_name: String,
}

/// The last entry for an item.
pub open spec fn item_at(items: Seq<ItemInfo>, index: int) -> Option<int>
    decreases items.len(),
{
    if items.len() == 0 {
        None
    } else if items.last().index == index {
        Some(items.len() - 1)
    } else {
        item_at(items.drop_last(), index)
    }
}

/// The slot of an item; empty where the schema does not have it.
pub open spec fn item_slot(items: Seq<ItemInfo>, index: int) -> Seq<char> {
    match item_at(items, index) {
        Some(i) => items[i].slot@,
        None => Seq::empty(),
    }
}

/// The log name of an item; empty where the schema does not have it.
pub open spec fn item_log_name(items: Seq<ItemInfo>, index: int) -> Seq<char> {
    match item_at(items, index) {
        Some(i) => items[i].log_name@,
        None => Seq::empty(),
    }
}

fn find_item(items: &Vec<ItemInfo>, index: i64) -> (out: Option<usize>)
    ensures
        match out {
            Some(i) => i < items.len() && item_at(items@, index as int) == Some(i as int),
            None => item_at(items@, index as int) is None,
        },
{
    let mut i: usize = items.len();
    assert(items@.take(i as int) =~= items@);
    while i > 0
        invariant
            i <= items.len(),
            item_at(items@, index as int) == item_at(items@.take(i as int), index as int),
        decreases i,
    {
        proof {
            assert(items@.take(i as int).drop_last() =~= items@.take(i - 1));
            assert(items@.take(i as int).last() == items@[i - 1]);
        }
        if items[i - 1].index == index {
            return Some(i - 1);
        }
        i -= 1;
    }
    None
}

// ---------------------------------------------------------------------------
// Which kills count
// ---------------------------------------------------------------------------

/// Whether an event can set the class of a player.
pub open spec fn sets_class(event: EventRecord) -> bool {
    event.kind() == "player_changeclass"@ || event.kind() == "player_class"@ || event.kind()
        == "player_spawn"@
}

/// Whether an event can set the team of a player.
pub open spec fn sets_team(event: EventRecord) -> bool {
    event.kind() == "player_team"@ || event.kind() == "player_spawn"@
}

/// The class that a player was last given by the events; empty where none did.
pub open spec fn class_after(events: Seq<EventRecord>, user: i64) -> Seq<char>
    decreases events.len(),
{
    if events.len() == 0 {
        Seq::empty()
    } else {
        let event = events.last();
        let class = text_among(event.data(), "class"@, "class_name"@);
        if sets_class(event) && event.user() == user && user > 0 && class.len() > 0 {
            class_of(class)
        } else {
            class_after(events.drop_last(), user)
        }
    }
}

/// The team that a player was last given by the events; empty where none did.
pub open spec fn team_after(events: Seq<EventRecord>, user: i64) -> Seq<char>
    decreases events.len(),
{
    if events.len() == 0 {
        Seq::empty()
    } else {
        let event = events.last();
        let team = team_of(lookup(event.data(), "team"@));
        if sets_team(event) && event.user() == user && user > 0 && team.len() > 0 {
            team
        } else {
            team_after(events.drop_last(), user)
        }
    }
}

/// The first round that holds a tick.
pub open spec fn round_at(rounds: Seq<Round<Seq<char>>>, tick: i64) -> Option<int>
    decreases rounds.len(),
{
    if rounds.len() == 0 {
        None
    } else {
        match round_at(rounds.drop_last(), tick) {
            Some(i) => Some(i),
            None => if rounds.last().holds(tick) {
                Some(rounds.len() - 1)
            } else {
                None
            },
        }
    }
}

/// Whether an attacker is in the scope of the analysis.
pub open spec fn in_scope(context: DemoContext, attacker: int) -> bool {
    context.analysis_scope@ == "pov_player_only"@ ==> context.pov_player_user_id is Some
        && context.pov_player_user_id->0 == attacker
}

/// Whether the last of some events is a kill that counts: of another player, in
/// the scope of the analysis, during a round, and no second report.
pub open spec fn counts(
    events: Seq<EventRecord>,
    rounds: Seq<Round<Seq<char>>>,
    context: DemoContext,
) -> bool
    decreases events.len(), 1int,
{
    let event = events.last();
    let attacker = int_field(event.data(), "attacker"@);
    let victim = event.user();
    &&& events.len() > 0
    &&& event.kind() == "player_death"@
    &&& attacker > 0
    &&& victim > 0
    &&& attacker != victim
    &&& in_scope(context, attacker)
    &&& round_at(rounds, event.at()) is Some
    &&& match last_kill_of(events.drop_last(), rounds, context, victim) {
        Some(previous) => !(event.at() >= previous && event.at() - previous
            <= DUPLICATE_DEATH_TICKS),
        None => true,
    }
}

/// The tick of the last kill of a victim that counts, among some events.
pub open spec fn last_kill_of(
    events: Seq<EventRecord>,
    rounds: Seq<Round<Seq<char>>>,
    context: DemoContext,
    victim: int,
) -> Option<i64>
    decreases events.len(), 2int,
{
    if events.len() == 0 {
        None
    } else if events.last().user() == victim && counts(events, rounds, context) {
        Some(events.last().at())
    } else {
        last_kill_of(events.drop_last(), rounds, context, victim)
    }
}

/// The positions of the kills that count.
pub open spec fn counting_kills(
    events: Seq<EventRecord>,
    rounds: Seq<Round<Seq<char>>>,
    context: DemoContext,
) -> Seq<int>
    decreases events.len(),
{
    if events.len() == 0 {
        Seq::empty()
    } else {
        let before = counting_kills(events.drop_last(), rounds, context);
        if counts(events, rounds, context) {
            before.push(events.len() - 1)
        } else {
            before
        }
    }
}

/// Whether events are in the order of their ticks.
pub open spec fn in_time(events: Seq<EventRecord>) -> bool {
    forall|i: int, j: int|
        0 <= i < j < events.len() ==> (#[trigger] events[i]).at() <= (#[trigger] events[j]).at()
}

proof fn lemma_counted(events: Seq<EventRecord>, rounds: Seq<Round<Seq<char>>>, context: DemoContext)
    ensures
        forall|k: int|
            0 <= k < counting_kills(events, rounds, context).len() ==> 0 <= (
            #[trigger] counting_kills(events, rounds, context)[k]) < events.len() && counts(
                events.take(counting_kills(events, rounds, context)[k] + 1),
                rounds,
                context,
            ),
        forall|i: int, j: int|
            0 <= i < j < counting_kills(events, rounds, context).len() ==> (
            #[trigger] counting_kills(events, rounds, context)[i]) < (#[trigger] counting_kills(
                events,
                rounds,
                context,
            )[j]),
    decreases events.len(),
{
    if events.len() > 0 {
        let rest = events.drop_last();
        lemma_counted(rest, rounds, context);
        let before = counting_kills(rest, rounds, context);
        let all = counting_kills(events, rounds, context);
        assert forall|k: int| 0 <= k < all.len() implies 0 <= (#[trigger] all[k]) < events.len()
            && counts(events.take(all[k] + 1), rounds, context) by {
            if k < before.len() {
                assert(all[k] == before[k]);
                assert(rest.take(before[k] + 1) =~= events.take(before[k] + 1));
            } else {
                assert(events.take(events.len() as int) =~= events);
            }
        }
        assert forall|i: int, j: int| 0 <= i < j < all.len() implies (#[trigger] all[i]) < (
        #[trigger] all[j]) by {
            assert(all[i] == before[i]);
            if j < before.len() {
                assert(before[i] < before[j]);
            }
        }
    }
}

proof fn lemma_last_kill(
    events: Seq<EventRecord>,
    rounds: Seq<Round<Seq<char>>>,
    context: DemoContext,
    first: int,
    upto: int,
)
    requires
        in_time(events),
        0 <= first < upto <= events.len(),
        counts(events.take(first + 1), rounds, context),
    ensures
        last_kill_of(events.take(upto), rounds, context, events[first].user()) matches Some(tick)
            && events[first].at() <= tick <= events[upto - 1].at(),
    decreases upto,
{
    let seen = events.take(upto);
    assert(seen.last() == events[upto - 1]);
    assert(seen.drop_last() =~= events.take(upto - 1));
    if first < upto - 1 {
        assert(events[first].at() <= events[upto - 1].at());
        if !(seen.last().user() == events[first].user() && counts(seen, rounds, context)) {
            lemma_last_kill(events, rounds, context, first, upto - 1);
            if upto >= 2 {
                assert(events[upto - 2].at() <= events[upto - 1].at());
            }
        }
    }
}

/// A death that is reported again is counted once: of two kills of one victim that
/// count, the second comes later than such a report would.
pub proof fn law_no_death_counts_twice(
    events: Seq<EventRecord>,
    rounds: Seq<Round<Seq<char>>>,
    context: DemoContext,
    i: int,
    j: int,
)
    requires
        in_time(events),
        0 <= i < j < counting_kills(events, rounds, context).len(),
        events[counting_kills(events, rounds, context)[i]].user() == events[counting_kills(
            events,
            rounds,
            context,
        )[j]].user(),
    ensures
        events[counting_kills(events, rounds, context)[j]].at() - events[counting_kills(
            events,
            rounds,
            context,
        )[i]].at() > 133,
{
    lemma_counted(events, rounds, context);
    let first = counting_kills(events, rounds, context)[i];
    let second = counting_kills(events, rounds, context)[j];
    let seen = events.take(second + 1);
    assert(seen.last() == events[second]);
    assert(seen.drop_last() =~= events.take(second));
    lemma_last_kill(events, rounds, context, first, second);
    assert(events[second - 1].at() <= events[second].at());
}

/// The index of the item that made a kill.
pub open spec fn item_index(event: EventRecord) -> int {
    match crate::record::integer_of(lookup(event.data(), "weapon_def_index"@)) {
        Some(v) => v,
        None => int_among(event.data(), "weapon_defindex"@, "defindex"@),
    }
}

/// The weapon that made a kill: as the event names it, else as the schema does.
pub open spec fn weapon_of(event: EventRecord, items: Seq<ItemInfo>) -> Seq<char> {
    let named = lower(text_among(event.data(), "weapon"@, "weapon_logclassname"@));
    if named.len() > 0 {
        named
    } else {
        item_log_name(items, item_index(event))
    }
}

/// The slot of the weapon, given the event's own word for it in lower case.
pub open spec fn slot_of(named: Seq<char>, event: EventRecord, items: Seq<ItemInfo>) -> Seq<char> {
    if named.len() > 0 {
        named
    } else {
        item_slot(items, item_index(event))
    }
}

/// Whether a kill is told rightly from the last of some events.
pub open spec fn told_from(
    death: Death,
    events: Seq<EventRecord>,
    rounds: Seq<Round<Seq<char>>>,
    items: Seq<ItemInfo>,
) -> bool {
    let event = events.last();
    let before = events.drop_last();
    &&& death.event_tick == event.at()
    &&& death.demo_tick == (if event.demo_tick > 0 {
        event.demo_tick
    } else {
        event.tick
    })
    &&& death.packet_sequence == event.packet_sequence
    &&& death.event_index == event.event_index_in_packet
    &&& death.attacker == int_field(event.data(), "attacker"@)
    &&& death.victim == event.user()
    &&& death.assister == int_field(event.data(), "assister"@)
    &&& death.round_index == rounds[round_at(rounds, event.at())->0].index
    &&& death.weapon@ == weapon_of(event, items)
    &&& death.weapon_id == int_field(event.data(), "weapon_id"@)
    &&& death.weapon_def_index == item_index(event)
    &&& death.weapon_slot@ == slot_of(
        unicode_lower(text_field(event.data(), "weapon_slot"@)),
        event,
        items,
    )
    &&& death.custom_kill == int_among(event.data(), "custom_kill"@, "customkill"@)
    &&& death.crit_type == int_field(event.data(), "crit_type"@)
    &&& death.kill_streak_total == int_field(event.data(), "kill_streak_total"@)
    &&& death.rocket_jump_victim == (bool_of(lookup(event.data(), "rocket_jump"@)) == Some(true))
    &&& death.attacker_class@ == class_after(before, death.attacker)
    &&& death.attacker_team@ == team_after(before, death.attacker)
    &&& death.victim_class@ == class_after(before, death.victim)
    &&& death.victim_team@ == team_after(before, death.victim)
    &&& death.state.is_blank()
}

/// The number of a round that holds a tick; the first that does.
pub fn find_round(rounds: &Vec<Round<String>>, tick: i64) -> (out: Option<usize>)
    ensures
        match out {
            Some(i) => i < rounds.len() && round_at(round_models(rounds@), tick) == Some(i as int),
            None => round_at(round_models(rounds@), tick) is None,
        },
{
    let ghost models = round_models(rounds@);
    let mut i: usize = 0;
    while i < rounds.len()
        invariant
            i <= rounds.len(),
            models == round_models(rounds@),
            round_at(models.take(i as int), tick) is None,
        decreases rounds.len() - i,
    {
        proof {
            assert(models.take(i + 1).drop_last() =~= models.take(i as int));
            assert(models.take(i + 1).last() == rounds@[i as int].model());
        }
        if rounds[i].contains(tick) {
            proof {
                lemma_round_at_prefix(models, tick, i + 1);
            }
            return Some(i);
        }
        i += 1;
    }
    assert(models.take(rounds.len() as int) =~= models);
    None
}

/// The first round that holds a tick stays the first when more rounds follow.
proof fn lemma_round_at_prefix(rounds: Seq<Round<Seq<char>>>, tick: i64, n: int)
    requires
        0 <= n <= rounds.len(),
        round_at(rounds.take(n), tick) is Some,
    ensures
        round_at(rounds, tick) == round_at(rounds.take(n), tick),
    decreases rounds.len(),
{
    if n == rounds.len() {
        assert(rounds.take(n) =~= rounds);
    } else {
        assert(rounds.drop_last().take(n) =~= rounds.take(n));
        lemma_round_at_prefix(rounds.drop_last(), tick, n);
    }
}

fn event_sets_class(event: &EventRecord) -> (r: bool)
    ensures
        r == sets_class(*event),
{
    event.is("player_changeclass") || event.is("player_class") || event.is("player_spawn")
}

fn event_sets_team(event: &EventRecord) -> (r: bool)
    ensures
        r == sets_team(*event),
{
    event.is("player_team") || event.is("player_spawn")
}

/// The text noted for a player; empty where none is.
pub open spec fn held(map: Map<i64, String>, key: i64) -> Seq<char> {
    if map.contains_key(key) {
        map[key]@
    } else {
        Seq::empty()
    }
}

/// The tick noted for a player, if any.
pub open spec fn noted(map: Map<i64, i64>, key: i64) -> Option<i64> {
    if map.contains_key(key) {
        Some(map[key])
    } else {
        None
    }
}

fn text_in(map: &HashMap<i64, String>, key: i64) -> (out: String)
    ensures
        out@ == held(map@, key),
{
    broadcast use group_hash_axioms;

    match map.get(&key) {
        Some(text) => text.clone(),
        None => String::new(),
    }
}

fn attacker_in_scope(context: &DemoContext, attacker: i64) -> (r: bool)
    ensures
        r == in_scope(*context, attacker as int),
{
    if same_text(context.analysis_scope.as_str(), "pov_player_only") {
        match context.pov_player_user_id {
            Some(user) => user == attacker,
            None => false,
        }
    } else {
        true
    }
}

fn tell_death(
    event: &EventRecord,
    round_index: i64,
    items: &Vec<ItemInfo>,
    classes: &HashMap<i64, String>,
    teams: &HashMap<i64, String>,
) -> (out: Death)
    ensures
        out.event_tick == event.at(),
        out.demo_tick == (if event.demo_tick > 0 {
            event.demo_tick
        } else {
            event.tick
        }),
        out.packet_sequence == event.packet_sequence,
        out.event_index == event.event_index_in_packet,
        out.attacker == int_field(event.data(), "attacker"@),
        out.victim == event.user(),
        out.assister == int_field(event.data(), "assister"@),
        out.round_index == round_index,
        out.weapon@ == weapon_of(*event, items@),
        out.weapon_id == int_field(event.data(), "weapon_id"@),
        out.weapon_def_index == item_index(*event),
        out.weapon_slot@ == slot_of(
            unicode_lower(text_field(event.data(), "weapon_slot"@)),
            *event,
            items@,
        ),
        out.custom_kill == int_among(event.data(), "custom_kill"@, "customkill"@),
        out.crit_type == int_field(event.data(), "crit_type"@),
        out.kill_streak_total == int_field(event.data(), "kill_streak_total"@),
        out.rocket_jump_victim == (bool_of(lookup(event.data(), "rocket_jump"@)) == Some(true)),
        out.attacker_class@ == held(classes@, out.attacker),
        out.attacker_team@ == held(teams@, out.attacker),
        out.victim_class@ == held(classes@, out.victim),
        out.victim_team@ == held(teams@, out.victim),
        out.state.is_blank(),
{
    let attacker: i64 = event.number("attacker");
    let victim: i64 = event.user_id();
    let weapon_def_index: i64 = match event.event.integer("weapon_def_index") {
        Some(v) => v,
        None => event.number_of_either("weapon_defindex", "defindex"),
    };
    let item = find_item(items, weapon_def_index);
    let named_weapon = to_lower(
        event.text_of_either("weapon", "weapon_logclassname").as_str(),
    );
    let weapon = if !named_weapon.as_str().is_empty() {
        named_weapon
    } else {
        match item {
            Some(i) => items[i].log_name.clone(),
            None => String::new(),
        }
    };
    let named_slot = to_lowercase(event.text("weapon_slot").as_str());
    let weapon_slot = if !named_slot.as_str().is_empty() {
        named_slot
    } else {
        match item {
            Some(i) => items[i].slot.clone(),
            None => String::new(),
        }
    };
    Death {
        event_tick: event.analysis_tick(),
        demo_tick: if event.demo_tick > 0 {
            event.demo_tick
        } else {
            event.tick
        },
        packet_sequence: event.packet_sequence,
        event_index: event.event_index_in_packet,
        attacker,
        victim,
        assister: event.number("assister"),
        round_index,
        weapon,
        weapon_id: event.number("weapon_id"),
        weapon_def_index,
        weapon_slot,
        custom_kill: event.number_of_either("custom_kill", "customkill"),
        crit_type: event.number("crit_type"),
        kill_streak_total: event.number("kill_streak_total"),
        rocket_jump_victim: event.event.is_set("rocket_jump"),
        attacker_class: text_in(classes, attacker),
        attacker_team: text_in(teams, attacker),
        victim_class: text_in(classes, victim),
        victim_team: text_in(teams, victim),
        state: StateEvidence::default(),
    }
}

/// Whether a kill is told rightly from the event at a position below a bound.
pub open spec fn told_at(
    death: Death,
    at: int,
    events: Seq<EventRecord>,
    rounds: Seq<Round<Seq<char>>>,
    items: Seq<ItemInfo>,
    bound: int,
) -> bool {
    0 <= at < bound && told_from(death, events.take(at + 1), rounds, items)
}

/// Whether kills are told rightly, one for each of the positions.
pub open spec fn all_told(
    deaths: Seq<Death>,
    positions: Seq<int>,
    events: Seq<EventRecord>,
    rounds: Seq<Round<Seq<char>>>,
    items: Seq<ItemInfo>,
    bound: int,
) -> bool {
    &&& deaths.len() == positions.len()
    &&& forall|k: int|
        0 <= k < deaths.len() ==> told_at(
            #[trigger] deaths[k],
            positions[k],
            events,
            rounds,
            items,
            bound,
        )
}

/// The kills of a match that count, in the order of the events.
pub fn normalized_deaths(
    events: &Vec<EventRecord>,
    rounds: &Vec<Round<String>>,
    context: &DemoContext,
    items: &Vec<ItemInfo>,
) -> (out: Vec<Death>)
    ensures
        all_told(
            out@,
            counting_kills(events@, round_models(rounds@), *context),
            events@,
            round_models(rounds@),
            items@,
            events.len() as int,
        ),
{
    broadcast use group_hash_axioms;

    let ghost models = round_models(rounds@);
    let mut classes: HashMap<i64, String> = HashMap::new();
    let mut teams: HashMap<i64, String> = HashMap::new();
    let mut last_by_victim: HashMap<i64, i64> = HashMap::new();
    let mut out: Vec<Death> = Vec::new();
    let mut i: usize = 0;
    while i < events.len()
        invariant
            i <= events.len(),
            models == round_models(rounds@),
            forall|u: i64|
                class_after(events@.take(i as int), u) == #[trigger] held(classes@, u),
            forall|u: i64|
                team_after(events@.take(i as int), u) == #[trigger] held(teams@, u),
            forall|u: i64|
                last_kill_of(events@.take(i as int), models, *context, u as int)
                    == #[trigger] noted(last_by_victim@, u),
            all_told(
                out@,
                counting_kills(events@.take(i as int), models, *context),
                events@,
                models,
                items@,
                i as int,
            ),
        decreases events.len() - i,
    {
        let event = &events[i];
        let ghost now = events@.take(i as int);
        let ghost next = events@.take(i + 1);
        proof {
            assert(next.drop_last() =~= now);
            assert(next.last() == events@[i as int]);
        }
        let ghost old_classes = classes@;
        let ghost old_teams = teams@;
        if event_sets_class(event) {
            let user: i64 = event.user_id();
            let class = event.text_of_either("class", "class_name");
            if user > 0 && !class.as_str().is_empty() {
                classes.insert(user, canonical_class(class.as_str()));
            }
        }
        proof {
            assert forall|u: i64| class_after(next, u) == #[trigger] held(classes@, u) by {
                assert(class_after(now, u) == held(old_classes, u));
            }
        }
        if event_sets_team(event) {
            let user: i64 = event.user_id();
            let team = canonical_team_value(&event.event, "team");
            if user > 0 && !team.as_str().is_empty() {
                teams.insert(user, team);
            }
        }
        proof {
            assert forall|u: i64| team_after(next, u) == #[trigger] held(teams@, u) by {
                assert(team_after(now, u) == held(old_teams, u));
            }
        }
        let mut accepted: Option<usize> = None;
        let tick: i64 = event.analysis_tick();
        let victim: i64 = event.user_id();
        if event.is("player_death") {
            let attacker: i64 = event.number("attacker");
            if attacker > 0 && victim > 0 && attacker != victim && attacker_in_scope(
                context,
                attacker,
            ) {
                if let Some(round) = find_round(rounds, tick) {
                    let repeated = match last_by_victim.get(&victim) {
                        Some(previous) => tick >= *previous && tick as i128 - *previous as i128
                            <= DUPLICATE_DEATH_TICKS as i128,
                        None => false,
                    };
                    if !repeated {
                        accepted = Some(round);
                    }
                }
            }
        }
        let ghost before_victims = last_by_victim@;
        proof {
            assert(last_kill_of(now, models, *context, victim as int) == noted(last_by_victim@, victim));
            assert(accepted is Some <==> counts(next, models, *context));
        }
        let ghost before_out = out@;
        if let Some(round) = accepted {
            assert(classes@ == old_classes && teams@ == old_teams) by {
                reveal_strlit("player_death");
                reveal_strlit("player_changeclass");
                reveal_strlit("player_class");
                reveal_strlit("player_spawn");
                reveal_strlit("player_team");
                assert("player_death"@.len() == 12);
                assert("player_class"@.len() == 12 && "player_class"@[7] != "player_death"@[7]);
                assert("player_spawn"@.len() == 12 && "player_spawn"@[7] != "player_death"@[7]);
                assert("player_changeclass"@.len() != 12);
                assert("player_team"@.len() != 12);
            }
            last_by_victim.insert(victim, tick);
            let death = tell_death(event, rounds[round].index, items, &classes, &teams);
            proof {
                assert(models[round as int].index == rounds@[round as int].index);
                assert(class_after(now, death.attacker) == death.attacker_class@);
                assert(class_after(now, death.victim) == death.victim_class@);
                assert(team_after(now, death.attacker) == death.attacker_team@);
                assert(team_after(now, death.victim) == death.victim_team@);
                assert(told_from(death, next, models, items@));
            }
            out.push(death);
        }
        proof {
            assert forall|u: i64| last_kill_of(next, models, *context, u as int) == #[trigger] noted(last_by_victim@, u) by {
                assert(last_kill_of(now, models, *context, u as int) == noted(before_victims, u));
            }
            let earlier = counting_kills(now, models, *context);
            let later = counting_kills(next, models, *context);
            assert forall|k: int| 0 <= k < out.len() implies told_at(
                #[trigger] out@[k],
                later[k],
                events@,
                models,
                items@,
                i + 1,
            ) by {
                if k < before_out.len() {
                    assert(told_at(before_out[k], earlier[k], events@, models, items@, i as int));
                } else {
                    assert(later[k] == i);
                }
            }
        }
        i += 1;
    }
    assert(events@.take(events.len() as int) =~= events@);
    out
}

proof fn lemma_round_at(rounds: Seq<Round<Seq<char>>>, tick: i64)
    ensures
        round_at(rounds, tick) is Some <==> exists|r: int|
            0 <= r < rounds.len() && (#[trigger] rounds[r]).start <= tick < rounds[r].end,
        round_at(rounds, tick) matches Some(r) ==> 0 <= r < rounds.len() && rounds[r].start <= tick
            < rounds[r].end,
    decreases rounds.len(),
{
    if rounds.len() > 0 {
        let rest = rounds.drop_last();
        let last = rounds.len() - 1;
        lemma_round_at(rest, tick);
        assert(rounds[last] == rounds.last());
        if exists|r: int| 0 <= r < rest.len() && (#[trigger] rest[r]).start <= tick < rest[r].end {
            let r = choose|r: int|
                0 <= r < rest.len() && (#[trigger] rest[r]).start <= tick < rest[r].end;
            assert(rounds[r] == rest[r]);
        }
        if exists|r: int| 0 <= r < rounds.len() && (#[trigger] rounds[r]).start <= tick
            < rounds[r].end {
            let r = choose|r: int|
                0 <= r < rounds.len() && (#[trigger] rounds[r]).start <= tick < rounds[r].end;
            if r < last {
                assert(rest[r] == rounds[r]);
            }
        }
        if let Some(r) = round_at(rest, tick) {
            assert(rounds[r] == rest[r]);
        }
    }
}

/// Whether an event tells that one player killed another during live play, of those who
/// are looked at.
pub open spec fn tells_kill(
    event: EventRecord,
    rounds: Seq<Round<Seq<char>>>,
    context: DemoContext,
) -> bool {
    let attacker = int_field(event.data(), "attacker"@);
    &&& event.kind() == "player_death"@
    &&& attacker > 0
    &&& event.user() > 0
    &&& attacker != event.user()
    &&& context.analysis_scope@ == "pov_player_only"@ ==> (
    context.pov_player_user_id matches Some(user) && user == attacker)
    &&& exists|r: int|
        0 <= r < rounds.len() && (#[trigger] rounds[r]).start <= event.at() < rounds[r].end
}

proof fn lemma_last_kill_is_one(
    events: Seq<EventRecord>,
    rounds: Seq<Round<Seq<char>>>,
    context: DemoContext,
    victim: int,
)
    ensures
        last_kill_of(events, rounds, context, victim) matches Some(tick) ==> exists|j: int|
            0 <= j < events.len() && (#[trigger] events[j]).kind() == "player_death"@
                && events[j].user() == victim && events[j].at() == tick,
    decreases events.len(),
{
    if events.len() > 0 {
        let rest = events.drop_last();
        let last = events.len() - 1;
        assert(events[last] == events.last());
        if !(events.last().user() == victim && counts(events, rounds, context)) {
            lemma_last_kill_is_one(rest, rounds, context, victim);
            if let Some(tick) = last_kill_of(rest, rounds, context, victim) {
                let j = choose|j: int|
                    0 <= j < rest.len() && (#[trigger] rest[j]).kind() == "player_death"@
                        && rest[j].user() == victim && rest[j].at() == tick;
                assert(events[j] == rest[j]);
            }
        }
    }
}

/// Every kill of a player who did not die in the two seconds before counts; what counts
/// is a kill of one player by another during live play.
pub proof fn law_every_fresh_kill_counts(
    events: Seq<EventRecord>,
    rounds: Seq<Round<Seq<char>>>,
    context: DemoContext,
    i: int,
)
    requires
        0 <= i < events.len(),
    ensures
        tells_kill(events[i], rounds, context) && (forall|j: int|
            0 <= j < i && (#[trigger] events[j]).kind() == "player_death"@ && events[j].user()
                == events[i].user() ==> !(0 <= events[i].at() - events[j].at() <= 133))
            ==> counting_kills(events, rounds, context).contains(i),
        counting_kills(events, rounds, context).contains(i) ==> tells_kill(
            events[i],
            rounds,
            context,
        ),
    decreases events.len(),
{
    let rest = events.drop_last();
    let known = counting_kills(rest, rounds, context);
    let all = counting_kills(events, rounds, context);
    let event = events.last();
    let last = events.len() - 1;
    lemma_counted(rest, rounds, context);
    if i < last {
        law_every_fresh_kill_counts(rest, rounds, context, i);
        assert(rest[i] == events[i]);
        assert forall|j: int| 0 <= j < i implies #[trigger] events[j] == rest[j] by {
        }
        if known.contains(i) {
            let k = choose|k: int| 0 <= k < known.len() && known[k] == i;
            assert(all[k] == i);
        }
        if all.contains(i) {
            let k = choose|k: int| 0 <= k < all.len() && all[k] == i;
            assert(known[k] == i);
        }
    } else {
        lemma_round_at(rounds, event.at());
        lemma_last_kill_is_one(rest, rounds, context, event.user());
        if let Some(tick) = last_kill_of(rest, rounds, context, event.user()) {
            let j = choose|j: int|
                0 <= j < rest.len() && (#[trigger] rest[j]).kind() == "player_death"@
                    && rest[j].user() == event.user() && rest[j].at() == tick;
            assert(events[j] == rest[j]);
        }
        if counts(events, rounds, context) {
            assert(all[all.len() - 1] == i);
        }
        if all.contains(i) {
            let k = choose|k: int| 0 <= k < all.len() && all[k] == i;
            assert(k < known.len() ==> known[k] < last);
        }
    }
}

/// The class of a player is the one that the last event told which sets it; events of
/// other players and of other kinds change nothing.
pub proof fn law_last_class_and_team_are_known(
    events: Seq<EventRecord>,
    event: EventRecord,
    user: i64,
)
    requires
        user > 0,
    ensures
        ({
            let class = text_among(event.data(), "class"@, "class_name"@);
            let team = team_of(lookup(event.data(), "team"@));
            let sets = event.kind() == "player_changeclass"@ || event.kind() == "player_class"@
                || event.kind() == "player_spawn"@;
            let moves = event.kind() == "player_team"@ || event.kind() == "player_spawn"@;
            &&& class_after(events.push(event), user) == (if event.user() == user && sets
                && class.len() > 0 {
                class_of(class)
            } else {
                class_after(events, user)
            })
            &&& team_after(events.push(event), user) == (if event.user() == user && moves
                && team.len() > 0 {
                team
            } else {
                team_after(events, user)
            })
        }),
{
    assert(events.push(event).drop_last() =~= events);
}

} // verus!

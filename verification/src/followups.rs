//! What else happened in a match: buildings destroyed and objectives taken.
use std::collections::HashMap;
use vstd::prelude::*;
use vstd::std_specs::hash::*;
use crate::deaths::{find_round, noted, round_at, sets_team};
use crate::events::{int_among, int_field, text_among, EventRecord};
use crate::record::{lookup, shown_of, RecordModel};
use crate::rounds::{round_models, Round};
use crate::sequence::{BuildingEvent, ObjectiveEvent};
use crate::text::{lower, same_text, to_lower};

verus! {

// ---------------------------------------------------------------------------
// Buildings
// ---------------------------------------------------------------------------

/// A building that was destroyed: when, by whom and what it was.
pub struct BuildingModel {
    pub tick: i64,
    pub attacker: int,
    pub object_type: Seq<char>,
}

impl BuildingEvent {
    /// The event with its texts as sequences.
    pub open spec fn model(&self) -> BuildingModel {
        BuildingModel {
            tick: self.tick,
            attacker: self.attacker as int,
            object_type: self.object_type@,
        }
    }
}

/// The events that a list holds.
pub open spec fn building_models(list: Seq<BuildingEvent>) -> Seq<BuildingModel> {
    Seq::new(list.len(), |i: int| list[i].model())
}

/// Whether an event tells that a building was destroyed.
pub open spec fn destroys(kind: Seq<char>) -> bool {
    kind == "object_destroyed"@ || kind == "building_destroyed"@ || kind == "building_destruction"@
}

/// What kind of building an event names.
pub open spec fn object_named(record: RecordModel) -> Seq<char> {
    match shown_of(lookup(record, "objecttype"@)) {
        Some(text) => text,
        None => text_among(record, "object_type"@, "object"@),
    }
}

/// The buildings destroyed during live play.
pub open spec fn buildings_of(
    events: Seq<EventRecord>,
    rounds: Seq<Round<Seq<char>>>,
) -> Seq<BuildingModel>
    decreases events.len(),
{
    if events.len() == 0 {
        Seq::empty()
    } else {
        let before = buildings_of(events.drop_last(), rounds);
        let event = events.last();
        if destroys(event.kind()) && round_at(rounds, event.at()) is Some {
            before.push(
                BuildingModel {
                    tick: event.at(),
                    attacker: int_among(event.data(), "attacker"@, "attacker_user_id"@),
                    object_type: lower(object_named(event.data())),
                },
            )
        } else {
            before
        }
    }
}

/// The buildings destroyed during live play.
pub fn normalized_buildings(
    events: &Vec<EventRecord>,
    rounds: &Vec<Round<String>>,
) -> (out: Vec<BuildingEvent>)
    ensures
        building_models(out@) == buildings_of(events@, round_models(rounds@)),
{
    let ghost models = round_models(rounds@);
    let mut out: Vec<BuildingEvent> = Vec::new();
    let mut i: usize = 0;
    assert(building_models(out@) =~= buildings_of(events@.take(0), models));
    while i < events.len()
        invariant
            i <= events.len(),
            models == round_models(rounds@),
            building_models(out@) == buildings_of(events@.take(i as int), models),
        decreases events.len() - i,
    {
        proof {
            assert(events@.take(i + 1).drop_last() =~= events@.take(i as int));
            assert(events@.take(i + 1).last() == events@[i as int]);
        }
        let event = &events[i];
        let tick: i64 = event.analysis_tick();
        if (event.is("object_destroyed") || event.is("building_destroyed") || event.is(
            "building_destruction",
        )) && find_round(rounds, tick).is_some() {
            let named = match event.event.shown("objecttype") {
                Some(text) => text,
                None => event.text_of_either("object_type", "object"),
            };
            let building = BuildingEvent {
                tick,
                attacker: event.number_of_either("attacker", "attacker_user_id"),
                object_type: to_lower(named.as_str()),
            };
            let ghost before = out@;
            out.push(building);
            assert(building_models(out@) =~= building_models(before).push(building.model()));
        }
        i += 1;
    }
    assert(events@.take(events.len() as int) =~= events@);
    out
}

// ---------------------------------------------------------------------------
// Objectives
// ---------------------------------------------------------------------------

/// Something done for the objective of the map.
pub struct ObjectiveModel {
    pub tick: i64,
    pub team: int,
    pub actor: int,
    pub kind: Seq<char>,
    pub data: RecordModel,
}

impl ObjectiveEvent {
    /// The event with its texts as sequences.
    pub open spec fn model(&self) -> ObjectiveModel {
        ObjectiveModel {
            tick: self.tick,
            team: self.team as int,
            actor: self.actor_user_id as int,
            kind: self.kind@,
            data: self.data.model(),
        }
    }
}

/// The events that a list holds.
pub open spec fn objective_models(list: Seq<ObjectiveEvent>) -> Seq<ObjectiveModel> {
    Seq::new(list.len(), |i: int| list[i].model())
}

/// What kind of objective an event is about, if any.
pub open spec fn objective_kind(kind: Seq<char>) -> Option<Seq<char>> {
    if kind == "teamplay_point_captured"@ {
        Some("point_capture"@)
    } else if kind == "payload_pushed"@ {
        Some("payload_progress"@)
    } else if kind == "teamplay_capture_blocked"@ {
        Some("capture_denial"@)
    } else {
        None
    }
}

/// The number of the team that a player was last given; zero where none was.
pub open spec fn team_number_after(events: Seq<EventRecord>, user: int) -> int
    decreases events.len(),
{
    if events.len() == 0 {
        0
    } else {
        let event = events.last();
        let team = int_field(event.data(), "team"@);
        if sets_team(event) && event.user() == user && user > 0 && (team == 2 || team == 3) {
            team
        } else {
            team_number_after(events.drop_last(), user)
        }
    }
}

/// Who did something for an objective; zero where no player is named.
pub open spec fn actor_of(kind: Seq<char>, record: RecordModel) -> int {
    if kind == "payload_progress"@ {
        int_field(record, "pusher"@)
    } else if kind == "capture_denial"@ {
        int_field(record, "blocker"@)
    } else {
        0
    }
}

/// What the last of some events did for an objective of a kind.
pub open spec fn objective_told(events: Seq<EventRecord>, kind: Seq<char>) -> ObjectiveModel {
    let event = events.last();
    let actor = actor_of(kind, event.data());
    ObjectiveModel {
        tick: event.at(),
        team: if actor > 0 {
            team_number_after(events, actor)
        } else {
            int_among(event.data(), "team"@, "team_id"@)
        },
        actor,
        kind,
        data: event.data(),
    }
}

/// What was done for objectives during live play.
pub open spec fn objectives_of(
    events: Seq<EventRecord>,
    rounds: Seq<Round<Seq<char>>>,
) -> Seq<ObjectiveModel>
    decreases events.len(),
{
    if events.len() == 0 {
        Seq::empty()
    } else {
        let before = objectives_of(events.drop_last(), rounds);
        let event = events.last();
        match objective_kind(event.kind()) {
            Some(kind) if round_at(rounds, event.at()) is Some => before.push(
                objective_told(events, kind),
            ),
            _ => before,
        }
    }
}

/// The number noted for a player; zero where none is.
pub open spec fn team_noted(map: Map<i64, i64>, user: i64) -> int {
    match noted(map, user) {
        Some(team) => team as int,
        None => 0,
    }
}

fn find_kind(event: &EventRecord) -> (out: Option<&'static str>)
    ensures
        match out {
            Some(kind) => objective_kind(event.kind()) == Some(kind@),
            None => objective_kind(event.kind()) is None,
        },
{
    if event.is("teamplay_point_captured") {
        Some("point_capture")
    } else if event.is("payload_pushed") {
        Some("payload_progress")
    } else if event.is("teamplay_capture_blocked") {
        Some("capture_denial")
    } else {
        None
    }
}

fn find_actor(kind: &str, event: &EventRecord) -> (out: i64)
    ensures
        out == actor_of(kind@, event.data()),
{
    if same_text(kind, "payload_progress") {
        event.number("pusher")
    } else if same_text(kind, "capture_denial") {
        event.number("blocker")
    } else {
        0
    }
}

/// What was done for objectives during live play.
pub fn normalized_objectives(
    events: &Vec<EventRecord>,
    rounds: &Vec<Round<String>>,
) -> (out: Vec<ObjectiveEvent>)
    ensures
        objective_models(out@) == objectives_of(events@, round_models(rounds@)),
{
    broadcast use group_hash_axioms;

    let ghost models = round_models(rounds@);
    let mut teams: HashMap<i64, i64> = HashMap::new();
    let mut out: Vec<ObjectiveEvent> = Vec::new();
    let mut i: usize = 0;
    assert(objective_models(out@) =~= objectives_of(events@.take(0), models));
    while i < events.len()
        invariant
            i <= events.len(),
            models == round_models(rounds@),
            forall|u: i64|
                team_number_after(events@.take(i as int), u as int) == #[trigger] team_noted(
                    teams@,
                    u,
                ),
            objective_models(out@) == objectives_of(events@.take(i as int), models),
        decreases events.len() - i,
    {
        let ghost now = events@.take(i + 1);
        proof {
            assert(now.drop_last() =~= events@.take(i as int));
            assert(now.last() == events@[i as int]);
        }
        let event = &events[i];
        let ghost before_teams = teams@;
        if event.is("player_team") || event.is("player_spawn") {
            let user: i64 = event.user_id();
            let team: i64 = event.number("team");
            if user > 0 && (team == 2 || team == 3) {
                teams.insert(user, team);
            }
        }
        assert forall|u: i64|
            team_number_after(now, u as int) == #[trigger] team_noted(teams@, u) by {
            assert(team_number_after(events@.take(i as int), u as int) == team_noted(
                before_teams,
                u,
            ));
        }
        let tick: i64 = event.analysis_tick();
        if let Some(kind) = find_kind(event) {
            if find_round(rounds, tick).is_some() {
                let actor: i64 = find_actor(kind, event);
                let team: i64 = if actor > 0 {
                    assert(team_noted(teams@, actor) == team_number_after(now, actor as int));
                    match teams.get(&actor) {
                        Some(team) => *team,
                        None => 0,
                    }
                } else {
                    event.number_of_either("team", "team_id")
                };
                let objective = ObjectiveEvent {
                    tick,
                    team,
                    actor_user_id: actor,
                    kind: kind.to_owned(),
                    data: event.event.copy(),
                };
                assert(objective.model() == objective_told(now, kind@));
                let ghost before = out@;
                out.push(objective);
                assert(objective_models(out@) =~= objective_models(before).push(objective.model()));
            }
        }
        i += 1;
    }
    assert(events@.take(events.len() as int) =~= events@);
    out
}

/// A building counts as destroyed where an event of live play says so, under one of three
/// names; what was told before stays.
pub proof fn law_destroyed_buildings_are_told(
    events: Seq<EventRecord>,
    event: EventRecord,
    rounds: Seq<Round<Seq<char>>>,
)
    ensures
        ({
            let known = buildings_of(events, rounds);
            let all = buildings_of(events.push(event), rounds);
            let told = event.kind() == "object_destroyed"@ || event.kind()
                == "building_destroyed"@ || event.kind() == "building_destruction"@;
            let live = round_at(rounds, event.at()) is Some;
            &&& !(told && live) ==> all == known
            &&& told && live ==> all.len() == known.len() + 1 && all.drop_last() == known
                && all.last().tick == event.at() && all.last().attacker == int_among(
                event.data(),
                "attacker"@,
                "attacker_user_id"@,
            )
        }),
{
    assert(events.push(event).drop_last() =~= events);
    let known = buildings_of(events, rounds);
    let all = buildings_of(events.push(event), rounds);
    if all.len() > known.len() {
        assert(all.drop_last() =~= known);
    }
}

/// A captured point, a blocked capture and a push of the payload are told where they
/// happen in live play, for the team of the player who did it where one is named.
pub proof fn law_objectives_are_told(
    events: Seq<EventRecord>,
    event: EventRecord,
    rounds: Seq<Round<Seq<char>>>,
)
    ensures
        ({
            let known = objectives_of(events, rounds);
            let all = objectives_of(events.push(event), rounds);
            let live = round_at(rounds, event.at()) is Some;
            let captured = event.kind() == "teamplay_point_captured"@;
            let blocked = event.kind() == "teamplay_capture_blocked"@;
            let pushed = event.kind() == "payload_pushed"@;
            &&& !(captured || blocked || pushed) || !live ==> all == known
            &&& (captured || blocked || pushed) && live ==> all.len() == known.len() + 1
                && all.drop_last() == known && all.last().tick == event.at()
            &&& captured && live ==> all.last().kind == "point_capture"@ && all.last().actor == 0
                && all.last().team == int_among(event.data(), "team"@, "team_id"@)
            &&& blocked && live ==> all.last().kind == "capture_denial"@ && all.last().actor
                == int_field(event.data(), "blocker"@)
            &&& pushed && live ==> all.last().kind == "payload_progress"@ && all.last().actor
                == int_field(event.data(), "pusher"@)
            &&& (blocked || pushed) && live && all.last().actor > 0 ==> all.last().team
                == team_number_after(events.push(event), all.last().actor)
        }),
{
    assert(events.push(event).drop_last() =~= events);
    let known = objectives_of(events, rounds);
    let all = objectives_of(events.push(event), rounds);
    if all.len() > known.len() {
        assert(all.drop_last() =~= known);
    }
    reveal_strlit("teamplay_point_captured");
    reveal_strlit("teamplay_capture_blocked");
    reveal_strlit("payload_pushed");
    reveal_strlit("point_capture");
    reveal_strlit("capture_denial");
    reveal_strlit("payload_progress");
    assert("teamplay_point_captured"@.len() == 23 && "teamplay_capture_blocked"@.len() == 24
        && "payload_pushed"@.len() == 14 && "point_capture"@.len() == 13
        && "capture_denial"@.len() == 14 && "payload_progress"@.len() == 16);
}

} // verus!

//! The state of players and projectiles over the course of a demo, and what of
//! it is kept for the analysis.
use std::collections::HashMap;
use vstd::prelude::*;
use vstd::std_specs::hash::*;
use crate::deaths::Death;
use crate::events::{canonical_class, canonical_team_value, class_of, int_field, team_of};
use crate::keyed::{
    entries, entry_of, find_key, find_value, law_entry_found, remove_key, sample_models, with_entry,
    without_entry, Keyed, Sample,
};
use crate::modes::{ClassCount, RosterSample};
use crate::order::{insert_number, rising};
use crate::record::{
    int_value, lookup, merged, selected, text_of, whole_of, with_field, Record, RecordModel, Scalar,
    ValueModel,
};
use crate::rounds::{round_models, Round};
use crate::text::{same_text, views};

verus! {

/// One report of the state stream: what changed at a tick.
#[derive(Debug)]
pub struct StateRecord {
    pub server_tick: Option<i64>,
    pub demo_tick: Option<i64>,
    pub players: Vec<Record>,
    pub removed_players: Vec<i64>,
    pub projectiles: Vec<Record>,
    pub removed_projectiles: Vec<i64>,
}

impl StateRecord {
    /// The tick of the report.
    pub open spec fn at(&self) -> i64 {
        match self.server_tick {
            Some(tick) => tick,
            None => match self.demo_tick {
                Some(tick) => tick,
                None => 0,
            },
        }
    }

    fn tick(&self) -> (out: i64)
        ensures
            out == self.at(),
    {
        match self.server_tick {
            Some(tick) => tick,
            None => match self.demo_tick {
                Some(tick) => tick,
                None => 0,
            },
        }
    }
}

/// The states of the players just before the kills at a tick: in full of those
/// who killed or were killed, and what matters of all.
#[derive(Debug)]
pub struct Snapshot {
    pub tick: i64,
    pub selected: Vec<Keyed<Record>>,
    pub all: Vec<Keyed<Record>>,
}

/// What a snapshot holds.
pub struct SnapshotModel {
    pub tick: i64,
    pub selected: Seq<(i64, RecordModel)>,
    pub all: Seq<(i64, RecordModel)>,
}

impl Snapshot {
    /// What the snapshot holds.
    pub open spec fn model(&self) -> SnapshotModel {
        SnapshotModel {
            tick: self.tick,
            selected: entries(self.selected@),
            all: entries(self.all@),
        }
    }
}

/// What snapshots hold.
pub open spec fn snapshot_models(list: Seq<Snapshot>) -> Seq<SnapshotModel> {
    Seq::new(list.len(), |i: int| list[i].model())
}

/// The classes of two teams at a tick.
pub struct RosterModel {
    pub tick: i64,
    pub red: Seq<(Seq<char>, int)>,
    pub blu: Seq<(Seq<char>, int)>,
}

/// The classes that a list counts.
pub open spec fn class_counts(list: Seq<ClassCount>) -> Seq<(Seq<char>, int)> {
    Seq::new(list.len(), |i: int| (list[i].class@, list[i].count as int))
}

/// The classes that a team counts; none where the team was not seen.
pub open spec fn team_counts(team: Option<Vec<ClassCount>>) -> Seq<(Seq<char>, int)> {
    match team {
        Some(list) => class_counts(list@),
        None => Seq::empty(),
    }
}

impl RosterSample {
    /// The classes of the teams.
    pub open spec fn model(&self) -> RosterModel {
        RosterModel { tick: self.tick, red: team_counts(self.red), blu: team_counts(self.blu) }
    }

    /// A team that was seen has players.
    pub open spec fn wf(&self) -> bool {
        &&& self.red matches Some(list) ==> list.len() > 0
        &&& self.blu matches Some(list) ==> list.len() > 0
    }
}

/// What samples of rosters hold.
pub open spec fn roster_models(list: Seq<RosterSample>) -> Seq<RosterModel> {
    Seq::new(list.len(), |i: int| list[i].model())
}

/// What was kept of a demo's states.
#[derive(Debug)]
pub struct StateScan {
    pub snapshots: Vec<Snapshot>,
    pub roster_samples: Vec<RosterSample>,
    pub projectile_tracks: Vec<Keyed<Vec<Sample>>>,
    pub projectile_removals: Vec<Keyed<Vec<i64>>>,
    pub player_history: Vec<Keyed<Vec<Sample>>>,
}

// ---------------------------------------------------------------------------
// The plan
// ---------------------------------------------------------------------------

/// The users to look at just before the kills at a tick.
#[derive(Debug)]
pub struct PlannedSnapshot {
    pub tick: i64,
    pub users: Vec<i64>,
}

/// What a plan holds.
pub open spec fn plan_models(plan: Seq<PlannedSnapshot>) -> Seq<(i64, Seq<i64>)> {
    Seq::new(plan.len(), |i: int| (plan[i].tick, plan[i].users@))
}

/// The ticks of kills.
pub open spec fn kill_ticks(deaths: Seq<Death>) -> Set<i64>
    decreases deaths.len(),
{
    if deaths.len() == 0 {
        Set::empty()
    } else {
        kill_ticks(deaths.drop_last()).insert(deaths.last().event_tick)
    }
}

/// Who killed or was killed at a tick.
pub open spec fn users_at(deaths: Seq<Death>, tick: i64) -> Set<i64>
    decreases deaths.len(),
{
    if deaths.len() == 0 {
        Set::empty()
    } else {
        let before = users_at(deaths.drop_last(), tick);
        if deaths.last().event_tick == tick {
            before.insert(deaths.last().attacker).insert(deaths.last().victim)
        } else {
            before
        }
    }
}

/// The ticks of planned snapshots.
pub open spec fn planned_ticks(plan: Seq<(i64, Seq<i64>)>) -> Seq<i64> {
    Seq::new(plan.len(), |i: int| plan[i].0)
}

/// Whether a snapshot is planned for each tick with kills, in order, of those who
/// killed or were killed then.
pub open spec fn plans_for(plan: Seq<(i64, Seq<i64>)>, deaths: Seq<Death>) -> bool {
    &&& rising(planned_ticks(plan))
    &&& planned_ticks(plan).to_set() == kill_ticks(deaths)
    &&& forall|i: int|
        0 <= i < plan.len() ==> rising((#[trigger] plan[i]).1) && plan[i].1.to_set() == users_at(
            deaths,
            plan[i].0,
        )
}

fn users_of(deaths: &Vec<Death>, tick: i64) -> (out: Vec<i64>)
    ensures
        rising(out@),
        out@.to_set() == users_at(deaths@, tick),
{
    let mut out: Vec<i64> = Vec::new();
    let mut i: usize = 0;
    assert(out@.to_set() =~= Set::empty());
    while i < deaths.len()
        invariant
            i <= deaths.len(),
            rising(out@),
            out@.to_set() == users_at(deaths@.take(i as int), tick),
        decreases deaths.len() - i,
    {
        proof {
            assert(deaths@.take(i + 1).drop_last() =~= deaths@.take(i as int));
            assert(deaths@.take(i + 1).last() == deaths@[i as int]);
        }
        if deaths[i].event_tick == tick {
            insert_number(&mut out, deaths[i].attacker);
            insert_number(&mut out, deaths[i].victim);
        }
        i += 1;
    }
    assert(deaths@.take(deaths.len() as int) =~= deaths@);
    out
}

fn plan_snapshots(deaths: &Vec<Death>) -> (out: Vec<PlannedSnapshot>)
    ensures
        plans_for(plan_models(out@), deaths@),
{
    let mut ticks: Vec<i64> = Vec::new();
    let mut i: usize = 0;
    assert(ticks@.to_set() =~= Set::empty());
    while i < deaths.len()
        invariant
            i <= deaths.len(),
            rising(ticks@),
            ticks@.to_set() == kill_ticks(deaths@.take(i as int)),
        decreases deaths.len() - i,
    {
        proof {
            assert(deaths@.take(i + 1).drop_last() =~= deaths@.take(i as int));
            assert(deaths@.take(i + 1).last() == deaths@[i as int]);
        }
        insert_number(&mut ticks, deaths[i].event_tick);
        i += 1;
    }
    assert(deaths@.take(deaths.len() as int) =~= deaths@);
    let mut out: Vec<PlannedSnapshot> = Vec::new();
    let mut k: usize = 0;
    while k < ticks.len()
        invariant
            k <= ticks.len(),
            planned_ticks(plan_models(out@)) == ticks@.take(k as int),
            forall|i: int|
                0 <= i < out.len() ==> rising((#[trigger] out@[i]).users@)
                    && out@[i].users@.to_set() == users_at(deaths@, out@[i].tick),
        decreases ticks.len() - k,
    {
        let users = users_of(deaths, ticks[k]);
        let ghost before = plan_models(out@);
        out.push(PlannedSnapshot { tick: ticks[k], users });
        proof {
            assert(plan_models(out@) =~= before.push((ticks@[k as int], users@)));
            assert(planned_ticks(plan_models(out@)) =~= planned_ticks(before).push(
                ticks@[k as int],
            ));
            assert(ticks@.take(k + 1) =~= ticks@.take(k as int).push(ticks@[k as int]));
        }
        k += 1;
    }
    assert(ticks@.take(ticks.len() as int) =~= ticks@);
    assert forall|i: int| 0 <= i < plan_models(out@).len() implies rising(
        (#[trigger] plan_models(out@)[i]).1,
    ) && plan_models(out@)[i].1.to_set() == users_at(deaths@, plan_models(out@)[i].0) by {
        assert(rising(out@[i].users@));
    }
    out
}

/// Every thirtieth second from a tick to an end.
pub open spec fn sampled_between(tick: int, end: int) -> Set<i64>
    decreases (if tick < end {
        end - tick
    } else {
        0
    }),
{
    if tick < end {
        sampled_between(tick + 2000, end).insert(tick as i64)
    } else {
        Set::empty()
    }
}

/// The ticks at which rosters are looked at: in each round fifteen seconds from
/// the start, and every thirty seconds from there.
pub open spec fn roster_ticks(rounds: Seq<Round<Seq<char>>>) -> Set<i64>
    decreases rounds.len(),
{
    if rounds.len() == 0 {
        Set::empty()
    } else {
        roster_ticks(rounds.drop_last()) + sampled_between(
            rounds.last().start + 1000,
            rounds.last().end as int,
        )
    }
}

fn plan_rosters(rounds: &Vec<Round<String>>) -> (out: Vec<i64>)
    ensures
        rising(out@),
        out@.to_set() == roster_ticks(round_models(rounds@)),
{
    let ghost models = round_models(rounds@);
    let mut out: Vec<i64> = Vec::new();
    let mut i: usize = 0;
    assert(out@.to_set() =~= Set::empty());
    while i < rounds.len()
        invariant
            i <= rounds.len(),
            models == round_models(rounds@),
            rising(out@),
            out@.to_set() == roster_ticks(models.take(i as int)),
        decreases rounds.len() - i,
    {
        proof {
            assert(models.take(i + 1).drop_last() =~= models.take(i as int));
            assert(models.take(i + 1).last() == rounds@[i as int].model());
        }
        let end: i128 = rounds[i].end as i128;
        let mut tick: i128 = rounds[i].start as i128 + 1000;
        let ghost first = tick as int;
        let ghost base = out@.to_set();
        assert(base + sampled_between(tick as int, end as int) =~= base + sampled_between(
            first,
            end as int,
        ));
        while tick < end
            invariant
                rising(out@),
                end <= i64::MAX,
                i64::MIN <= tick <= i64::MAX + 3000,
                out@.to_set() + sampled_between(tick as int, end as int) == base + sampled_between(
                    first,
                    end as int,
                ),
            decreases end + 2000 - tick,
        {
            proof {
                let now = out@.to_set();
                assert(now + sampled_between(tick as int, end as int) =~= now.insert(tick as i64)
                    + sampled_between(tick + 2000, end as int));
            }
            insert_number(&mut out, tick as i64);
            tick = tick + 2000;
        }
        assert(out@.to_set() + Set::empty() =~= out@.to_set());
        i += 1;
    }
    assert(models.take(rounds.len() as int) =~= models);
    out
}

// ---------------------------------------------------------------------------
// The model
// ---------------------------------------------------------------------------

/// The fields of a player's state that are kept.
pub open spec fn kept_of_player() -> Seq<Seq<char>> {
    seq![
        "team"@,
        "class"@,
        "health"@,
        "life_state"@,
        "medic_charge"@,
        "shield_charging"@,
        "medigun"@,
        "position"@,
        "velocity"@,
        "on_ground"@,
        "blast_jumping"@,
    ]
}

/// The fields of a projectile's state that are kept.
pub open spec fn kept_of_projectile() -> Seq<Seq<char>> {
    seq!["launcher_handle"@, "projectile_type"@, "position"@, "state_tick"@]
}

/// The state under a key; empty where there is none.
pub open spec fn state_of(list: Seq<(i64, RecordModel)>, key: i64) -> RecordModel {
    match entry_of(list, key) {
        Some(state) => state,
        None => RecordModel::empty(),
    }
}

/// The samples under a key.
pub open spec fn samples_of(
    list: Seq<(i64, Seq<(i64, RecordModel)>)>,
    key: i64,
) -> Seq<(i64, RecordModel)> {
    match entry_of(list, key) {
        Some(samples) => samples,
        None => Seq::empty(),
    }
}

/// The ticks under a key.
pub open spec fn ticks_of(list: Seq<(i64, Seq<i64>)>, key: i64) -> Seq<i64> {
    match entry_of(list, key) {
        Some(ticks) => ticks,
        None => Seq::empty(),
    }
}

/// The states of some users, as far as they are known.
pub open spec fn states_of(current: Seq<(i64, RecordModel)>, users: Seq<i64>) -> Seq<
    (i64, RecordModel),
>
    decreases users.len(),
{
    if users.len() == 0 {
        Seq::empty()
    } else {
        let before = states_of(current, users.drop_last());
        match entry_of(current, users.last()) {
            Some(state) => before.push((users.last(), state)),
            None => before,
        }
    }
}

/// What matters of states.
pub open spec fn compacted(current: Seq<(i64, RecordModel)>) -> Seq<(i64, RecordModel)> {
    Seq::new(
        current.len(),
        |i: int| (current[i].0, selected(current[i].1, kept_of_player())),
    )
}

/// One more of a class.
pub open spec fn with_class(list: Seq<(Seq<char>, int)>, class: Seq<char>) -> Seq<(Seq<char>, int)>
    decreases list.len(),
{
    if list.len() == 0 {
        seq![(class, 1)]
    } else if list[0].0 == class {
        seq![(class, list[0].1 + 1)] + list.skip(1)
    } else {
        seq![list[0]] + with_class(list.skip(1), class)
    }
}

/// The class of a state; empty where it has none.
pub open spec fn state_class(state: RecordModel) -> Seq<char> {
    match text_of(lookup(state, "class"@)) {
        Some(text) => class_of(text),
        None => Seq::empty(),
    }
}

/// The classes that the players of a team play.
pub open spec fn team_roster(current: Seq<(i64, RecordModel)>, team: Seq<char>) -> Seq<
    (Seq<char>, int),
>
    decreases current.len(),
{
    if current.len() == 0 {
        Seq::empty()
    } else {
        let before = team_roster(current.drop_last(), team);
        let state = current.last().1;
        if team_of(lookup(state, "team"@)) == team && state_class(state).len() > 0 {
            with_class(before, state_class(state))
        } else {
            before
        }
    }
}

/// What is known at some point of a demo, and what is still planned.
pub struct TrackerModel {
    pub current: Seq<(i64, RecordModel)>,
    pub entity_users: Map<i64, i64>,
    pub flying: Seq<(i64, RecordModel)>,
    pub history: Seq<(i64, Seq<(i64, RecordModel)>)>,
    pub tracks: Seq<(i64, Seq<(i64, RecordModel)>)>,
    pub removals: Seq<(i64, Seq<i64>)>,
    pub snapshots: Seq<SnapshotModel>,
    pub rosters: Seq<RosterModel>,
    pub snapshots_due: Seq<(i64, Seq<i64>)>,
    pub rosters_due: Seq<i64>,
}

impl TrackerModel {
    /// The planned snapshots up to a tick are taken.
    pub open spec fn snapped(self, tick: i64) -> TrackerModel
        decreases self.snapshots_due.len(),
    {
        if self.snapshots_due.len() > 0 && self.snapshots_due[0].0 <= tick {
            self.snap().snapped(tick)
        } else {
            self
        }
    }

    /// The next planned snapshot is taken.
    pub open spec fn snap(self) -> TrackerModel {
        TrackerModel {
            snapshots: self.snapshots.push(
                SnapshotModel {
                    tick: self.snapshots_due[0].0,
                    selected: states_of(self.current, self.snapshots_due[0].1),
                    all: compacted(self.current),
                },
            ),
            snapshots_due: self.snapshots_due.skip(1),
            ..self
        }
    }

    /// What a report of a player changes.
    pub open spec fn with_player(self, tick: i64, player: RecordModel) -> TrackerModel {
        match whole_of(lookup(player, "user_id"@)) {
            Some(user) if user > 0 => {
                let state = merged(state_of(self.current, user), player);
                let compact = selected(state, kept_of_player());
                let known = samples_of(self.history, user);
                TrackerModel {
                    current: with_entry(self.current, user, state),
                    entity_users: match whole_of(lookup(player, "entity_id"@)) {
                        Some(entity) => self.entity_users.insert(entity, user),
                        None => self.entity_users,
                    },
                    history: if known.len() > 0 && known.last().1 == compact {
                        self.history
                    } else {
                        with_entry(self.history, user, known.push((tick, compact)))
                    },
                    ..self
                }
            },
            _ => self,
        }
    }

    /// What reports of players change.
    pub open spec fn with_players(self, tick: i64, players: Seq<Record>) -> TrackerModel
        decreases players.len(),
    {
        if players.len() == 0 {
            self
        } else {
            self.with_players(tick, players.drop_last()).with_player(tick, players.last().model())
        }
    }

    /// What the removal of a player changes.
    pub open spec fn without_player(self, entity: i64) -> TrackerModel {
        if self.entity_users.contains_key(entity) {
            TrackerModel {
                current: without_entry(self.current, self.entity_users[entity]),
                entity_users: self.entity_users.remove(entity),
                ..self
            }
        } else {
            self
        }
    }

    /// What the removal of players changes.
    pub open spec fn without_players(self, entities: Seq<i64>) -> TrackerModel
        decreases entities.len(),
    {
        if entities.len() == 0 {
            self
        } else {
            self.without_players(entities.drop_last()).without_player(entities.last())
        }
    }

    /// What a report of a projectile changes.
    pub open spec fn with_projectile(self, tick: i64, projectile: RecordModel) -> TrackerModel {
        let entity = int_field(projectile, "entity_id"@) as i64;
        if entity > 0 {
            let state = with_field(
                merged(state_of(self.flying, entity), projectile),
                "state_tick"@,
                ValueModel::One(Scalar::Int(tick)),
            );
            TrackerModel {
                flying: with_entry(self.flying, entity, state),
                tracks: with_entry(
                    self.tracks,
                    entity,
                    samples_of(self.tracks, entity).push(
                        (tick, selected(state, kept_of_projectile())),
                    ),
                ),
                ..self
            }
        } else {
            self
        }
    }

    /// What reports of projectiles change.
    pub open spec fn with_projectiles(self, tick: i64, projectiles: Seq<Record>) -> TrackerModel
        decreases projectiles.len(),
    {
        if projectiles.len() == 0 {
            self
        } else {
            self.with_projectiles(tick, projectiles.drop_last()).with_projectile(
                tick,
                projectiles.last().model(),
            )
        }
    }

    /// What the removal of a projectile changes.
    pub open spec fn without_projectile(self, tick: i64, entity: i64) -> TrackerModel {
        TrackerModel {
            flying: without_entry(self.flying, entity),
            removals: with_entry(
                self.removals,
                entity,
                ticks_of(self.removals, entity).push(tick),
            ),
            ..self
        }
    }

    /// What the removal of projectiles changes.
    pub open spec fn without_projectiles(self, tick: i64, entities: Seq<i64>) -> TrackerModel
        decreases entities.len(),
    {
        if entities.len() == 0 {
            self
        } else {
            self.without_projectiles(tick, entities.drop_last()).without_projectile(
                tick,
                entities.last(),
            )
        }
    }

    /// The planned looks at the rosters up to a tick are taken.
    pub open spec fn sampled(self, tick: i64) -> TrackerModel
        decreases self.rosters_due.len(),
    {
        if self.rosters_due.len() > 0 && self.rosters_due[0] <= tick {
            self.sample().sampled(tick)
        } else {
            self
        }
    }

    /// The next planned look at the rosters is taken.
    pub open spec fn sample(self) -> TrackerModel {
        TrackerModel {
            rosters: self.rosters.push(
                RosterModel {
                    tick: self.rosters_due[0],
                    red: team_roster(self.current, "red"@),
                    blu: team_roster(self.current, "blu"@),
                },
            ),
            rosters_due: self.rosters_due.skip(1),
            ..self
        }
    }

    /// What a report changes. States are reported as they are after a tick, so
    /// the snapshots for that tick are taken before.
    pub open spec fn after(self, record: StateRecord) -> TrackerModel {
        let tick = record.at();
        self.snapped(tick).with_players(tick, record.players@).without_players(
            record.removed_players@,
        ).with_projectiles(tick, record.projectiles@).without_projectiles(
            tick,
            record.removed_projectiles@,
        ).sampled(tick)
    }

    /// The end of the stream: the snapshots that are left are taken.
    pub open spec fn finished(self) -> TrackerModel {
        self.snapped(i64::MAX)
    }
}

/// What is known after reports, from the start.
pub open spec fn followed(start: TrackerModel, records: Seq<StateRecord>) -> TrackerModel
    decreases records.len(),
{
    if records.len() == 0 {
        start
    } else {
        followed(start, records.drop_last()).after(records.last())
    }
}

/// Nothing is known yet.
pub open spec fn untracked(plan: Seq<(i64, Seq<i64>)>, rosters: Seq<i64>) -> TrackerModel {
    TrackerModel {
        current: Seq::empty(),
        entity_users: Map::empty(),
        flying: Seq::empty(),
        history: Seq::empty(),
        tracks: Seq::empty(),
        removals: Seq::empty(),
        snapshots: Seq::empty(),
        rosters: Seq::empty(),
        snapshots_due: plan,
        rosters_due: rosters,
    }
}

// ---------------------------------------------------------------------------
// The tracker
// ---------------------------------------------------------------------------

/// Follows the state stream of a demo.
#[derive(Debug)]
pub struct StateTracker {
    current: Vec<Keyed<Record>>,
    entity_users: HashMap<i64, i64>,
    flying: Vec<Keyed<Record>>,
    history: Vec<Keyed<Vec<Sample>>>,
    tracks: Vec<Keyed<Vec<Sample>>>,
    removals: Vec<Keyed<Vec<i64>>>,
    snapshots: Vec<Snapshot>,
    rosters: Vec<RosterSample>,
    plan: Vec<PlannedSnapshot>,
    planned: usize,
    roster_plan: Vec<i64>,
    rosters_planned: usize,
    player_names: Vec<String>,
    projectile_names: Vec<String>,
}

fn list_of_player() -> (out: Vec<String>)
    ensures
        views(out@) == kept_of_player(),
{
    let mut out: Vec<String> = Vec::new();
    out.push("team".to_owned());
    out.push("class".to_owned());
    out.push("health".to_owned());
    out.push("life_state".to_owned());
    out.push("medic_charge".to_owned());
    out.push("shield_charging".to_owned());
    out.push("medigun".to_owned());
    out.push("position".to_owned());
    out.push("velocity".to_owned());
    out.push("on_ground".to_owned());
    out.push("blast_jumping".to_owned());
    assert(views(out@) =~= kept_of_player());
    out
}

fn list_of_projectile() -> (out: Vec<String>)
    ensures
        views(out@) == kept_of_projectile(),
{
    let mut out: Vec<String> = Vec::new();
    out.push("launcher_handle".to_owned());
    out.push("projectile_type".to_owned());
    out.push("position".to_owned());
    out.push("state_tick".to_owned());
    assert(views(out@) =~= kept_of_projectile());
    out
}

/// Merges a report into the state under a key, and gives where that state is.
fn merge_state(list: &mut Vec<Keyed<Record>>, key: i64, update: &Record) -> (at: usize)
    ensures
        at < final(list).len(),
        final(list)@[at as int].key == key,
        final(list)@[at as int].value.model() == merged(
            state_of(entries(old(list)@), key),
            update.model(),
        ),
        entries(final(list)@) == with_entry(
            entries(old(list)@),
            key,
            merged(state_of(entries(old(list)@), key), update.model()),
        ),
        forall|state: RecordModel| #[trigger]
            with_entry(entries(old(list)@), key, state) == entries(final(list)@).update(
                at as int,
                (key, state),
            ),
{
    let ghost before = list@;
    match find_key(list, key) {
        Some(at) => {
            list[at].value.merge(update);
            assert(entries(list@) =~= entries(before).update(
                at as int,
                (key, list@[at as int].value.model()),
            ));
            assert forall|state: RecordModel| #[trigger]
                with_entry(entries(before), key, state) == entries(list@).update(
                    at as int,
                    (key, state),
                ) by {
                assert(entries(before).update(at as int, (key, state)) =~= entries(list@).update(
                    at as int,
                    (key, state),
                ));
            }
            at
        },
        None => {
            let mut state = Record::new();
            state.merge(update);
            let at: usize = list.len();
            list.push(Keyed { key, value: state });
            assert(entries(list@) =~= entries(before).push((key, state.model())));
            assert forall|other: RecordModel| #[trigger]
                with_entry(entries(before), key, other) == entries(list@).update(
                    at as int,
                    (key, other),
                ) by {
                assert(entries(before).push((key, other)) =~= entries(list@).update(
                    at as int,
                    (key, other),
                ));
            }
            at
        },
    }
}

fn push_sample(list: &mut Vec<Keyed<Vec<Sample>>>, key: i64, tick: i64, state: Record)
    ensures
        entries(final(list)@) == with_entry(
            entries(old(list)@),
            key,
            samples_of(entries(old(list)@), key).push((tick, state.model())),
        ),
{
    let ghost before = list@;
    match find_key(list, key) {
        Some(at) => {
            let ghost known = list@[at as int].value@;
            list[at].value.push(Sample { tick, state });
            proof {
                assert(sample_models(list@[at as int].value@) =~= sample_models(known).push(
                    (tick, state.model()),
                ));
                assert(entries(list@) =~= entries(before).update(
                    at as int,
                    (key, sample_models(known).push((tick, state.model()))),
                ));
            }
        },
        None => {
            let mut samples: Vec<Sample> = Vec::new();
            samples.push(Sample { tick, state });
            list.push(Keyed { key, value: samples });
            proof {
                assert(sample_models(samples@) =~= Seq::empty().push((tick, state.model())));
                assert(entries(list@) =~= entries(before).push((key, sample_models(samples@))));
            }
        },
    }
}

fn push_tick(list: &mut Vec<Keyed<Vec<i64>>>, key: i64, tick: i64)
    ensures
        entries(final(list)@) == with_entry(
            entries(old(list)@),
            key,
            ticks_of(entries(old(list)@), key).push(tick),
        ),
{
    let ghost before = list@;
    match find_key(list, key) {
        Some(at) => {
            let ghost known = list@[at as int].value@;
            list[at].value.push(tick);
            assert(entries(list@) =~= entries(before).update(at as int, (key, known.push(tick))));
        },
        None => {
            let mut ticks: Vec<i64> = Vec::new();
            ticks.push(tick);
            list.push(Keyed { key, value: ticks });
            proof {
                assert(ticks@ =~= Seq::empty().push(tick));
                assert(entries(list@) =~= entries(before).push((key, ticks@)));
            }
        },
    }
}

fn copy_states(current: &Vec<Keyed<Record>>, users: &Vec<i64>) -> (out: Vec<Keyed<Record>>)
    ensures
        entries(out@) == states_of(entries(current@), users@),
{
    let mut out: Vec<Keyed<Record>> = Vec::new();
    let mut i: usize = 0;
    assert(entries(out@) =~= states_of(entries(current@), users@.take(0)));
    while i < users.len()
        invariant
            i <= users.len(),
            entries(out@) == states_of(entries(current@), users@.take(i as int)),
        decreases users.len() - i,
    {
        proof {
            assert(users@.take(i + 1).drop_last() =~= users@.take(i as int));
            assert(users@.take(i + 1).last() == users@[i as int]);
        }
        if let Some(state) = find_value(current, users[i]) {
            let ghost before = entries(out@);
            let copy = state.copy();
            out.push(Keyed { key: users[i], value: copy });
            assert(entries(out@) =~= before.push((users@[i as int], copy.model())));
        }
        i += 1;
    }
    assert(users@.take(users.len() as int) =~= users@);
    out
}

fn compact_states(current: &Vec<Keyed<Record>>, names: &Vec<String>) -> (out: Vec<Keyed<Record>>)
    requires
        views(names@) == kept_of_player(),
    ensures
        entries(out@) == compacted(entries(current@)),
{
    let mut out: Vec<Keyed<Record>> = Vec::new();
    let mut i: usize = 0;
    while i < current.len()
        invariant
            i <= current.len(),
            out.len() == i,
            views(names@) == kept_of_player(),
            forall|k: int|
                0 <= k < i ==> (#[trigger] entries(out@)[k]) == compacted(entries(current@))[k],
        decreases current.len() - i,
    {
        let compact = current[i].value.select(names);
        let ghost before = entries(out@);
        out.push(Keyed { key: current[i].key, value: compact });
        proof {
            assert(entries(out@) =~= before.push((current@[i as int].key, compact.model())));
            assert(entries(current@)[i as int].1 == current@[i as int].value.model());
        }
        i += 1;
    }
    assert(entries(out@) =~= compacted(entries(current@)));
    out
}

fn add_class(list: &mut Vec<ClassCount>, class: String, bound: usize)
    requires
        forall|k: int| 0 <= k < old(list).len() ==> (#[trigger] old(list)@[k]).count <= bound,
        bound < usize::MAX,
    ensures
        class_counts(final(list)@) == with_class(class_counts(old(list)@), class@),
        forall|k: int| 0 <= k < final(list).len() ==> (#[trigger] final(list)@[k]).count <= bound + 1,
        final(list).len() > 0,
{
    let ghost before = class_counts(list@);
    let mut i: usize = 0;
    proof {
        assert(before.skip(0) =~= before);
        assert(before.take(0) + with_class(before, class@) =~= with_class(before, class@));
    }
    while i < list.len()
        invariant
            i <= list.len(),
            *list == *old(list),
            before == class_counts(list@),
            bound < usize::MAX,
            forall|k: int| 0 <= k < list.len() ==> (#[trigger] list@[k]).count <= bound,
            with_class(before, class@) == before.take(i as int) + with_class(
                before.skip(i as int),
                class@,
            ),
        decreases list.len() - i,
    {
        proof {
            assert(before.skip(i as int)[0] == before[i as int]);
            assert(before.skip(i as int).skip(1) =~= before.skip(i + 1));
        }
        if same_text(list[i].class.as_str(), class.as_str()) {
            let count: usize = list[i].count;
            assert(list@[i as int].count <= bound);
            list.set(i, ClassCount { class, count: count + 1 });
            proof {
                assert(class_counts(list@) =~= before.take(i as int) + (seq![
                    (class@, before[i as int].1 + 1),
                ] + before.skip(i + 1)));
            }
            return;
        }
        proof {
            let rest = with_class(before.skip(i + 1), class@);
            assert(before.take(i as int) + (seq![before[i as int]] + rest) =~= before.take(i + 1)
                + rest);
        }
        i += 1;
    }
    list.push(ClassCount { class, count: 1 });
    proof {
        assert(before.skip(i as int) =~= Seq::empty());
        assert(before.take(i as int) =~= before);
        assert(class_counts(list@) =~= before + seq![(class@, 1int)]);
    }
}

fn count_team(current: &Vec<Keyed<Record>>, team: &str) -> (out: Vec<ClassCount>)
    ensures
        class_counts(out@) == team_roster(entries(current@), team@),
{
    let ghost all = entries(current@);
    let mut out: Vec<ClassCount> = Vec::new();
    let mut i: usize = 0;
    assert(class_counts(out@) =~= team_roster(all.take(0), team@));
    while i < current.len()
        invariant
            i <= current.len(),
            all == entries(current@),
            class_counts(out@) == team_roster(all.take(i as int), team@),
            forall|k: int| 0 <= k < out.len() ==> (#[trigger] out@[k]).count <= i,
        decreases current.len() - i,
    {
        proof {
            assert(all.take(i + 1).drop_last() =~= all.take(i as int));
            assert(all.take(i + 1).last() == (
                current@[i as int].key,
                current@[i as int].value.model(),
            ));
        }
        let state = &current[i].value;
        let class = match state.string("class") {
            Some(text) => canonical_class(text.as_str()),
            None => String::new(),
        };
        assert(state_class(state.model()).len() == class@.len());
        if same_text(canonical_team_value(state, "team").as_str(), team)
            && !class.as_str().is_empty() {
            add_class(&mut out, class, i);
        }
        i += 1;
    }
    assert(all.take(current.len() as int) =~= all);
    out
}

fn seen(list: Vec<ClassCount>) -> (out: Option<Vec<ClassCount>>)
    ensures
        team_counts(out) == class_counts(list@),
        out matches Some(list) ==> list.len() > 0,
{
    if list.len() > 0 {
        Some(list)
    } else {
        assert(class_counts(list@) =~= Seq::empty());
        None
    }
}

impl StateTracker {
    /// Whether the tracker keeps the right fields and has not overrun its plan.
    pub closed spec fn wf(&self) -> bool {
        &&& views(self.player_names@) == kept_of_player()
        &&& views(self.projectile_names@) == kept_of_projectile()
        &&& self.planned <= self.plan.len()
        &&& self.rosters_planned <= self.roster_plan.len()
        &&& forall|i: int| 0 <= i < self.rosters.len() ==> (#[trigger] self.rosters@[i]).wf()
    }

    /// What is known, and what is still planned.
    pub closed spec fn model(&self) -> TrackerModel {
        TrackerModel {
            current: entries(self.current@),
            entity_users: self.entity_users@,
            flying: entries(self.flying@),
            history: entries(self.history@),
            tracks: entries(self.tracks@),
            removals: entries(self.removals@),
            snapshots: snapshot_models(self.snapshots@),
            rosters: roster_models(self.rosters@),
            snapshots_due: plan_models(self.plan@).skip(self.planned as int),
            rosters_due: self.roster_plan@.skip(self.rosters_planned as int),
        }
    }

    /// A tracker for the kills and rounds of a demo, before the first report.
    pub fn new(deaths: &Vec<Death>, rounds: &Vec<Round<String>>) -> (out: StateTracker)
        ensures
            out.wf(),
            exists|plan: Seq<(i64, Seq<i64>)>, rosters: Seq<i64>|
                plans_for(plan, deaths@) && rising(rosters) && rosters.to_set() == roster_ticks(
                    round_models(rounds@),
                ) && out.model() == #[trigger] untracked(plan, rosters),
    {
        broadcast use group_hash_axioms;

        let plan = plan_snapshots(deaths);
        let roster_plan = plan_rosters(rounds);
        let out = StateTracker {
            current: Vec::new(),
            entity_users: HashMap::new(),
            flying: Vec::new(),
            history: Vec::new(),
            tracks: Vec::new(),
            removals: Vec::new(),
            snapshots: Vec::new(),
            rosters: Vec::new(),
            plan,
            planned: 0,
            roster_plan,
            rosters_planned: 0,
            player_names: list_of_player(),
            projectile_names: list_of_projectile(),
        };
        proof {
            let planned = plan_models(plan@);
            let want = untracked(planned, roster_plan@);
            assert(out.model().current =~= want.current);
            assert(out.model().entity_users =~= want.entity_users);
            assert(out.model().flying =~= want.flying);
            assert(out.model().history =~= want.history);
            assert(out.model().tracks =~= want.tracks);
            assert(out.model().removals =~= want.removals);
            assert(out.model().snapshots =~= want.snapshots);
            assert(out.model().rosters =~= want.rosters);
            assert(planned.skip(0) =~= planned);
            assert(roster_plan@.skip(0) =~= roster_plan@);
            assert(out.model() == want);
        }
        out
    }

    fn take_snapshots(&mut self, tick: i64)
        requires
            old(self).wf(),
        ensures
            final(self).wf(),
            final(self).model() == old(self).model().snapped(tick),
    {
        let ghost start = self.model();
        while self.planned < self.plan.len() && self.plan[self.planned].tick <= tick
            invariant
                self.wf(),
                self.model().snapped(tick) == start.snapped(tick),
            decreases self.plan.len() - self.planned,
        {
            let ghost before = self.model();
            let at: usize = self.planned;
            let chosen = copy_states(&self.current, &self.plan[at].users);
            let all = compact_states(&self.current, &self.player_names);
            let snapshot = Snapshot { tick: self.plan[at].tick, selected: chosen, all };
            let ghost taken = self.snapshots@;
            self.snapshots.push(snapshot);
            self.planned = at + 1;
            proof {
                let due = plan_models(self.plan@);
                assert(before.snapshots_due == due.skip(at as int));
                assert(before.snapshots_due[0] == due[at as int]);
                assert(due.skip(at as int).skip(1) =~= due.skip(at + 1));
                assert(snapshot_models(self.snapshots@) =~= snapshot_models(taken).push(
                    snapshot.model(),
                ));
                assert(self.model() == before.snap());
            }
        }
        proof {
            let due = plan_models(self.plan@);
            if self.planned < self.plan.len() {
                assert(self.model().snapshots_due[0] == due[self.planned as int]);
            }
        }
    }

    fn take_player(&mut self, tick: i64, player: &Record)
        requires
            old(self).wf(),
        ensures
            final(self).wf(),
            final(self).model() == old(self).model().with_player(tick, player.model()),
    {
        broadcast use group_hash_axioms;

        let user: i64 = match player.whole("user_id") {
            Some(user) => user,
            None => 0,
        };
        if user <= 0 {
            return;
        }
        if let Some(entity) = player.whole("entity_id") {
            self.entity_users.insert(entity, user);
        }
        let at: usize = merge_state(&mut self.current, user, player);
        let compact = self.current[at].value.select(&self.player_names);
        let mut known = false;
        if let Some(samples) = find_value(&self.history, user) {
            if samples.len() > 0 {
                assert(sample_models(samples@).last() == (
                    samples@.last().tick,
                    samples@.last().state.model(),
                ));
                known = samples[samples.len() - 1].state.same(&compact);
            }
        }
        if !known {
            push_sample(&mut self.history, user, tick, compact);
        }
    }

    fn take_players(&mut self, tick: i64, players: &Vec<Record>)
        requires
            old(self).wf(),
        ensures
            final(self).wf(),
            final(self).model() == old(self).model().with_players(tick, players@),
    {
        let ghost start = self.model();
        let mut i: usize = 0;
        while i < players.len()
            invariant
                i <= players.len(),
                self.wf(),
                self.model() == start.with_players(tick, players@.take(i as int)),
            decreases players.len() - i,
        {
            proof {
                assert(players@.take(i + 1).drop_last() =~= players@.take(i as int));
                assert(players@.take(i + 1).last() == players@[i as int]);
            }
            self.take_player(tick, &players[i]);
            i += 1;
        }
        assert(players@.take(players.len() as int) =~= players@);
    }

    fn drop_players(&mut self, entities: &Vec<i64>)
        requires
            old(self).wf(),
        ensures
            final(self).wf(),
            final(self).model() == old(self).model().without_players(entities@),
    {
        broadcast use group_hash_axioms;

        let ghost start = self.model();
        let mut i: usize = 0;
        while i < entities.len()
            invariant
                i <= entities.len(),
                self.wf(),
                self.model() == start.without_players(entities@.take(i as int)),
            decreases entities.len() - i,
        {
            proof {
                assert(entities@.take(i + 1).drop_last() =~= entities@.take(i as int));
                assert(entities@.take(i + 1).last() == entities@[i as int]);
            }
            let ghost before = self.model();
            let removed = self.entity_users.remove(&entities[i]);
            if let Some(user) = removed {
                remove_key(&mut self.current, user);
            } else {
                assert(self.entity_users@ =~= before.entity_users);
            }
            i += 1;
        }
        assert(entities@.take(entities.len() as int) =~= entities@);
    }

    fn take_projectile(&mut self, tick: i64, projectile: &Record)
        requires
            old(self).wf(),
        ensures
            final(self).wf(),
            final(self).model() == old(self).model().with_projectile(tick, projectile.model()),
    {
        let entity: i64 = match projectile.integer("entity_id") {
            Some(entity) => entity,
            None => 0,
        };
        if entity <= 0 {
            return;
        }
        let ghost before = entries(self.flying@);
        let at: usize = merge_state(&mut self.flying, entity, projectile);
        let ghost half = self.flying@;
        let value = int_value(tick);
        self.flying[at].value.set("state_tick", value);
        proof {
            let ready = merged(state_of(before, entity), projectile.model());
            let state = with_field(ready, "state_tick"@, ValueModel::One(Scalar::Int(tick)));
            assert(self.flying@[at as int].value.model() == state);
            assert(entries(self.flying@) =~= entries(half).update(at as int, (entity, state)));
            assert(entries(self.flying@) == with_entry(before, entity, state));
        }
        let compact = self.flying[at].value.select(&self.projectile_names);
        push_sample(&mut self.tracks, entity, tick, compact);
    }

    fn take_projectiles(&mut self, tick: i64, projectiles: &Vec<Record>)
        requires
            old(self).wf(),
        ensures
            final(self).wf(),
            final(self).model() == old(self).model().with_projectiles(tick, projectiles@),
    {
        let ghost start = self.model();
        let mut i: usize = 0;
        while i < projectiles.len()
            invariant
                i <= projectiles.len(),
                self.wf(),
                self.model() == start.with_projectiles(tick, projectiles@.take(i as int)),
            decreases projectiles.len() - i,
        {
            proof {
                assert(projectiles@.take(i + 1).drop_last() =~= projectiles@.take(i as int));
                assert(projectiles@.take(i + 1).last() == projectiles@[i as int]);
            }
            self.take_projectile(tick, &projectiles[i]);
            i += 1;
        }
        assert(projectiles@.take(projectiles.len() as int) =~= projectiles@);
    }

    fn drop_projectiles(&mut self, tick: i64, entities: &Vec<i64>)
        requires
            old(self).wf(),
        ensures
            final(self).wf(),
            final(self).model() == old(self).model().without_projectiles(tick, entities@),
    {
        let ghost start = self.model();
        let mut i: usize = 0;
        while i < entities.len()
            invariant
                i <= entities.len(),
                self.wf(),
                self.model() == start.without_projectiles(tick, entities@.take(i as int)),
            decreases entities.len() - i,
        {
            proof {
                assert(entities@.take(i + 1).drop_last() =~= entities@.take(i as int));
                assert(entities@.take(i + 1).last() == entities@[i as int]);
            }
            remove_key(&mut self.flying, entities[i]);
            push_tick(&mut self.removals, entities[i], tick);
            i += 1;
        }
        assert(entities@.take(entities.len() as int) =~= entities@);
    }

    fn take_rosters(&mut self, tick: i64)
        requires
            old(self).wf(),
        ensures
            final(self).wf(),
            final(self).model() == old(self).model().sampled(tick),
    {
        let ghost start = self.model();
        while self.rosters_planned < self.roster_plan.len()
            && self.roster_plan[self.rosters_planned] <= tick
            invariant
                self.wf(),
                self.model().sampled(tick) == start.sampled(tick),
            decreases self.roster_plan.len() - self.rosters_planned,
        {
            let ghost before = self.model();
            let at: usize = self.rosters_planned;
            let sample = RosterSample {
                tick: self.roster_plan[at],
                red: seen(count_team(&self.current, "red")),
                blu: seen(count_team(&self.current, "blu")),
            };
            let ghost taken = self.rosters@;
            self.rosters.push(sample);
            self.rosters_planned = at + 1;
            proof {
                let due = self.roster_plan@;
                assert(before.rosters_due[0] == due[at as int]);
                assert(due.skip(at as int).skip(1) =~= due.skip(at + 1));
                assert(roster_models(self.rosters@) =~= roster_models(taken).push(
                    sample.model(),
                ));
                assert(self.model() == before.sample());
            }
        }
        proof {
            if self.rosters_planned < self.roster_plan.len() {
                assert(self.model().rosters_due[0]
                    == self.roster_plan@[self.rosters_planned as int]);
            }
        }
    }

    /// Takes one report of the stream.
    pub fn record(&mut self, report: &StateRecord)
        requires
            old(self).wf(),
        ensures
            final(self).wf(),
            final(self).model() == old(self).model().after(*report),
    {
        let tick: i64 = report.tick();
        self.take_snapshots(tick);
        self.take_players(tick, &report.players);
        self.drop_players(&report.removed_players);
        self.take_projectiles(tick, &report.projectiles);
        self.drop_projectiles(tick, &report.removed_projectiles);
        self.take_rosters(tick);
    }

    /// What was kept, at the end of the stream.
    pub fn finish(self) -> (out: StateScan)
        requires
            self.wf(),
        ensures
            out.of(self.model().finished()),
    {
        let mut tracker = self;
        tracker.take_snapshots(i64::MAX);
        StateScan {
            snapshots: tracker.snapshots,
            roster_samples: tracker.rosters,
            projectile_tracks: tracker.tracks,
            projectile_removals: tracker.removals,
            player_history: tracker.history,
        }
    }
}

impl StateScan {
    /// Whether the scan holds what a tracker has kept.
    pub open spec fn of(&self, model: TrackerModel) -> bool {
        &&& snapshot_models(self.snapshots@) == model.snapshots
        &&& roster_models(self.roster_samples@) == model.rosters
        &&& entries(self.projectile_tracks@) == model.tracks
        &&& entries(self.projectile_removals@) == model.removals
        &&& entries(self.player_history@) == model.history
        &&& forall|i: int|
            0 <= i < self.roster_samples.len() ==> (#[trigger] self.roster_samples@[i]).wf()
    }

    /// A scan of nothing.
    pub fn empty() -> (out: StateScan)
        ensures
            out.snapshots@.len() == 0,
            out.roster_samples@.len() == 0,
            out.projectile_tracks@.len() == 0,
            out.projectile_removals@.len() == 0,
            out.player_history@.len() == 0,
    {
        StateScan {
            snapshots: Vec::new(),
            roster_samples: Vec::new(),
            projectile_tracks: Vec::new(),
            projectile_removals: Vec::new(),
            player_history: Vec::new(),
        }
    }
}

proof fn lemma_snapped(model: TrackerModel, tick: i64)
    ensures
        model.snapped(tick).snapshots.len() + model.snapped(tick).snapshots_due.len()
            == model.snapshots.len() + model.snapshots_due.len(),
        tick == i64::MAX ==> model.snapped(tick).snapshots_due.len() == 0,
    decreases model.snapshots_due.len(),
{
    if model.snapshots_due.len() > 0 && model.snapshots_due[0].0 <= tick {
        lemma_snapped(model.snap(), tick);
    }
}

proof fn lemma_players_keep(model: TrackerModel, tick: i64, players: Seq<Record>)
    ensures
        model.with_players(tick, players).snapshots == model.snapshots,
        model.with_players(tick, players).snapshots_due == model.snapshots_due,
    decreases players.len(),
{
    if players.len() > 0 {
        lemma_players_keep(model, tick, players.drop_last());
    }
}

proof fn lemma_drops_keep(model: TrackerModel, entities: Seq<i64>)
    ensures
        model.without_players(entities).snapshots == model.snapshots,
        model.without_players(entities).snapshots_due == model.snapshots_due,
    decreases entities.len(),
{
    if entities.len() > 0 {
        lemma_drops_keep(model, entities.drop_last());
    }
}

proof fn lemma_projectiles_keep(model: TrackerModel, tick: i64, projectiles: Seq<Record>)
    ensures
        model.with_projectiles(tick, projectiles).snapshots == model.snapshots,
        model.with_projectiles(tick, projectiles).snapshots_due == model.snapshots_due,
    decreases projectiles.len(),
{
    if projectiles.len() > 0 {
        lemma_projectiles_keep(model, tick, projectiles.drop_last());
    }
}

proof fn lemma_projectile_drops_keep(model: TrackerModel, tick: i64, entities: Seq<i64>)
    ensures
        model.without_projectiles(tick, entities).snapshots == model.snapshots,
        model.without_projectiles(tick, entities).snapshots_due == model.snapshots_due,
    decreases entities.len(),
{
    if entities.len() > 0 {
        lemma_projectile_drops_keep(model, tick, entities.drop_last());
    }
}

proof fn lemma_samples_keep(model: TrackerModel, tick: i64)
    ensures
        model.sampled(tick).snapshots == model.snapshots,
        model.sampled(tick).snapshots_due == model.snapshots_due,
    decreases model.rosters_due.len(),
{
    if model.rosters_due.len() > 0 && model.rosters_due[0] <= tick {
        lemma_samples_keep(model.sample(), tick);
    }
}

proof fn lemma_followed(start: TrackerModel, records: Seq<StateRecord>)
    ensures
        followed(start, records).snapshots.len() + followed(start, records).snapshots_due.len()
            == start.snapshots.len() + start.snapshots_due.len(),
    decreases records.len(),
{
    if records.len() > 0 {
        lemma_followed(start, records.drop_last());
        let before = followed(start, records.drop_last());
        let record = records.last();
        let tick = record.at();
        lemma_snapped(before, tick);
        let a = before.snapped(tick);
        lemma_players_keep(a, tick, record.players@);
        let b = a.with_players(tick, record.players@);
        lemma_drops_keep(b, record.removed_players@);
        let c = b.without_players(record.removed_players@);
        lemma_projectiles_keep(c, tick, record.projectiles@);
        let d = c.with_projectiles(tick, record.projectiles@);
        lemma_projectile_drops_keep(d, tick, record.removed_projectiles@);
        lemma_samples_keep(d.without_projectiles(tick, record.removed_projectiles@), tick);
    }
}

/// Every planned snapshot is taken, whatever the stream reports.
pub proof fn law_every_snapshot_is_taken(start: TrackerModel, records: Seq<StateRecord>)
    ensures
        followed(start, records).finished().snapshots.len() == start.snapshots.len()
            + start.snapshots_due.len(),
{
    lemma_followed(start, records);
    lemma_snapped(followed(start, records), i64::MAX);
}

proof fn lemma_sampled(from: int, end: int, tick: i64)
    requires
        i64::MIN <= from,
        end <= i64::MAX,
    ensures
        sampled_between(from, end).contains(tick) <==> from <= tick < end && (tick - from) % 2000
            == 0,
    decreases (if from < end {
        end - from
    } else {
        0
    }),
{
    if from < end {
        lemma_sampled(from + 2000, end, tick);
        assert((tick - from) % 2000 == (tick - (from + 2000)) % 2000) by (nonlinear_arith);
    }
}

/// The teams are looked at fifteen seconds after a round starts, and every thirty seconds
/// from there until it ends.
pub proof fn law_rosters_are_sampled(rounds: Seq<Round<Seq<char>>>, tick: i64)
    ensures
        roster_ticks(rounds).contains(tick) <==> exists|r: int|
            #![trigger rounds[r]]
            0 <= r < rounds.len() && rounds[r].start + 1000 <= tick < rounds[r].end && (tick
                - rounds[r].start - 1000) % 2000 == 0,
    decreases rounds.len(),
{
    if rounds.len() > 0 {
        let rest = rounds.drop_last();
        let last = rounds.len() - 1;
        law_rosters_are_sampled(rest, tick);
        lemma_sampled(rounds.last().start + 1000, rounds.last().end as int, tick);
        assert(rounds[last] == rounds.last());
        assert forall|r: int| 0 <= r < last implies #[trigger] rounds[r] == rest[r] by {
        }
        if roster_ticks(rest).contains(tick) {
            let r = choose|r: int|
                #![trigger rest[r]]
                0 <= r < rest.len() && rest[r].start + 1000 <= tick < rest[r].end && (tick
                    - rest[r].start - 1000) % 2000 == 0;
            assert(rounds[r] == rest[r]);
        }
    }
}

/// A snapshot is planned at a tick where, and only where, someone was killed then, of all
/// who killed or were killed.
pub proof fn law_kills_are_snapped(plan: Seq<(i64, Seq<i64>)>, deaths: Seq<Death>, i: int)
    requires
        plans_for(plan, deaths),
        0 <= i < deaths.len(),
    ensures
        exists|k: int|
            #![trigger plan[k]]
            0 <= k < plan.len() && plan[k].0 == deaths[i].event_tick && plan[k].1.contains(
                deaths[i].attacker,
            ) && plan[k].1.contains(deaths[i].victim),
{
    lemma_snapped_users(deaths, i);
    let tick = deaths[i].event_tick;
    let ticks = planned_ticks(plan);
    assert(ticks.to_set().contains(tick));
    let k = choose|k: int| 0 <= k < ticks.len() && ticks[k] == tick;
    assert(plan[k].1.to_set() == users_at(deaths, plan[k].0));
    assert(plan[k].1.to_set().contains(deaths[i].attacker));
    assert(plan[k].1.to_set().contains(deaths[i].victim));
}

proof fn lemma_snapped_users(deaths: Seq<Death>, i: int)
    requires
        0 <= i < deaths.len(),
    ensures
        kill_ticks(deaths).contains(deaths[i].event_tick),
        users_at(deaths, deaths[i].event_tick).contains(deaths[i].attacker),
        users_at(deaths, deaths[i].event_tick).contains(deaths[i].victim),
    decreases deaths.len(),
{
    let rest = deaths.drop_last();
    if i < rest.len() {
        assert(rest[i] == deaths[i]);
        lemma_snapped_users(rest, i);
    }
}

/// How many players of a roster play a class.
pub open spec fn class_total(list: Seq<(Seq<char>, int)>, class: Seq<char>) -> int
    decreases list.len(),
{
    if list.len() == 0 {
        0
    } else {
        (if list[0].0 == class {
            list[0].1
        } else {
            0
        }) + class_total(list.skip(1), class)
    }
}

proof fn lemma_with_class(list: Seq<(Seq<char>, int)>, class: Seq<char>, other: Seq<char>)
    ensures
        class_total(with_class(list, class), other) == class_total(list, other) + (if other
            == class {
            1int
        } else {
            0
        }),
    decreases list.len(),
{
    let out = with_class(list, class);
    if list.len() == 0 {
        assert(out.skip(1) =~= Seq::empty());
        assert(out[0] == (class, 1int));
        reveal_with_fuel(class_total, 2);
    } else if list[0].0 == class {
        assert(out.skip(1) =~= list.skip(1));
        assert(out[0] == (class, list[0].1 + 1));
    } else {
        lemma_with_class(list.skip(1), class, other);
        assert(out[0] == list[0]);
        assert(out.skip(1) =~= with_class(list.skip(1), class));
    }
}

/// A player counts once for the class that they play, in their own team, where it is
/// known; other classes and other teams stay as they are.
pub proof fn law_players_count_for_their_class(
    current: Seq<(i64, RecordModel)>,
    player: (i64, RecordModel),
    team: Seq<char>,
    class: Seq<char>,
)
    ensures
        class_total(team_roster(current.push(player), team), class) == class_total(
            team_roster(current, team),
            class,
        ) + (if team_of(lookup(player.1, "team"@)) == team && state_class(player.1) == class
            && class.len() > 0 {
            1int
        } else {
            0
        }),
{
    assert(current.push(player).drop_last() =~= current);
    lemma_with_class(team_roster(current, team), state_class(player.1), class);
}

/// What tells a flight, a life, a charge and a class is kept of a player's state.
pub proof fn law_telling_fields_are_kept()
    ensures
        kept_of_player().contains("team"@),
        kept_of_player().contains("class"@),
        kept_of_player().contains("health"@),
        kept_of_player().contains("life_state"@),
        kept_of_player().contains("medic_charge"@),
        kept_of_player().contains("shield_charging"@),
        kept_of_player().contains("medigun"@),
        kept_of_player().contains("position"@),
        kept_of_player().contains("velocity"@),
        kept_of_player().contains("on_ground"@),
        kept_of_player().contains("blast_jumping"@),
        kept_of_projectile().contains("launcher_handle"@),
        kept_of_projectile().contains("projectile_type"@),
        kept_of_projectile().contains("position"@),
        kept_of_projectile().contains("state_tick"@),
{
    let kept = kept_of_player();
    assert(kept[0] == "team"@ && kept[1] == "class"@ && kept[2] == "health"@ && kept[3]
        == "life_state"@ && kept[4] == "medic_charge"@ && kept[5] == "shield_charging"@ && kept[6]
        == "medigun"@ && kept[7] == "position"@ && kept[8] == "velocity"@ && kept[9]
        == "on_ground"@ && kept[10] == "blast_jumping"@);
    let shot = kept_of_projectile();
    assert(shot[0] == "launcher_handle"@ && shot[1] == "projectile_type"@ && shot[2] == "position"@
        && shot[3] == "state_tick"@);
}

/// A report of a player adds to what is known of that player alone. What is kept of it ends
/// their history, which grows only where that has changed, and earlier samples stay.
pub proof fn law_reports_extend_histories(
    model: TrackerModel,
    tick: i64,
    player: RecordModel,
    user: i64,
    other: i64,
)
    requires
        whole_of(lookup(player, "user_id"@)) == Some(user),
        user > 0,
    ensures
        ({
            let after = model.with_player(tick, player);
            let state = merged(state_of(model.current, user), player);
            let before = samples_of(model.history, user);
            let now = samples_of(after.history, user);
            &&& state_of(after.current, user) == state
            &&& other != user ==> state_of(after.current, other) == state_of(model.current, other)
                && samples_of(after.history, other) == samples_of(model.history, other)
            &&& now.len() > 0 && now.last().1 == selected(state, kept_of_player())
            &&& now.len() == before.len() || now.len() == before.len() + 1
            &&& now.take(before.len() as int) == before
            &&& now.len() == before.len() + 1 ==> now.last().0 == tick && (before.len() > 0
                ==> before.last().1 != now.last().1)
            &&& after.tracks == model.tracks && after.snapshots == model.snapshots && after.rosters
                == model.rosters
        }),
{
    let after = model.with_player(tick, player);
    let state = merged(state_of(model.current, user), player);
    let compact = selected(state, kept_of_player());
    let before = samples_of(model.history, user);
    law_entry_found(model.current, user, state, user);
    law_entry_found(model.current, user, state, other);
    law_entry_found(model.history, user, before.push((tick, compact)), user);
    law_entry_found(model.history, user, before.push((tick, compact)), other);
    assert(samples_of(after.history, user).take(before.len() as int) =~= before);
}

/// A report of a projectile adds one sample to its track.
pub proof fn law_projectiles_extend_their_track(
    model: TrackerModel,
    tick: i64,
    projectile: RecordModel,
    entity: i64,
)
    requires
        int_field(projectile, "entity_id"@) == entity,
        entity > 0,
    ensures
        ({
            let after = model.with_projectile(tick, projectile);
            let before = samples_of(model.tracks, entity);
            let now = samples_of(after.tracks, entity);
            &&& now.len() == before.len() + 1 && now.drop_last() == before
            &&& now.last().0 == tick
            &&& after.history == model.history && after.current == model.current
        }),
{
    let before = samples_of(model.tracks, entity);
    let state = with_field(
        merged(state_of(model.flying, entity), projectile),
        "state_tick"@,
        ValueModel::One(Scalar::Int(tick)),
    );
    let sample = (tick, selected(state, kept_of_projectile()));
    law_entry_found(model.tracks, entity, before.push(sample), entity);
    assert(before.push(sample).drop_last() =~= before);
}

/// The removal of a projectile is noted with its tick.
pub proof fn law_removals_are_noted(model: TrackerModel, tick: i64, entity: i64, other: i64)
    ensures
        ticks_of(model.without_projectile(tick, entity).removals, entity) == ticks_of(
            model.removals,
            entity,
        ).push(tick),
        other != entity ==> ticks_of(model.without_projectile(tick, entity).removals, other)
            == ticks_of(model.removals, other),
{
    law_entry_found(model.removals, entity, ticks_of(model.removals, entity).push(tick), entity);
    law_entry_found(model.removals, entity, ticks_of(model.removals, entity).push(tick), other);
}

/// What is due at a tick is taken then, and nothing before it is due.
pub proof fn law_what_is_due_is_taken(model: TrackerModel, tick: i64)
    ensures
        model.snapped(tick).snapshots_due.len() > 0 ==> model.snapped(tick).snapshots_due[0].0
            > tick,
        model.snapped(tick).snapshots.len() + model.snapped(tick).snapshots_due.len()
            == model.snapshots.len() + model.snapshots_due.len(),
        model.snapshots_due.len() > 0 && model.snapshots_due[0].0 > tick ==> model.snapped(tick)
            == model,
        model.sampled(tick).rosters_due.len() > 0 ==> model.sampled(tick).rosters_due[0] > tick,
        model.sampled(tick).rosters.len() + model.sampled(tick).rosters_due.len()
            == model.rosters.len() + model.rosters_due.len(),
        model.rosters_due.len() > 0 && model.rosters_due[0] > tick ==> model.sampled(tick) == model,
    decreases model.snapshots_due.len() + model.rosters_due.len(),
{
    if model.snapshots_due.len() > 0 && model.snapshots_due[0].0 <= tick {
        law_what_is_due_is_taken(model.snap(), tick);
    }
    if model.rosters_due.len() > 0 && model.rosters_due[0] <= tick {
        law_what_is_due_is_taken(model.sample(), tick);
    }
}

} // verus!

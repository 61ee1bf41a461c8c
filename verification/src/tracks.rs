//! Where players were at each tick, as far as a demo tells it without a break.
use vstd::prelude::*;
use std::collections::HashMap;
use crate::arrange::{arrange, in_order, is_ordered, law_order_keeps_all, Ranked};
use crate::camera::{covers, user_is_covered, windows_of, UserWindows};
use crate::number::{i64_text, int_text};
use crate::text::{same_fold, same_ignoring_case};

verus! {

broadcast use vstd::std_specs::hash::group_hash_axioms;

/// What a demo tells of a player at a tick. The position itself is kept elsewhere,
/// under a number.
#[derive(Debug)]
pub struct PlayerSample {
    pub entity_id: u32,
    pub user_id: Option<i64>,
    pub in_pvs: bool,
    pub life_state: String,
    pub spawn_generation: Option<u32>,
    pub simulation_tick: Option<u64>,
    pub fresh: Option<bool>,
    /// Whether the position is made of finite numbers.
    pub finite: bool,
    /// The number of the position.
    pub place: usize,
}

/// What a demo tells of the players at a tick.
#[derive(Debug)]
pub struct StateDelta {
    pub demo_tick: i64,
    pub players: Vec<PlayerSample>,
    pub removed_players: Vec<u32>,
}

/// Where a player was at a tick; nowhere after the player was removed.
#[derive(Clone, Copy, Debug, PartialEq, Eq, Structural)]
pub struct TrackPoint {
    pub tick: i64,
    pub entity_id: u32,
    pub generation: u32,
    /// The number of the position.
    pub place: Option<usize>,
    pub valid: bool,
}

impl Ranked for TrackPoint {
    open spec fn before(self, other: Self) -> bool {
        self.tick < other.tick
    }

    proof fn before_orders(a: Self, b: Self, c: Self) {
    }

    fn comes_before(&self, other: &Self) -> (r: bool) {
        self.tick < other.tick
    }
}

/// Which of two players a track is of.
#[derive(Clone, Copy, Debug, PartialEq, Eq, Structural)]
pub enum TrackRole {
    Attacker,
    Victim,
}

impl TrackRole {
    /// How the role is written.
    pub open spec fn name(self) -> Seq<char> {
        match self {
            TrackRole::Attacker => "attacker"@,
            TrackRole::Victim => "victim"@,
        }
    }

    /// How the role is written.
    pub fn label(self) -> (out: &'static str)
        ensures
            out@ == self.name(),
    {
        match self {
            TrackRole::Attacker => "attacker",
            TrackRole::Victim => "victim",
        }
    }
}

/// Why a camera cannot show a candidate.
#[derive(Clone, Copy, Debug, PartialEq, Eq, Structural)]
pub enum CameraFault {
    OldExport,
    NoKill,
    NoAttackerTrack { attacker: i64 },
    NoVictimTrack { victim: i64, tick: i64 },
    NoSamples,
    NotNetworked { role: TrackRole, missing_ticks: u64 },
    TooShort { tick: i64, available: i64 },
    NoPosition { role: TrackRole, tick: i64 },
}

/// What is told of a fault; the seconds are those that the ticks without a
/// position last.
pub open spec fn fault_text(fault: CameraFault, seconds: Seq<char>) -> Seq<char> {
    match fault {
        CameraFault::OldExport =>
            "cinematic angle unavailable: this export predates generation-safe camera tracks; re-parse the demo"@,
        CameraFault::NoKill =>
            "cinematic angle unavailable: the candidate has no kill with a victim ID and demo tick"@,
        CameraFault::NoAttackerTrack { attacker } =>
            "cinematic angle unavailable: attacker "@ + int_text(attacker as int)
                + " has no camera track"@,
        CameraFault::NoVictimTrack { victim, tick } =>
            "cinematic angle unavailable: victim "@ + int_text(victim as int) + " at demo tick "@
                + int_text(tick as int) + " has no camera track"@,
        CameraFault::NoSamples =>
            "cinematic angle unavailable: no player samples exist before the kill"@,
        CameraFault::NotNetworked { role, missing_ticks } =>
            "cinematic angle unavailable: the "@ + role.name()
                + " was not continuously networked at the kill (last valid coverage is more than "@
                + seconds + " seconds away)"@,
        CameraFault::TooShort { tick, available } =>
            "cinematic angle unavailable: kill at demo tick "@ + int_text(tick as int)
                + " has only "@ + int_text(available as int)
                + " continuous pre-kill ticks; at least 3 are required"@,
        CameraFault::NoPosition { role, tick } =>
            "cinematic angle unavailable: no continuous "@ + role.name()
                + " position exists at demo tick "@ + int_text(tick as int),
    }
}

impl CameraFault {
    /// What is told of the fault; the seconds are those that the ticks without a
    /// position last.
    pub fn text(self, seconds: &str) -> (out: String)
        ensures
            out@ == fault_text(self, seconds@),
    {
        match self {
            CameraFault::OldExport =>
                "cinematic angle unavailable: this export predates generation-safe camera tracks; re-parse the demo".to_owned(),
            CameraFault::NoKill =>
                "cinematic angle unavailable: the candidate has no kill with a victim ID and demo tick".to_owned(),
            CameraFault::NoAttackerTrack { attacker } => {
                let mut out = "cinematic angle unavailable: attacker ".to_owned();
                out.append(i64_text(attacker).as_str());
                out.append(" has no camera track");
                out
            },
            CameraFault::NoVictimTrack { victim, tick } => {
                let mut out = "cinematic angle unavailable: victim ".to_owned();
                out.append(i64_text(victim).as_str());
                out.append(" at demo tick ");
                out.append(i64_text(tick).as_str());
                out.append(" has no camera track");
                out
            },
            CameraFault::NoSamples =>
                "cinematic angle unavailable: no player samples exist before the kill".to_owned(),
            CameraFault::NotNetworked { role, .. } => {
                let mut out = "cinematic angle unavailable: the ".to_owned();
                out.append(role.label());
                out.append(
                    " was not continuously networked at the kill (last valid coverage is more than ",
                );
                out.append(seconds);
                out.append(" seconds away)");
                out
            },
            CameraFault::TooShort { tick, available } => {
                let mut out = "cinematic angle unavailable: kill at demo tick ".to_owned();
                out.append(i64_text(tick).as_str());
                out.append(" has only ");
                out.append(i64_text(available).as_str());
                out.append(" continuous pre-kill ticks; at least 3 are required");
                out
            },
            CameraFault::NoPosition { role, tick } => {
                let mut out = "cinematic angle unavailable: no continuous ".to_owned();
                out.append(role.label());
                out.append(" position exists at demo tick ");
                out.append(i64_text(tick).as_str());
                out
            },
        }
    }
}

// ---------------------------------------------------------------------------
// Reading
// ---------------------------------------------------------------------------

/// What was read of the players.
#[verifier::ext_equal]
pub struct TracksModel {
    pub tracks: Map<i64, Seq<TrackPoint>>,
    pub users: Map<u32, i64>,
    pub camera: bool,
}

/// The points of a player.
pub open spec fn points_of(tracks: Map<i64, Seq<TrackPoint>>, user: i64) -> Seq<TrackPoint> {
    if tracks.contains_key(user) {
        tracks[user]
    } else {
        Seq::empty()
    }
}

/// Tracks with a point more.
pub open spec fn with_point(
    tracks: Map<i64, Seq<TrackPoint>>,
    user: i64,
    point: TrackPoint,
) -> Map<i64, Seq<TrackPoint>> {
    tracks.insert(user, points_of(tracks, user).push(point))
}

/// Whether a player who is told of is there to be seen.
pub open spec fn is_seen(player: PlayerSample) -> bool {
    player.in_pvs && (same_fold(player.life_state@, "alive"@) || same_fold(
        player.life_state@,
        "dying"@,
    )) && player.finite
}

/// Whether it is told which life of the player it is, and when it was told.
pub open spec fn is_dated(player: PlayerSample) -> bool {
    player.spawn_generation is Some && player.simulation_tick is Some && player.fresh == Some(true)
}

impl TracksModel {
    /// What is read after a player.
    pub open spec fn with_player(
        self,
        tick: i64,
        player: PlayerSample,
        windows: Seq<UserWindows>,
    ) -> TracksModel {
        match player.user_id {
            None => self,
            Some(user) => {
                let users = self.users.insert(player.entity_id, user);
                if covers(windows_of(windows, user), tick) && is_dated(player) {
                    TracksModel {
                        tracks: with_point(
                            self.tracks,
                            user,
                            TrackPoint {
                                tick,
                                entity_id: player.entity_id,
                                generation: player.spawn_generation->0,
                                place: Some(player.place),
                                valid: is_seen(player),
                            },
                        ),
                        users,
                        camera: true,
                    }
                } else {
                    TracksModel { users, ..self }
                }
            },
        }
    }

    /// What is read after players.
    pub open spec fn with_players(
        self,
        tick: i64,
        players: Seq<PlayerSample>,
        windows: Seq<UserWindows>,
    ) -> TracksModel
        decreases players.len(),
    {
        if players.len() == 0 {
            self
        } else {
            self.with_players(tick, players.drop_last(), windows).with_player(
                tick,
                players.last(),
                windows,
            )
        }
    }

    /// What is read after a player was removed: the track breaks there.
    pub open spec fn without_player(
        self,
        tick: i64,
        entity: u32,
        windows: Seq<UserWindows>,
    ) -> TracksModel {
        if !self.users.contains_key(entity) {
            self
        } else {
            let user = self.users[entity];
            let users = self.users.remove(entity);
            if covers(windows_of(windows, user), tick) {
                let known = points_of(self.tracks, user);
                TracksModel {
                    tracks: with_point(
                        self.tracks,
                        user,
                        TrackPoint {
                            tick,
                            entity_id: entity,
                            generation: if known.len() > 0 {
                                known.last().generation
                            } else {
                                0
                            },
                            place: None,
                            valid: false,
                        },
                    ),
                    users,
                    ..self
                }
            } else {
                TracksModel { users, ..self }
            }
        }
    }

    /// What is read after players were removed.
    pub open spec fn without_players(
        self,
        tick: i64,
        entities: Seq<u32>,
        windows: Seq<UserWindows>,
    ) -> TracksModel
        decreases entities.len(),
    {
        if entities.len() == 0 {
            self
        } else {
            self.without_players(tick, entities.drop_last(), windows).without_player(
                tick,
                entities.last(),
                windows,
            )
        }
    }

    /// What is read after a line.
    pub open spec fn with_delta(self, delta: StateDelta, windows: Seq<UserWindows>) -> TracksModel {
        self.with_players(delta.demo_tick, delta.players@, windows).without_players(
            delta.demo_tick,
            delta.removed_players@,
            windows,
        )
    }

    /// Before anything is read.
    pub open spec fn nothing() -> TracksModel {
        TracksModel { tracks: Map::empty(), users: Map::empty(), camera: false }
    }
}

/// The points of each player.
pub open spec fn track_models(tracks: Map<i64, Vec<TrackPoint>>) -> Map<i64, Seq<TrackPoint>> {
    tracks.map_values(|points: Vec<TrackPoint>| points@)
}

/// Reads where players were.
#[derive(Debug)]
pub struct TrackReader {
    pub tracks: HashMap<i64, Vec<TrackPoint>>,
    pub entity_users: HashMap<u32, i64>,
    pub saw_camera_fields: bool,
}

fn push_point(tracks: &mut HashMap<i64, Vec<TrackPoint>>, user: i64, point: TrackPoint)
    ensures
        track_models(final(tracks)@) == with_point(track_models(old(tracks)@), user, point),
{
    let ghost before = tracks@;
    let mut points: Vec<TrackPoint> = match tracks.remove(&user) {
        Some(points) => points,
        None => Vec::new(),
    };
    assert(points@ =~= points_of(track_models(before), user));
    points.push(point);
    tracks.insert(user, points);
    assert(track_models(tracks@) =~= with_point(track_models(before), user, point));
}

impl TrackReader {
    /// What was read.
    pub open spec fn model(&self) -> TracksModel {
        TracksModel {
            tracks: track_models(self.tracks@),
            users: self.entity_users@,
            camera: self.saw_camera_fields,
        }
    }

    /// Before anything is read.
    pub fn new() -> (out: Self)
        ensures
            out.model() == TracksModel::nothing(),
    {
        let out = TrackReader {
            tracks: HashMap::new(),
            entity_users: HashMap::new(),
            saw_camera_fields: false,
        };
        assert(track_models(out.tracks@) =~= Map::empty());
        out
    }

    fn read_player(&mut self, tick: i64, player: &PlayerSample, windows: &Vec<UserWindows>)
        ensures
            final(self).model() == old(self).model().with_player(tick, *player, windows@),
    {
        if let Some(user) = player.user_id {
            self.entity_users.insert(player.entity_id, user);
            if !user_is_covered(windows, user, tick) {
                return ;
            }
            if let Some(generation) = player.spawn_generation {
                let fresh = match player.fresh {
                    Some(told) => told,
                    None => false,
                };
                if player.simulation_tick.is_none() || !fresh {
                    return ;
                }
                self.saw_camera_fields = true;
                let alive = same_ignoring_case(player.life_state.as_str(), "alive")
                    || same_ignoring_case(player.life_state.as_str(), "dying");
                push_point(
                    &mut self.tracks,
                    user,
                    TrackPoint {
                        tick,
                        entity_id: player.entity_id,
                        generation,
                        place: Some(player.place),
                        valid: player.in_pvs && alive && player.finite,
                    },
                );
            }
        }
    }

    fn read_removed(&mut self, tick: i64, entity: u32, windows: &Vec<UserWindows>)
        ensures
            final(self).model() == old(self).model().without_player(tick, entity, windows@),
    {
        if let Some(user) = self.entity_users.remove(&entity) {
            if user_is_covered(windows, user, tick) {
                let generation: u32 = match self.tracks.get(&user) {
                    Some(points) => if points.len() > 0 {
                        points[points.len() - 1].generation
                    } else {
                        0
                    },
                    None => 0,
                };
                push_point(
                    &mut self.tracks,
                    user,
                    TrackPoint { tick, entity_id: entity, generation, place: None, valid: false },
                );
            }
        } else {
            assert(self.entity_users@ =~= old(self).entity_users@);
        }
    }

    /// Reads a line.
    pub fn read(&mut self, delta: &StateDelta, windows: &Vec<UserWindows>)
        ensures
            final(self).model() == old(self).model().with_delta(*delta, windows@),
    {
        let ghost start = self.model();
        let tick = delta.demo_tick;
        let players = &delta.players;
        let mut i: usize = 0;
        assert(players@.take(0) =~= Seq::empty());
        while i < players.len()
            invariant
                i <= players.len(),
                self.model() == start.with_players(tick, players@.take(i as int), windows@),
            decreases players.len() - i,
        {
            assert(players@.take(i + 1).drop_last() =~= players@.take(i as int));
            self.read_player(tick, &players[i], windows);
            i += 1;
        }
        assert(players@.take(players.len() as int) =~= players@);
        let ghost told = self.model();
        let removed = &delta.removed_players;
        let mut k: usize = 0;
        assert(removed@.take(0) =~= Seq::empty());
        while k < removed.len()
            invariant
                k <= removed.len(),
                self.model() == told.without_players(tick, removed@.take(k as int), windows@),
            decreases removed.len() - k,
        {
            assert(removed@.take(k + 1).drop_last() =~= removed@.take(k as int));
            self.read_removed(tick, removed[k], windows);
            k += 1;
        }
        assert(removed@.take(removed.len() as int) =~= removed@);
    }
}

// ---------------------------------------------------------------------------
// Tracks
// ---------------------------------------------------------------------------

/// Points of which the first at each tick is kept.
pub open spec fn first_at_ticks(points: Seq<TrackPoint>) -> Seq<TrackPoint>
    decreases points.len(),
{
    if points.len() == 0 {
        Seq::empty()
    } else {
        let before = first_at_ticks(points.drop_last());
        if before.len() > 0 && before.last().tick == points.last().tick {
            before
        } else {
            before.push(points.last())
        }
    }
}

/// Whether points are in the order of their ticks, one at each.
pub open spec fn ticks_rise(points: Seq<TrackPoint>) -> bool {
    forall|i: int, j: int|
        0 <= i < j < points.len() ==> (#[trigger] points[i]).tick < (#[trigger] points[j]).tick
}

/// The track that points make.
pub open spec fn track(points: Seq<TrackPoint>) -> Seq<TrackPoint> {
    first_at_ticks(in_order(points))
}

fn make_track(points: Vec<TrackPoint>) -> (out: Vec<TrackPoint>)
    ensures
        out@ == track(points@),
{
    let sorted = arrange(points);
    let mut out: Vec<TrackPoint> = Vec::new();
    let mut i: usize = 0;
    assert(sorted@.take(0) =~= Seq::empty());
    while i < sorted.len()
        invariant
            i <= sorted.len(),
            out@ == first_at_ticks(sorted@.take(i as int)),
        decreases sorted.len() - i,
    {
        assert(sorted@.take(i + 1).drop_last() =~= sorted@.take(i as int));
        let n = out.len();
        if n > 0 && out[n - 1].tick == sorted[i].tick {
        } else {
            out.push(sorted[i]);
        }
        i += 1;
    }
    assert(sorted@.take(sorted.len() as int) =~= sorted@);
    out
}

proof fn lemma_firsts_rise(points: Seq<TrackPoint>)
    requires
        is_ordered(points),
    ensures
        ticks_rise(first_at_ticks(points)),
        points.len() > 0 ==> first_at_ticks(points).len() > 0 && first_at_ticks(
            points,
        ).last().tick == points.last().tick,
        forall|i: int|
            0 <= i < first_at_ticks(points).len() ==> points.contains(
                #[trigger] first_at_ticks(points)[i],
            ),
    decreases points.len(),
{
    if points.len() > 0 {
        let rest = points.drop_last();
        assert forall|i: int, j: int| 0 <= i < j < rest.len() implies !(#[trigger] rest[j]).before(
            #[trigger] rest[i],
        ) by {
            assert(!points[j].before(points[i]));
        }
        lemma_firsts_rise(rest);
        let before = first_at_ticks(rest);
        let out = first_at_ticks(points);
        if rest.len() > 0 {
            assert(!points[points.len() - 1].before(points[points.len() - 2]));
            assert(rest.last() == points[points.len() - 2]);
        }
        assert forall|i: int, j: int| 0 <= i < j < out.len() implies (#[trigger] out[i]).tick < (
        #[trigger] out[j]).tick by {
            if j < before.len() {
                assert(before[i].tick < before[j].tick);
            } else {
                let last = before.len() - 1;
                if i < last {
                    assert(before[i].tick < before[last].tick);
                }
            }
        }
        assert forall|i: int| 0 <= i < out.len() implies points.contains(#[trigger] out[i]) by {
            if i < before.len() {
                assert(rest.contains(before[i]));
                let k = choose|k: int| 0 <= k < rest.len() && rest[k] == before[i];
                assert(points[k] == out[i]);
            } else {
                assert(points[points.len() - 1] == out[i]);
            }
        }
    }
}

/// The points of a track are in the order of their ticks, one at each, and all of
/// them were read.
pub proof fn law_track_rises(points: Seq<TrackPoint>)
    ensures
        ticks_rise(track(points)),
        forall|i: int| 0 <= i < track(points).len() ==> points.contains(#[trigger] track(points)[i]),
{
    law_order_keeps_all(points);
    lemma_firsts_rise(in_order(points));
    let out = track(points);
    assert forall|i: int| 0 <= i < out.len() implies points.contains(#[trigger] out[i]) by {
        assert(in_order(points).contains(out[i]));
        assert(in_order(points).to_multiset().count(out[i]) > 0) by {
            in_order(points).to_multiset_ensures();
        }
        points.to_multiset_ensures();
    }
}

/// Tracks made of what was read.
pub open spec fn tracks_of(read: Map<i64, Seq<TrackPoint>>) -> Map<i64, Seq<TrackPoint>> {
    read.map_values(|points: Seq<TrackPoint>| track(points))
}

/// Whether the points of all tracks are in the order of their ticks.
pub open spec fn tracks_rise(tracks: Map<i64, Seq<TrackPoint>>) -> bool {
    forall|user: i64| #[trigger] tracks.contains_key(user) ==> ticks_rise(tracks[user])
}

/// Whether all players that were read are among some.
pub open spec fn are_listed(read: Map<i64, Seq<TrackPoint>>, windows: Seq<UserWindows>) -> bool {
    forall|user: i64| #[trigger]
        read.contains_key(user) ==> exists|i: int|
            0 <= i < windows.len() && (#[trigger] windows[i]).user_id == user
}

impl TrackReader {
    /// The tracks of the players, where anything was told that a camera can follow.
    pub fn finish(self, windows: &Vec<UserWindows>) -> (out: Result<
        HashMap<i64, Vec<TrackPoint>>,
        CameraFault,
    >)
        requires
            are_listed(self.model().tracks, windows@),
        ensures
            match out {
                Ok(tracks) => self.saw_camera_fields && track_models(tracks@) == tracks_of(
                    self.model().tracks,
                ),
                Err(fault) => !self.saw_camera_fields && fault == CameraFault::OldExport,
            },
    {
        if !self.saw_camera_fields {
            return Err(CameraFault::OldExport);
        }
        let ghost read = self.model().tracks;
        let mut left = self.tracks;
        let mut out: HashMap<i64, Vec<TrackPoint>> = HashMap::new();
        let mut i: usize = 0;
        proof {
            assert(track_models(out@) =~= Map::empty());
        }
        while i < windows.len()
            invariant
                i <= windows.len(),
                are_listed(read, windows@),
                forall|user: i64| #[trigger]
                    track_models(out@).contains_key(user) ==> read.contains_key(user)
                        && track_models(out@)[user] == track(read[user]),
                forall|user: i64| #[trigger]
                    track_models(left@).contains_key(user) ==> read.contains_key(user)
                        && track_models(left@)[user] == read[user],
                forall|user: i64| #[trigger]
                    read.contains_key(user) ==> track_models(left@).contains_key(user)
                        || track_models(out@).contains_key(user),
                forall|k: int|
                    0 <= k < i ==> !track_models(left@).contains_key(
                        (#[trigger] windows@[k]).user_id,
                    ),
            decreases windows.len() - i,
        {
            let user = windows[i].user_id;
            let ghost left_before = track_models(left@);
            let ghost out_before = track_models(out@);
            if let Some(points) = left.remove(&user) {
                assert(left_before.contains_key(user));
                out.insert(user, make_track(points));
            }
            proof {
                assert forall|other: i64| #[trigger]
                    track_models(out@).contains_key(other) implies read.contains_key(other)
                    && track_models(out@)[other] == track(read[other]) by {
                    if other != user {
                        assert(out_before.contains_key(other));
                        assert(track_models(out@)[other] == out_before[other]);
                    } else if !left_before.contains_key(user) {
                        assert(out_before.contains_key(other));
                    }
                }
                assert forall|other: i64| #[trigger]
                    track_models(left@).contains_key(other) implies read.contains_key(other)
                    && track_models(left@)[other] == read[other] by {
                    assert(left_before.contains_key(other));
                    assert(track_models(left@)[other] == left_before[other]);
                }
                assert forall|other: i64| #[trigger] read.contains_key(other) implies track_models(
                    left@,
                ).contains_key(other) || track_models(out@).contains_key(other) by {
                    if left_before.contains_key(other) && other != user {
                        assert(track_models(left@).contains_key(other));
                    } else if out_before.contains_key(other) {
                        assert(track_models(out@).contains_key(other));
                    }
                }
                assert forall|k: int| 0 <= k < i + 1 implies !track_models(left@).contains_key(
                    (#[trigger] windows@[k]).user_id,
                ) by {
                    if k < i {
                        assert(!left_before.contains_key(windows@[k].user_id));
                    }
                }
            }
            i += 1;
        }
        proof {
            assert forall|user: i64| #[trigger] read.contains_key(user) implies track_models(
                out@,
            ).contains_key(user) by {
                let k = choose|k: int|
                    0 <= k < windows@.len() && (#[trigger] windows@[k]).user_id == user;
                assert(!track_models(left@).contains_key(windows@[k].user_id));
            }
            assert(track_models(out@) =~= tracks_of(read));
        }
        Ok(out)
    }
}

proof fn lemma_covered_is_listed(windows: Seq<UserWindows>, user: i64)
    requires
        windows_of(windows, user).len() > 0,
    ensures
        exists|i: int| 0 <= i < windows.len() && (#[trigger] windows[i]).user_id == user,
    decreases windows.len(),
{
    if windows.len() > 0 {
        if windows.last().user_id == user {
            assert(windows[windows.len() - 1].user_id == user);
        } else {
            lemma_covered_is_listed(windows.drop_last(), user);
            let i = choose|i: int|
                0 <= i < windows.drop_last().len() && (#[trigger] windows.drop_last()[i]).user_id
                    == user;
            assert(windows[i].user_id == user);
        }
    }
}

proof fn lemma_point_is_listed(
    tracks: Map<i64, Seq<TrackPoint>>,
    user: i64,
    point: TrackPoint,
    tick: i64,
    windows: Seq<UserWindows>,
)
    requires
        are_listed(tracks, windows),
        covers(windows_of(windows, user), tick),
    ensures
        are_listed(with_point(tracks, user, point), windows),
{
    lemma_covered_is_listed(windows, user);
}

proof fn lemma_players_are_listed(
    start: TracksModel,
    tick: i64,
    players: Seq<PlayerSample>,
    windows: Seq<UserWindows>,
)
    requires
        are_listed(start.tracks, windows),
    ensures
        are_listed(start.with_players(tick, players, windows).tracks, windows),
    decreases players.len(),
{
    if players.len() > 0 {
        let before = start.with_players(tick, players.drop_last(), windows);
        lemma_players_are_listed(start, tick, players.drop_last(), windows);
        let player = players.last();
        if let Some(user) = player.user_id {
            if covers(windows_of(windows, user), tick) {
                lemma_point_is_listed(
                    before.tracks,
                    user,
                    TrackPoint {
                        tick,
                        entity_id: player.entity_id,
                        generation: player.spawn_generation->0,
                        place: Some(player.place),
                        valid: is_seen(player),
                    },
                    tick,
                    windows,
                );
            }
        }
    }
}

proof fn lemma_removed_are_listed(
    start: TracksModel,
    tick: i64,
    entities: Seq<u32>,
    windows: Seq<UserWindows>,
)
    requires
        are_listed(start.tracks, windows),
    ensures
        are_listed(start.without_players(tick, entities, windows).tracks, windows),
    decreases entities.len(),
{
    if entities.len() > 0 {
        let before = start.without_players(tick, entities.drop_last(), windows);
        lemma_removed_are_listed(start, tick, entities.drop_last(), windows);
        let entity = entities.last();
        if before.users.contains_key(entity) {
            let user = before.users[entity];
            if covers(windows_of(windows, user), tick) {
                let known = points_of(before.tracks, user);
                lemma_point_is_listed(
                    before.tracks,
                    user,
                    TrackPoint {
                        tick,
                        entity_id: entity,
                        generation: if known.len() > 0 {
                            known.last().generation
                        } else {
                            0
                        },
                        place: None,
                        valid: false,
                    },
                    tick,
                    windows,
                );
            }
        }
    }
}

/// Only players that are asked for have a track.
pub proof fn law_only_asked_players_are_read(
    start: TracksModel,
    delta: StateDelta,
    windows: Seq<UserWindows>,
)
    requires
        are_listed(start.tracks, windows),
    ensures
        are_listed(start.with_delta(delta, windows).tracks, windows),
{
    lemma_players_are_listed(start, delta.demo_tick, delta.players@, windows);
    lemma_removed_are_listed(
        start.with_players(delta.demo_tick, delta.players@, windows),
        delta.demo_tick,
        delta.removed_players@,
        windows,
    );
}

/// What is read of lines.
pub open spec fn lines_read(lines: Seq<StateDelta>, windows: Seq<UserWindows>) -> TracksModel
    decreases lines.len(),
{
    if lines.len() == 0 {
        TracksModel::nothing()
    } else {
        lines_read(lines.drop_last(), windows).with_delta(lines.last(), windows)
    }
}

/// The tracks of the players that are asked for, out of the lines of a demo.
pub fn read_tracks(lines: &Vec<StateDelta>, windows: &Vec<UserWindows>) -> (out: Result<
    HashMap<i64, Vec<TrackPoint>>,
    CameraFault,
>)
    ensures
        match out {
            Ok(tracks) => lines_read(lines@, windows@).camera && track_models(tracks@)
                == tracks_of(lines_read(lines@, windows@).tracks) && tracks_rise(
                track_models(tracks@),
            ),
            Err(fault) => !lines_read(lines@, windows@).camera && fault == CameraFault::OldExport,
        },
{
    let mut reader = TrackReader::new();
    let mut i: usize = 0;
    assert(lines@.take(0) =~= Seq::empty());
    while i < lines.len()
        invariant
            i <= lines.len(),
            reader.model() == lines_read(lines@.take(i as int), windows@),
            are_listed(reader.model().tracks, windows@),
        decreases lines.len() - i,
    {
        proof {
            assert(lines@.take(i + 1).drop_last() =~= lines@.take(i as int));
            law_only_asked_players_are_read(reader.model(), lines@[i as int], windows@);
        }
        reader.read(&lines[i], windows);
        i += 1;
    }
    proof {
        assert(lines@.take(lines.len() as int) =~= lines@);
        let read = reader.model().tracks;
        assert forall|user: i64| #[trigger] tracks_of(read).contains_key(user) implies ticks_rise(
            tracks_of(read)[user],
        ) by {
            law_track_rises(read[user]);
        }
    }
    reader.finish(windows)
}

// ---------------------------------------------------------------------------
// Unbroken tracks
// ---------------------------------------------------------------------------

/// How many points come at a tick or before it.
pub open spec fn points_upto(points: Seq<TrackPoint>, tick: int) -> int
    decreases points.len(),
{
    if points.len() == 0 {
        0
    } else if points.last().tick <= tick {
        points.len() as int
    } else {
        points_upto(points.drop_last(), tick)
    }
}

fn count_upto(points: &Vec<TrackPoint>, tick: i64) -> (out: usize)
    ensures
        out == points_upto(points@, tick as int),
        out <= points.len(),
        out > 0 ==> points@[out - 1].tick <= tick,
        forall|k: int| out <= k < points.len() ==> (#[trigger] points@[k]).tick > tick,
{
    let mut i: usize = points.len();
    assert(points@.take(points.len() as int) =~= points@);
    while i > 0
        invariant
            i <= points.len(),
            points_upto(points@, tick as int) == points_upto(points@.take(i as int), tick as int),
            forall|k: int| i <= k < points.len() ==> (#[trigger] points@[k]).tick > tick,
        decreases i,
    {
        proof {
            assert(points@.take(i as int).drop_last() =~= points@.take(i - 1));
            assert(points@.take(i as int).last() == points@[i - 1]);
        }
        if points[i - 1].tick <= tick {
            return i;
        }
        i -= 1;
    }
    assert(points@.take(0) =~= Seq::empty());
    0
}

/// Whether there is no break between two points of one life of a player.
pub open spec fn linked(
    left: TrackPoint,
    right: TrackPoint,
    anchor: TrackPoint,
    max_gap: int,
) -> bool {
    &&& left.valid && right.valid
    &&& left.generation == anchor.generation && right.generation == anchor.generation
    &&& left.entity_id == anchor.entity_id && right.entity_id == anchor.entity_id
    &&& right.tick - left.tick <= max_gap
}

/// The first of the points before one from which there is no break, as far as one
/// at or before a tick is reached.
pub open spec fn unbroken_from(
    points: Seq<TrackPoint>,
    at: int,
    anchor: TrackPoint,
    requested: int,
    max_gap: int,
) -> int
    decreases at,
{
    if at <= 0 || !linked(points[at - 1], points[at], anchor, max_gap) {
        at
    } else if points[at - 1].tick <= requested {
        at - 1
    } else {
        unbroken_from(points, at - 1, anchor, requested, max_gap)
    }
}

/// The tick from which a player is followed without a break up to a tick, not
/// before the tick that is asked for.
pub open spec fn start_of(
    points: Seq<TrackPoint>,
    requested: i64,
    end: i64,
    max_gap: int,
    role: TrackRole,
) -> Result<i64, CameraFault> {
    let known = points_upto(points, end as int);
    if known == 0 {
        Err(CameraFault::NoSamples)
    } else {
        let anchor = points[known - 1];
        if !anchor.valid || end - anchor.tick > max_gap {
            Err(CameraFault::NotNetworked { role, missing_ticks: (end - anchor.tick) as u64 })
        } else {
            let first = points[unbroken_from(points, known - 1, anchor, requested as int, max_gap)];
            Ok(
                if first.tick > requested {
                    first.tick
                } else {
                    requested
                },
            )
        }
    }
}

/// The tick from which a player is followed without a break up to a tick, not
/// before the tick that is asked for.
pub fn continuous_track_start(
    points: &Vec<TrackPoint>,
    requested_start: i64,
    end: i64,
    max_gap: i64,
    role: TrackRole,
) -> (out: Result<i64, CameraFault>)
    ensures
        out == start_of(points@, requested_start, end, max_gap as int, role),
{
    let known = count_upto(points, end);
    if known == 0 {
        return Err(CameraFault::NoSamples);
    }
    let anchor = points[known - 1];
    let missing: i128 = end as i128 - anchor.tick as i128;
    if !anchor.valid || missing > max_gap as i128 {
        return Err(CameraFault::NotNetworked { role, missing_ticks: missing as u64 });
    }
    let mut at: usize = known - 1;
    let mut done = false;
    while at > 0 && !done
        invariant
            at < known <= points.len(),
            !done ==> unbroken_from(
                points@,
                known - 1,
                anchor,
                requested_start as int,
                max_gap as int,
            ) == unbroken_from(points@, at as int, anchor, requested_start as int, max_gap as int),
            done ==> unbroken_from(
                points@,
                known - 1,
                anchor,
                requested_start as int,
                max_gap as int,
            ) == at,
        decreases at + (if done { 0int } else { 1int }),
    {
        let left = points[at - 1];
        let right = points[at];
        let gap: i128 = right.tick as i128 - left.tick as i128;
        if left.valid && right.valid && left.generation == anchor.generation && right.generation
            == anchor.generation && left.entity_id == anchor.entity_id && right.entity_id
            == anchor.entity_id && gap <= max_gap as i128 {
            at -= 1;
            if left.tick <= requested_start {
                done = true;
            }
        } else {
            done = true;
        }
    }
    let first = points[at].tick;
    Ok(
        if first > requested_start {
            first
        } else {
            requested_start
        },
    )
}

/// Whether there is no break between two points.
pub open spec fn is_unbroken(
    points: Seq<TrackPoint>,
    first: int,
    last: int,
    anchor: TrackPoint,
    max_gap: int,
) -> bool {
    forall|k: int|
        first < k <= last ==> linked(points[k - 1], #[trigger] points[k], anchor, max_gap)
}

proof fn lemma_unbroken(
    points: Seq<TrackPoint>,
    at: int,
    anchor: TrackPoint,
    requested: int,
    max_gap: int,
)
    requires
        0 <= at < points.len(),
    ensures
        0 <= unbroken_from(points, at, anchor, requested, max_gap) <= at,
        is_unbroken(
            points,
            unbroken_from(points, at, anchor, requested, max_gap),
            at,
            anchor,
            max_gap,
        ),
    decreases at,
{
    if at <= 0 || !linked(points[at - 1], points[at], anchor, max_gap) {
    } else if points[at - 1].tick <= requested {
    } else {
        lemma_unbroken(points, at - 1, anchor, requested, max_gap);
    }
}

/// From the tick that is found on a player is seen without a break: there is a
/// point at or before it from which each follows the last within the gap, in one
/// life of the player, up to the last point before the end.
pub proof fn law_track_start_is_unbroken(
    points: Seq<TrackPoint>,
    requested: i64,
    end: i64,
    max_gap: int,
    role: TrackRole,
)
    requires
        start_of(points, requested, end, max_gap, role) is Ok,
    ensures
        ({
            let start = start_of(points, requested, end, max_gap, role)->Ok_0;
            let last = points_upto(points, end as int) - 1;
            &&& start >= requested
            &&& 0 <= last < points.len() && end - points[last].tick <= max_gap
            &&& exists|first: int|
                0 <= first <= last && (#[trigger] points[first]).tick <= start && is_unbroken(
                    points,
                    first,
                    last,
                    points[last],
                    max_gap,
                )
        }),
{
    let last = points_upto(points, end as int) - 1;
    lemma_points_upto(points, end as int);
    lemma_unbroken(points, last, points[last], requested as int, max_gap);
    let first = unbroken_from(points, last, points[last], requested as int, max_gap);
    assert(points[first].tick <= start_of(points, requested, end, max_gap, role)->Ok_0);
}

proof fn lemma_points_upto(points: Seq<TrackPoint>, tick: int)
    ensures
        0 <= points_upto(points, tick) <= points.len(),
    decreases points.len(),
{
    if points.len() > 0 && points.last().tick > tick {
        lemma_points_upto(points.drop_last(), tick);
    }
}

// ---------------------------------------------------------------------------
// Positions
// ---------------------------------------------------------------------------

/// Which points tell where a player was at a tick.
#[derive(Clone, Copy, Debug, PartialEq, Eq, Structural)]
pub enum TrackPosition {
    /// Between two points.
    Between { left: usize, right: usize },
    /// At one point.
    At { point: usize },
}

/// Whether a point tells where a player was at a tick.
pub open spec fn tells(point: TrackPoint, tick: int, max_gap: int) -> bool {
    point.valid && -max_gap <= tick - point.tick <= max_gap
}

/// Which points tell where a player was at a tick.
pub open spec fn position_at(
    points: Seq<TrackPoint>,
    tick: i64,
    max_gap: int,
    role: TrackRole,
) -> Result<TrackPosition, CameraFault> {
    let upper = points_upto(points, tick - 1);
    let has_left = upper > 0;
    let has_right = upper < points.len();
    let left = points[upper - 1];
    let right = points[upper];
    if has_left && has_right && left.valid && right.valid && left.entity_id == right.entity_id
        && left.generation == right.generation && tick - left.tick <= max_gap && right.tick - tick
        <= max_gap {
        Ok(TrackPosition::Between { left: (upper - 1) as usize, right: upper as usize })
    } else if has_left && tells(left, tick as int, max_gap) {
        Ok(TrackPosition::At { point: (upper - 1) as usize })
    } else if has_right && tells(right, tick as int, max_gap) {
        Ok(TrackPosition::At { point: upper as usize })
    } else {
        Err(CameraFault::NoPosition { role, tick })
    }
}

fn point_tells(point: TrackPoint, tick: i64, max_gap: i64) -> (r: bool)
    ensures
        r == tells(point, tick as int, max_gap as int),
{
    let apart: i128 = tick as i128 - point.tick as i128;
    point.valid && apart <= max_gap as i128 && -(max_gap as i128) <= apart
}

/// Which points tell where a player was at a tick.
pub fn find_position(points: &Vec<TrackPoint>, tick: i64, max_gap: i64, role: TrackRole) -> (out:
    Result<TrackPosition, CameraFault>)
    ensures
        out == position_at(points@, tick, max_gap as int, role),
{
    let upper: usize = if tick == i64::MIN {
        proof {
            lemma_none_before(points@);
        }
        0
    } else {
        count_upto(points, tick - 1)
    };
    if upper > 0 && upper < points.len() {
        let left = points[upper - 1];
        let right = points[upper];
        let since: i128 = tick as i128 - left.tick as i128;
        let until: i128 = right.tick as i128 - tick as i128;
        if left.valid && right.valid && left.entity_id == right.entity_id && left.generation
            == right.generation && since <= max_gap as i128 && until <= max_gap as i128 {
            return Ok(TrackPosition::Between { left: upper - 1, right: upper });
        }
    }
    if upper > 0 && point_tells(points[upper - 1], tick, max_gap) {
        return Ok(TrackPosition::At { point: upper - 1 });
    }
    if upper < points.len() && point_tells(points[upper], tick, max_gap) {
        return Ok(TrackPosition::At { point: upper });
    }
    Err(CameraFault::NoPosition { role, tick })
}

proof fn lemma_none_before(points: Seq<TrackPoint>)
    ensures
        points_upto(points, i64::MIN - 1) == 0,
    decreases points.len(),
{
    if points.len() > 0 {
        lemma_none_before(points.drop_last());
    }
}

/// A sample of a player becomes a point of their track where they are followed and the
/// sample is fresh; the point tells a place where the player was in view, alive or dying,
/// and somewhere.
pub proof fn law_fresh_samples_become_points(
    model: TracksModel,
    tick: i64,
    player: PlayerSample,
    windows: Seq<UserWindows>,
    user: i64,
)
    requires
        player.user_id == Some(user),
    ensures
        ({
            let after = points_of(model.with_player(tick, player, windows).tracks, user);
            let before = points_of(model.tracks, user);
            if covers(windows_of(windows, user), tick) && player.fresh == Some(true)
                && player.spawn_generation is Some && player.simulation_tick is Some {
                &&& after.drop_last() == before && after.len() == before.len() + 1
                &&& after.last().tick == tick && after.last().entity_id == player.entity_id
                &&& Some(after.last().generation) == player.spawn_generation
                &&& after.last().place == Some(player.place)
                &&& after.last().valid <==> player.in_pvs && player.finite && (same_fold(
                    player.life_state@,
                    "alive"@,
                ) || same_fold(player.life_state@, "dying"@))
            } else {
                after == before
            }
        }),
        forall|other: i64|
            other != user ==> #[trigger] points_of(
                model.with_player(tick, player, windows).tracks,
                other,
            ) == points_of(model.tracks, other),
{
    let after = points_of(model.with_player(tick, player, windows).tracks, user);
    let before = points_of(model.tracks, user);
    if covers(windows_of(windows, user), tick) && is_dated(player) {
        assert(after.drop_last() =~= before);
    }
}

proof fn lemma_points_in_turn(points: Seq<TrackPoint>, tick: int)
    requires
        ticks_rise(points),
    ensures
        0 <= points_upto(points, tick) <= points.len(),
        forall|i: int| 0 <= i < points.len() ==> ((#[trigger] points[i]).tick <= tick <==> i < points_upto(points, tick)),
    decreases points.len(),
{
    if points.len() > 0 && points.last().tick > tick {
        let rest = points.drop_last();
        assert(ticks_rise(rest)) by {
            assert forall|i: int, j: int| 0 <= i < j < rest.len() implies (#[trigger] rest[i]).tick
                < (#[trigger] rest[j]).tick by {
                assert(points[i].tick < points[j].tick);
            }
        }
        lemma_points_in_turn(rest, tick);
        assert forall|i: int| 0 <= i < points.len() implies ((#[trigger] points[i]).tick <= tick
            <==> i < points_upto(points, tick)) by {
            if i < rest.len() {
                assert(rest[i] == points[i]);
            }
        }
    } else if points.len() > 0 {
        assert forall|i: int| 0 <= i < points.len() implies (#[trigger] points[i]).tick <= tick by {
            if i < points.len() - 1 {
                assert(points[i].tick < points[points.len() - 1].tick);
            }
        }
    }
}

/// A place is told between the two points around a tick, of one and the same life, or at a
/// point nearby, never further away than the gap allows; a player who was seen at the tick
/// itself has a place.
pub proof fn law_places_are_told_from_nearby(
    points: Seq<TrackPoint>,
    tick: i64,
    max_gap: int,
    role: TrackRole,
)
    requires
        ticks_rise(points),
        points.len() <= usize::MAX,
        max_gap >= 0,
        tick > i64::MIN,
    ensures
        position_at(points, tick, max_gap, role) matches Ok(TrackPosition::Between { left, right })
            ==> {
            &&& right == left + 1 && right < points.len()
            &&& points[left as int].tick < tick <= points[right as int].tick
            &&& tick - points[left as int].tick <= max_gap && points[right as int].tick - tick
                <= max_gap
            &&& points[left as int].valid && points[right as int].valid
            &&& points[left as int].generation == points[right as int].generation
            &&& points[left as int].entity_id == points[right as int].entity_id
        },
        position_at(points, tick, max_gap, role) matches Ok(TrackPosition::At { point }) ==> point
            < points.len() && points[point as int].valid && -max_gap <= tick
            - points[point as int].tick <= max_gap,
        forall|i: int|
            0 <= i < points.len() && (#[trigger] points[i]).tick == tick && points[i].valid
                ==> position_at(points, tick, max_gap, role) is Ok,
{
    lemma_points_in_turn(points, tick - 1);
    let upper = points_upto(points, tick - 1);
    assert forall|i: int|
        0 <= i < points.len() && (#[trigger] points[i]).tick == tick && points[i].valid implies position_at(
        points,
        tick,
        max_gap,
        role,
    ) is Ok by {
        if i > upper {
            assert(points[upper].tick < points[i].tick);
        }
    }
}

} // verus!

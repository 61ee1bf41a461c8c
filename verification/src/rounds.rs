//! The rounds of a match, told from the events that start and end them.
use vstd::prelude::*;
use crate::events::{canonical_team_value, int_among, int_field, team_of, EventRecord};
use crate::number::{i64_text, int_text};
use crate::record::{bool_of, lookup};
use crate::text::same_text;

verus! {

/// A stretch of live play. The parameter is the kind of text that names events.
#[derive(Debug)]
pub struct Round<T> {
    pub index: i64,
    pub start: i64,
    pub end: i64,
    pub round_active_tick: i64,
    pub start_event: T,
    pub end_event: T,
    pub winning_team: i64,
    pub ready_up: bool,
    pub red_ready_tick: Option<i64>,
    pub blu_ready_tick: Option<i64>,
    pub ready_restart_tick: Option<i64>,
    pub countdown_tick: Option<i64>,
    pub setup_finished_tick: Option<i64>,
    pub activation_trigger: T,
}

impl Round<String> {
    /// The round with what its texts hold.
    pub open spec fn model(&self) -> Round<Seq<char>> {
        Round {
            index: self.index,
            start: self.start,
            end: self.end,
            round_active_tick: self.round_active_tick,
            start_event: self.start_event@,
            end_event: self.end_event@,
            winning_team: self.winning_team,
            ready_up: self.ready_up,
            red_ready_tick: self.red_ready_tick,
            blu_ready_tick: self.blu_ready_tick,
            ready_restart_tick: self.ready_restart_tick,
            countdown_tick: self.countdown_tick,
            setup_finished_tick: self.setup_finished_tick,
            activation_trigger: self.activation_trigger@,
        }
    }

    /// Whether a tick lies in the round.
    pub fn contains(&self, tick: i64) -> (r: bool)
        ensures
            r == self.model().holds(tick),
    {
        tick >= self.start && tick < self.end
    }
}

impl Round<Seq<char>> {
    /// Whether a tick lies in the round.
    pub open spec fn holds(self, tick: i64) -> bool {
        self.start <= tick < self.end
    }
}

/// What rounds hold.
pub open spec fn round_models(rounds: Seq<Round<String>>) -> Seq<Round<Seq<char>>> {
    Seq::new(rounds.len(), |i: int| rounds[i].model())
}

/// How far the rounds are told at some point of the match.
pub struct RoundProgress {
    pub rounds: Seq<Round<Seq<char>>>,
    pub current: Option<Round<Seq<char>>>,
    /// The event that announced the next round, and its tick.
    pub pending: Option<(i64, Seq<char>)>,
    pub red_ready: bool,
    pub blu_ready: bool,
    pub red_ready_tick: Option<i64>,
    pub blu_ready_tick: Option<i64>,
    pub ready_restart_tick: Option<i64>,
    pub countdown_tick: Option<i64>,
}

/// Before the first event.
pub open spec fn no_progress() -> RoundProgress {
    RoundProgress {
        rounds: Seq::empty(),
        current: None,
        pending: None,
        red_ready: false,
        blu_ready: false,
        red_ready_tick: None,
        blu_ready_tick: None,
        ready_restart_tick: None,
        countdown_tick: None,
    }
}

/// The events that announce a round.
pub open spec fn announces(kind: Seq<char>) -> bool {
    kind == "teamplay_round_start"@ || kind == "teamplay_restart_round"@ || kind
        == "teamplay_ready_restart"@ || kind == "teamplay_round_restart_seconds"@ || kind
        == "teamplay_waiting_ends"@ || kind == "round_start"@
}

/// The events that decide a round.
pub open spec fn decides(kind: Seq<char>) -> bool {
    kind == "teamplay_round_win"@ || kind == "teamplay_round_stalemate"@ || kind
        == "teamplay_game_over"@ || kind == "tf_game_over"@ || kind == "game_end"@ || kind
        == "round_end"@
}

impl RoundProgress {
    /// The round at play is over; it counts where it has any length.
    pub open spec fn closed(self, end: i64, event: Seq<char>, winner: Option<i64>) -> RoundProgress {
        match self.current {
            None => self,
            Some(round) => {
                let done = Round {
                    end,
                    end_event: event,
                    winning_team: match winner {
                        Some(team) => team,
                        None => round.winning_team,
                    },
                    ..round
                };
                RoundProgress {
                    rounds: if done.end > done.start {
                        self.rounds.push(done)
                    } else {
                        self.rounds
                    },
                    current: None,
                    ..self
                }
            },
        }
    }

    /// Nobody is ready.
    pub open spec fn unready(self) -> RoundProgress {
        RoundProgress {
            red_ready: false,
            blu_ready: false,
            red_ready_tick: None,
            blu_ready_tick: None,
            ready_restart_tick: None,
            countdown_tick: None,
            ..self
        }
    }

    /// The progress after one more event.
    pub open spec fn after(self, event: EventRecord) -> RoundProgress {
        let kind = event.kind();
        let tick = event.at();
        if kind == "teamplay_team_ready"@ {
            let ready = bool_of(lookup(event.data(), "ready"@)) != Some(false);
            let when = if ready {
                Some(tick)
            } else {
                None
            };
            let team = int_field(event.data(), "team"@);
            if team == 2 {
                RoundProgress { red_ready: ready, red_ready_tick: when, ..self }
            } else if team == 3 {
                RoundProgress { blu_ready: ready, blu_ready_tick: when, ..self }
            } else {
                self
            }
        } else if announces(kind) {
            let over = self.closed(tick, kind, None);
            RoundProgress {
                ready_restart_tick: if kind == "teamplay_ready_restart"@ {
                    Some(tick)
                } else {
                    over.ready_restart_tick
                },
                countdown_tick: if kind == "teamplay_round_restart_seconds"@ {
                    Some(tick)
                } else {
                    over.countdown_tick
                },
                pending: Some((tick, kind)),
                ..over
            }
        } else if kind == "teamplay_round_active"@ {
            match self.pending {
                None => self,
                Some((trigger_tick, trigger)) => {
                    let over = self.closed(tick, "superseded_by_round_active"@, None);
                    RoundProgress {
                        pending: None,
                        current: Some(
                            Round {
                                index: (over.rounds.len() + 1) as i64,
                                start: tick,
                                end: 0,
                                round_active_tick: tick,
                                start_event: "teamplay_round_active"@,
                                end_event: Seq::empty(),
                                winning_team: 0,
                                ready_up: self.red_ready && self.blu_ready,
                                red_ready_tick: self.red_ready_tick,
                                blu_ready_tick: self.blu_ready_tick,
                                ready_restart_tick: self.ready_restart_tick,
                                countdown_tick: self.countdown_tick,
                                setup_finished_tick: None,
                                activation_trigger: trigger + "@"@ + int_text(trigger_tick as int),
                            },
                        ),
                        ..over.unready()
                    }
                },
            }
        } else if kind == "teamplay_setup_finished"@ {
            match self.current {
                None => self,
                Some(round) => RoundProgress {
                    current: Some(
                        Round {
                            start: tick,
                            start_event: kind,
                            setup_finished_tick: Some(tick),
                            ..round
                        },
                    ),
                    ..self
                },
            }
        } else if decides(kind) {
            RoundProgress {
                pending: None,
                ..self.closed(
                    tick,
                    kind,
                    Some(int_among(event.data(), "team"@, "winning_team"@) as i64),
                ).unready()
            }
        } else if kind == "teamplay_waiting_begins"@ {
            RoundProgress { pending: None, ..self.closed(tick, kind, None).unready() }
        } else {
            self
        }
    }
}

/// The progress after a list of events.
pub open spec fn progress_after(events: Seq<EventRecord>) -> RoundProgress
    decreases events.len(),
{
    if events.len() == 0 {
        no_progress()
    } else {
        progress_after(events.drop_last()).after(events.last())
    }
}

/// The tick at which a demo is over.
pub open spec fn demo_end(events: Seq<EventRecord>, header_ticks: i64) -> int {
    let after_last = events.last().at() + 1;
    if header_ticks >= after_last {
        header_ticks as int
    } else {
        after_last
    }
}

/// The team that a player joined last among the first events.
pub open spec fn joined_team(events: Seq<EventRecord>, user: int) -> Seq<char>
    decreases events.len(),
{
    if events.len() == 0 {
        Seq::empty()
    } else {
        let event = events.last();
        let team = team_of(lookup(event.data(), "team"@));
        if event.kind() == "player_team"@ && event.user() == user && user > 0 && team.len() > 0 {
            team
        } else {
            joined_team(events.drop_last(), user)
        }
    }
}

/// Whether an event is a kill between players that are known to be on opposing
/// teams.
pub open spec fn opposing_kill(events: Seq<EventRecord>, i: int) -> bool {
    let event = events[i];
    let attacker = int_field(event.data(), "attacker"@);
    let victim = event.user();
    let attacker_team = joined_team(events.take(i), attacker);
    let victim_team = joined_team(events.take(i), victim);
    &&& event.kind() == "player_death"@
    &&& attacker > 0
    &&& victim > 0
    &&& attacker != victim
    &&& attacker_team.len() > 0
    &&& victim_team.len() > 0
    &&& attacker_team != victim_team
}

/// The first such kill.
pub open spec fn first_opposing_kill(events: Seq<EventRecord>, i: int) -> bool {
    &&& 0 <= i < events.len()
    &&& opposing_kill(events, i)
    &&& forall|j: int| 0 <= j < i ==> !opposing_kill(events, j)
}

/// The round of a demo that shows public play from the middle of a match.
pub open spec fn public_round(start: i64, end: i64) -> Round<Seq<char>> {
    Round {
        index: 1,
        start,
        end,
        round_active_tick: start,
        start_event: "in_progress_public_server"@,
        end_event: "demo_end_while_public_play_active"@,
        winning_team: 0,
        ready_up: false,
        red_ready_tick: None,
        blu_ready_tick: None,
        ready_restart_tick: None,
        countdown_tick: None,
        setup_finished_tick: None,
        activation_trigger: "state_confirmed_opposing_team_death@"@ + int_text(start as int),
    }
}

/// The rounds told by the events that start and end them.
pub open spec fn told_rounds(events: Seq<EventRecord>, header_ticks: i64) -> Seq<Round<Seq<char>>> {
    let all = progress_after(events);
    match all.current {
        None => all.rounds,
        Some(_) => all.closed(
            demo_end(events, header_ticks) as i64,
            "demo_end_while_event_confirmed_round_active"@,
            None,
        ).rounds,
    }
}

/// Whether some event has a name.
pub open spec fn any_event(events: Seq<EventRecord>, kind: Seq<char>) -> bool {
    exists|i: int| 0 <= i < events.len() && (#[trigger] events[i]).kind() == kind
}

/// The rounds of a match. Where no round is told and none was ever active, play
/// starts with the first kill between players on opposing teams.
pub open spec fn rounds_of(events: Seq<EventRecord>, header_ticks: i64) -> Seq<Round<Seq<char>>> {
    let told = told_rounds(events, header_ticks);
    if told.len() > 0 || any_event(events, "teamplay_round_active"@) {
        told
    } else if exists|i: int| first_opposing_kill(events, i) {
        let i = choose|i: int| first_opposing_kill(events, i);
        seq![public_round(events[i].at(), demo_end(events, header_ticks) as i64)]
    } else {
        told
    }
}

/// Whether the ticks of a match leave room for one more.
pub open spec fn ticks_leave_room(events: Seq<EventRecord>) -> bool {
    &&& events.len() < 0x7fff_ffff_ffff_ffff
    &&& forall|i: int| 0 <= i < events.len() ==> (#[trigger] events[i]).at() < i64::MAX
}

struct RoundTracker {
    rounds: Vec<Round<String>>,
    current: Option<Round<String>>,
    pending: Option<(i64, String)>,
    red_ready: bool,
    blu_ready: bool,
    red_ready_tick: Option<i64>,
    blu_ready_tick: Option<i64>,
    ready_restart_tick: Option<i64>,
    countdown_tick: Option<i64>,
}

impl RoundTracker {
    spec fn model(&self) -> RoundProgress {
        RoundProgress {
            rounds: round_models(self.rounds@),
            current: match self.current {
                Some(round) => Some(round.model()),
                None => None,
            },
            pending: match self.pending {
                Some(p) => Some((p.0, p.1@)),
                None => None,
            },
            red_ready: self.red_ready,
            blu_ready: self.blu_ready,
            red_ready_tick: self.red_ready_tick,
            blu_ready_tick: self.blu_ready_tick,
            ready_restart_tick: self.ready_restart_tick,
            countdown_tick: self.countdown_tick,
        }
    }

    fn close(&mut self, end: i64, event: &str, winner: Option<i64>)
        ensures
            final(self).model() == old(self).model().closed(end, event@, winner),
            final(self).rounds.len() <= old(self).rounds.len() + 1,
            old(self).current is None ==> final(self).rounds.len() == old(self).rounds.len(),
    {
        let ghost before = self.rounds@;
        let taken = self.current.take();
        match taken {
            None => {},
            Some(round) => {
                let winning_team: i64 = match winner {
                    Some(team) => team,
                    None => round.winning_team,
                };
                let start: i64 = round.start;
                let done = Round {
                    index: round.index,
                    start: round.start,
                    end,
                    round_active_tick: round.round_active_tick,
                    start_event: round.start_event,
                    end_event: event.to_owned(),
                    winning_team,
                    ready_up: round.ready_up,
                    red_ready_tick: round.red_ready_tick,
                    blu_ready_tick: round.blu_ready_tick,
                    ready_restart_tick: round.ready_restart_tick,
                    countdown_tick: round.countdown_tick,
                    setup_finished_tick: round.setup_finished_tick,
                    activation_trigger: round.activation_trigger,
                };
                if end > start {
                    self.rounds.push(done);
                    assert(round_models(self.rounds@) =~= round_models(before).push(done.model()));
                }
            },
        }
    }

    fn clear_ready(&mut self)
        ensures
            final(self).model() == old(self).model().unready(),
            final(self).rounds.len() == old(self).rounds.len(),
    {
        self.red_ready = false;
        self.blu_ready = false;
        self.red_ready_tick = None;
        self.blu_ready_tick = None;
        self.ready_restart_tick = None;
        self.countdown_tick = None;
    }

    fn activate(&mut self, tick: i64)
        requires
            old(self).rounds.len() < 0x7fff_ffff_ffff_fffe,
            old(self).pending is Some,
        ensures
            final(self).model() == ({
                let before = old(self).model();
                let over = before.closed(tick, "superseded_by_round_active"@, None);
                let (trigger_tick, trigger) = before.pending->0;
                RoundProgress {
                    pending: None,
                    current: Some(
                        Round {
                            index: (over.rounds.len() + 1) as i64,
                            start: tick,
                            end: 0,
                            round_active_tick: tick,
                            start_event: "teamplay_round_active"@,
                            end_event: Seq::empty(),
                            winning_team: 0,
                            ready_up: before.red_ready && before.blu_ready,
                            red_ready_tick: before.red_ready_tick,
                            blu_ready_tick: before.blu_ready_tick,
                            ready_restart_tick: before.ready_restart_tick,
                            countdown_tick: before.countdown_tick,
                            setup_finished_tick: None,
                            activation_trigger: trigger + "@"@ + int_text(trigger_tick as int),
                        },
                    ),
                    ..over.unready()
                }
            }),
            final(self).rounds.len() <= old(self).rounds.len() + 1,
    {
        let taken = self.pending.take();
        if let Some((trigger_tick, trigger)) = taken {
            self.close(tick, "superseded_by_round_active", None);
            let mut activation_trigger = trigger;
            activation_trigger.append("@");
            activation_trigger.append(i64_text(trigger_tick).as_str());
            let round = Round {
                index: self.rounds.len() as i64 + 1,
                start: tick,
                end: 0,
                round_active_tick: tick,
                start_event: "teamplay_round_active".to_owned(),
                end_event: String::new(),
                winning_team: 0,
                ready_up: self.red_ready && self.blu_ready,
                red_ready_tick: self.red_ready_tick,
                blu_ready_tick: self.blu_ready_tick,
                ready_restart_tick: self.ready_restart_tick,
                countdown_tick: self.countdown_tick,
                setup_finished_tick: None,
                activation_trigger,
            };
            self.current = Some(round);
            self.clear_ready();
        }
    }

    fn finish_setup(&mut self, tick: i64)
        ensures
            final(self).model() == (match old(self).model().current {
                None => old(self).model(),
                Some(round) => RoundProgress {
                    current: Some(
                        Round {
                            start: tick,
                            start_event: "teamplay_setup_finished"@,
                            setup_finished_tick: Some(tick),
                            ..round
                        },
                    ),
                    ..old(self).model()
                },
            }),
            final(self).rounds.len() == old(self).rounds.len(),
    {
        let taken = self.current.take();
        if let Some(mut round) = taken {
            round.start = tick;
            round.start_event = "teamplay_setup_finished".to_owned();
            round.setup_finished_tick = Some(tick);
            self.current = Some(round);
        }
    }

    fn take_event(&mut self, event: &EventRecord)
        requires
            old(self).rounds.len() < 0x7fff_ffff_ffff_fffe,
        ensures
            final(self).model() == old(self).model().after(*event),
            final(self).rounds.len() <= old(self).rounds.len() + 1,
    {
        let tick: i64 = event.analysis_tick();
        if event.is("teamplay_team_ready") {
            let ready = match event.event.flag("ready") {
                Some(ready) => ready,
                None => true,
            };
            let when: Option<i64> = if ready {
                Some(tick)
            } else {
                None
            };
            let team: i64 = event.number("team");
            if team == 2 {
                self.red_ready = ready;
                self.red_ready_tick = when;
            } else if team == 3 {
                self.blu_ready = ready;
                self.blu_ready_tick = when;
            }
        } else if is_announcement(event) {
            self.close(tick, event.event_type.as_str(), None);
            if event.is("teamplay_ready_restart") {
                self.ready_restart_tick = Some(tick);
            }
            if event.is("teamplay_round_restart_seconds") {
                self.countdown_tick = Some(tick);
            }
            self.pending = Some((tick, event.event_type.clone()));
        } else if event.is("teamplay_round_active") {
            if self.pending.is_some() {
                self.activate(tick);
            }
        } else if event.is("teamplay_setup_finished") {
            self.finish_setup(tick);
        } else if is_decision(event) {
            self.close(
                tick,
                event.event_type.as_str(),
                Some(event.number_of_either("team", "winning_team")),
            );
            self.pending = None;
            self.clear_ready();
        } else if event.is("teamplay_waiting_begins") {
            self.close(tick, event.event_type.as_str(), None);
            self.pending = None;
            self.clear_ready();
        }
    }
}

fn is_announcement(event: &EventRecord) -> (r: bool)
    ensures
        r == announces(event.kind()),
{
    event.is("teamplay_round_start") || event.is("teamplay_restart_round") || event.is(
        "teamplay_ready_restart",
    ) || event.is("teamplay_round_restart_seconds") || event.is("teamplay_waiting_ends")
        || event.is("round_start")
}

fn is_decision(event: &EventRecord) -> (r: bool)
    ensures
        r == decides(event.kind()),
{
    event.is("teamplay_round_win") || event.is("teamplay_round_stalemate") || event.is(
        "teamplay_game_over",
    ) || event.is("tf_game_over") || event.is("game_end") || event.is("round_end")
}

/// Whether some event has a name.
pub fn has_event(events: &Vec<EventRecord>, kind: &str) -> (r: bool)
    ensures
        r == any_event(events@, kind@),
{
    let mut i: usize = 0;
    while i < events.len()
        invariant
            i <= events.len(),
            forall|j: int| 0 <= j < i ==> (#[trigger] events[j]).kind() != kind@,
        decreases events.len() - i,
    {
        if events[i].is(kind) {
            return true;
        }
        i += 1;
    }
    false
}

fn joined(events: &Vec<EventRecord>, upto: usize, user: i64) -> (out: String)
    requires
        upto <= events.len(),
    ensures
        out@ == joined_team(events@.take(upto as int), user as int),
{
    let mut i: usize = upto;
    while i > 0
        invariant
            i <= upto <= events.len(),
            joined_team(events@.take(upto as int), user as int) == joined_team(
                events@.take(i as int),
                user as int,
            ),
        decreases i,
    {
        proof {
            let now = events@.take(i as int);
            assert(now.drop_last() =~= events@.take(i - 1));
            assert(now.last() == events@[i - 1]);
        }
        let event = &events[i - 1];
        if event.is("player_team") && user > 0 && event.user_id() == user {
            let team = canonical_team_value(&event.event, "team");
            if !team.as_str().is_empty() {
                return team;
            }
        }
        i -= 1;
    }
    String::new()
}

fn find_opposing_kill(events: &Vec<EventRecord>) -> (out: Option<usize>)
    ensures
        match out {
            Some(i) => first_opposing_kill(events@, i as int),
            None => forall|i: int| 0 <= i < events.len() ==> !opposing_kill(events@, i),
        },
{
    let mut i: usize = 0;
    while i < events.len()
        invariant
            i <= events.len(),
            forall|j: int| 0 <= j < i ==> !opposing_kill(events@, j),
        decreases events.len() - i,
    {
        let event = &events[i];
        if event.is("player_death") {
            let attacker: i64 = event.number("attacker");
            let victim: i64 = event.user_id();
            if attacker > 0 && victim > 0 && attacker != victim {
                let attacker_team = joined(events, i, attacker);
                let victim_team = joined(events, i, victim);
                if !attacker_team.as_str().is_empty() && !victim_team.as_str().is_empty()
                    && !same_text(attacker_team.as_str(), victim_team.as_str()) {
                    return Some(i);
                }
            }
        }
        i += 1;
    }
    None
}

/// The rounds of a match.
pub fn build_rounds(events: &Vec<EventRecord>, header_ticks: i64) -> (out: Vec<Round<String>>)
    requires
        ticks_leave_room(events@),
    ensures
        round_models(out@) == rounds_of(events@, header_ticks),
{
    let mut tracker = RoundTracker {
        rounds: Vec::new(),
        current: None,
        pending: None,
        red_ready: false,
        blu_ready: false,
        red_ready_tick: None,
        blu_ready_tick: None,
        ready_restart_tick: None,
        countdown_tick: None,
    };
    let mut i: usize = 0;
    assert(round_models(tracker.rounds@) =~= Seq::empty());
    while i < events.len()
        invariant
            i <= events.len() < 0x7fff_ffff_ffff_ffff,
            tracker.model() == progress_after(events@.take(i as int)),
            tracker.rounds.len() <= i,
            i == 0 ==> tracker.current is None,
        decreases events.len() - i,
    {
        proof {
            let next = events@.take(i + 1);
            assert(next.drop_last() =~= events@.take(i as int));
            assert(next.last() == events@[i as int]);
        }
        tracker.take_event(&events[i]);
        i += 1;
    }
    assert(events@.take(events.len() as int) =~= events@);
    if tracker.current.is_some() {
        let after_last: i64 = events[events.len() - 1].analysis_tick() + 1;
        let end: i64 = if header_ticks >= after_last {
            header_ticks
        } else {
            after_last
        };
        tracker.close(end, "demo_end_while_event_confirmed_round_active", None);
    }
    let mut rounds = tracker.rounds;
    assert(round_models(rounds@) == told_rounds(events@, header_ticks));
    if rounds.len() == 0 && !has_event(events, "teamplay_round_active") {
        if let Some(first) = find_opposing_kill(events) {
            let start: i64 = events[first].analysis_tick();
            let after_last: i64 = events[events.len() - 1].analysis_tick() + 1;
            let end: i64 = if header_ticks >= after_last {
                header_ticks
            } else {
                after_last
            };
            let mut activation_trigger = "state_confirmed_opposing_team_death@".to_owned();
            activation_trigger.append(i64_text(start).as_str());
            let round = Round {
                index: 1,
                start,
                end,
                round_active_tick: start,
                start_event: "in_progress_public_server".to_owned(),
                end_event: "demo_end_while_public_play_active".to_owned(),
                winning_team: 0,
                ready_up: false,
                red_ready_tick: None,
                blu_ready_tick: None,
                ready_restart_tick: None,
                countdown_tick: None,
                setup_finished_tick: None,
                activation_trigger,
            };
            rounds.push(round);
            proof {
                let chosen = choose|i: int| first_opposing_kill(events@, i);
                assert(first_opposing_kill(events@, first as int));
                assert(chosen == first) by {
                    if chosen < first {
                        assert(!opposing_kill(events@, chosen));
                    } else if chosen > first {
                        assert(!opposing_kill(events@, first as int));
                    }
                }
                assert(round_models(rounds@) =~= seq![
                    public_round(start, demo_end(events@, header_ticks) as i64),
                ]);
            }
        }
    }
    rounds
}

// ---------------------------------------------------------------------------
// Laws
// ---------------------------------------------------------------------------

proof fn lemma_progress_rounds(events: Seq<EventRecord>)
    ensures
        forall|i: int|
            0 <= i < progress_after(events).rounds.len() ==> (
            #[trigger] progress_after(events).rounds[i]).start
                < progress_after(events).rounds[i].end,
    decreases events.len(),
{
    if events.len() > 0 {
        lemma_progress_rounds(events.drop_last());
    }
}

/// Every round that is told by its events has a length, and so does the round
/// of public play where the events come in the order of their ticks.
pub proof fn law_rounds_have_length(events: Seq<EventRecord>, header_ticks: i64)
    requires
        ticks_leave_room(events),
        forall|i: int, j: int|
            0 <= i <= j < events.len() ==> (#[trigger] events[i]).at() <= (
            #[trigger] events[j]).at(),
    ensures
        forall|i: int|
            0 <= i < rounds_of(events, header_ticks).len() ==> (
            #[trigger] rounds_of(events, header_ticks)[i]).start
                < rounds_of(events, header_ticks)[i].end,
{
    lemma_progress_rounds(events);
    let told = told_rounds(events, header_ticks);
    assert forall|i: int| 0 <= i < told.len() implies (#[trigger] told[i]).start < told[i].end by {
        let all = progress_after(events);
        if all.current is Some {
            if i < all.rounds.len() {
                assert(told[i] == all.rounds[i]);
            }
        }
    }
    if exists|i: int| first_opposing_kill(events, i) {
        let i = choose|i: int| first_opposing_kill(events, i);
        assert(events[i].at() <= events[events.len() - 1].at());
    }
}

/// Whether rounds are numbered from one and each starts when those before are over.
pub open spec fn are_numbered_apart(rounds: Seq<Round<Seq<char>>>) -> bool {
    &&& forall|i: int| 0 <= i < rounds.len() ==> (#[trigger] rounds[i]).index == i + 1
    &&& forall|i: int, j: int|
        0 <= i < j < rounds.len() ==> (#[trigger] rounds[i]).end <= (#[trigger] rounds[j]).start
}

impl RoundProgress {
    spec fn is_apart(self, tick: int) -> bool {
        &&& are_numbered_apart(self.rounds)
        &&& forall|i: int| 0 <= i < self.rounds.len() ==> (#[trigger] self.rounds[i]).end <= tick
        &&& self.current matches Some(round) ==> {
            &&& round.index == self.rounds.len() + 1
            &&& round.start <= tick
            &&& forall|i: int|
                0 <= i < self.rounds.len() ==> (#[trigger] self.rounds[i]).end <= round.start
        }
    }
}

proof fn lemma_closed_apart(
    progress: RoundProgress,
    tick: int,
    end: i64,
    event: Seq<char>,
    winner: Option<i64>,
)
    requires
        progress.is_apart(tick),
        tick <= end,
    ensures
        progress.closed(end, event, winner).is_apart(end as int),
        progress.closed(end, event, winner).rounds.len() <= progress.rounds.len() + 1,
{
    let over = progress.closed(end, event, winner);
    if let Some(round) = progress.current {
        assert forall|i: int| 0 <= i < over.rounds.len() implies (#[trigger] over.rounds[i]).index
            == i + 1 && over.rounds[i].end <= end by {
            if i < progress.rounds.len() {
                assert(over.rounds[i] == progress.rounds[i]);
            }
        }
        assert forall|i: int, j: int| 0 <= i < j < over.rounds.len() implies (
        #[trigger] over.rounds[i]).end <= (#[trigger] over.rounds[j]).start by {
            assert(over.rounds[i] == progress.rounds[i]);
            if j < progress.rounds.len() {
                assert(over.rounds[j] == progress.rounds[j]);
            }
        }
    }
}

proof fn lemma_progress_apart(events: Seq<EventRecord>, before: int)
    requires
        ticks_leave_room(events),
        forall|i: int, j: int|
            0 <= i <= j < events.len() ==> (#[trigger] events[i]).at() <= (
            #[trigger] events[j]).at(),
        events.len() > 0 ==> before <= events[0].at(),
    ensures
        progress_after(events).is_apart(
            if events.len() > 0 {
                events.last().at() as int
            } else {
                before
            },
        ),
        progress_after(events).rounds.len() <= events.len(),
    decreases events.len(),
{
    if events.len() > 0 {
        let rest = events.drop_last();
        assert forall|i: int| 0 <= i < rest.len() implies (#[trigger] rest[i]).at() < i64::MAX by {
            assert(events[i].at() < i64::MAX);
        }
        assert forall|i: int, j: int| 0 <= i <= j < rest.len() implies (#[trigger] rest[i]).at()
            <= (#[trigger] rest[j]).at() by {
            assert(events[i].at() <= events[j].at());
        }
        if rest.len() > 0 {
            assert(rest[0] == events[0]);
        }
        lemma_progress_apart(rest, before);
        let known = progress_after(rest);
        let event = events.last();
        let tick = event.at();
        let last = if rest.len() > 0 {
            rest.last().at() as int
        } else {
            before
        };
        assert(last <= tick) by {
            if rest.len() > 0 {
                assert(events[events.len() - 2].at() <= events[events.len() - 1].at());
            } else {
                assert(events[0] == event);
            }
        }
        lemma_step_apart(known, event, last);
    }
}

proof fn lemma_step_apart(known: RoundProgress, event: EventRecord, last: int)
    requires
        known.is_apart(last),
        last <= event.at(),
        known.rounds.len() < 0x7fff_ffff_ffff_ffff - 1,
    ensures
        known.after(event).is_apart(event.at() as int),
        known.after(event).rounds.len() <= known.rounds.len() + 1,
{
    let tick = event.at();
    let kind = event.kind();
    lemma_closed_apart(known, last, tick, kind, None);
    lemma_closed_apart(
        known,
        last,
        tick,
        kind,
        Some(int_among(event.data(), "team"@, "winning_team"@) as i64),
    );
    lemma_closed_apart(known, last, tick, "superseded_by_round_active"@, None);
    let next = known.after(event);
    if next.rounds == known.rounds {
        assert forall|i: int| 0 <= i < next.rounds.len() implies (#[trigger] next.rounds[i]).end
            <= tick by {
            assert(known.rounds[i].end <= last);
        }
    }
}

/// The rounds of a match whose events come in the order of their ticks are numbered
/// from one, and each starts when those before it are over.
pub proof fn law_rounds_are_numbered_apart(events: Seq<EventRecord>, header_ticks: i64)
    requires
        ticks_leave_room(events),
        forall|i: int, j: int|
            0 <= i <= j < events.len() ==> (#[trigger] events[i]).at() <= (
            #[trigger] events[j]).at(),
    ensures
        are_numbered_apart(rounds_of(events, header_ticks)),
{
    let before = if events.len() > 0 {
        events[0].at() as int
    } else {
        0
    };
    lemma_progress_apart(events, before);
    let all = progress_after(events);
    if all.current is Some && events.len() > 0 {
        lemma_closed_apart(
            all,
            events.last().at() as int,
            demo_end(events, header_ticks) as i64,
            "demo_end_while_event_confirmed_round_active"@,
            None,
        );
    }
}

#[verifier::opaque]
spec fn kind_print(text: Seq<char>) -> int {
    text.len() + 1000 * (text[0] as int) + 1000000 * (text[text.len() - 1] as int)
}

proof fn lemma_kinds_differ()
    ensures
        kind_print("teamplay_round_start"@) == 116116020,
        kind_print("teamplay_restart_round"@) == 100116022,
        kind_print("teamplay_ready_restart"@) == 116116022,
        kind_print("teamplay_round_restart_seconds"@) == 115116030,
        kind_print("teamplay_waiting_ends"@) == 115116021,
        kind_print("round_start"@) == 116114011,
        kind_print("teamplay_round_win"@) == 110116018,
        kind_print("teamplay_round_stalemate"@) == 101116024,
        kind_print("teamplay_game_over"@) == 114116018,
        kind_print("tf_game_over"@) == 114116012,
        kind_print("game_end"@) == 100103008,
        kind_print("round_end"@) == 100114009,
        kind_print("teamplay_team_ready"@) == 121116019,
        kind_print("teamplay_round_active"@) == 101116021,
        kind_print("teamplay_setup_finished"@) == 100116023,
        kind_print("teamplay_waiting_begins"@) == 115116023,
{
    reveal(kind_print);
    reveal_strlit("teamplay_round_start");
    reveal_strlit("teamplay_restart_round");
    reveal_strlit("teamplay_ready_restart");
    reveal_strlit("teamplay_round_restart_seconds");
    reveal_strlit("teamplay_waiting_ends");
    reveal_strlit("round_start");
    reveal_strlit("teamplay_round_win");
    reveal_strlit("teamplay_round_stalemate");
    reveal_strlit("teamplay_game_over");
    reveal_strlit("tf_game_over");
    reveal_strlit("game_end");
    reveal_strlit("round_end");
    reveal_strlit("teamplay_team_ready");
    reveal_strlit("teamplay_round_active");
    reveal_strlit("teamplay_setup_finished");
    reveal_strlit("teamplay_waiting_begins");
}

/// A round is announced by one event, starts with the one that makes it active, and ends
/// with the one that decides it, with the winner that this one names. Where its setup is
/// over later, it starts then.
pub proof fn law_rounds_are_told_by_their_events(
    before: RoundProgress,
    announced: EventRecord,
    active: EventRecord,
    setup: EventRecord,
    decided: EventRecord,
)
    requires
        announced.kind() == "teamplay_round_start"@ || announced.kind() == "teamplay_restart_round"@ || announced.kind() == "teamplay_ready_restart"@ || announced.kind() == "teamplay_round_restart_seconds"@ || announced.kind() == "teamplay_waiting_ends"@ || announced.kind() == "round_start"@,
        active.kind() == "teamplay_round_active"@,
        setup.kind() == "teamplay_setup_finished"@,
        decided.kind() == "teamplay_round_win"@ || decided.kind() == "teamplay_round_stalemate"@ || decided.kind() == "teamplay_game_over"@ || decided.kind() == "tf_game_over"@ || decided.kind() == "game_end"@ || decided.kind() == "round_end"@,
        active.at() < setup.at() < decided.at(),
        before.rounds.len() < i64::MAX - 1,
    ensures
        ({
            let ready = before.after(announced);
            let played = ready.after(active).after(decided).rounds;
            let delayed = ready.after(active).after(setup).after(decided).rounds;
            let winner = int_among(decided.data(), "team"@, "winning_team"@) as i64;
            let index = ready.rounds.len() + 1;
            &&& ready.current is None
            &&& played.drop_last() == ready.rounds && delayed.drop_last() == ready.rounds
            &&& played.len() == index && delayed.len() == index
            &&& played.last().index == index && delayed.last().index == index
            &&& played.last().start == active.at()
            &&& delayed.last().start == setup.at()
            &&& played.last().end == decided.at() && delayed.last().end == decided.at()
            &&& played.last().winning_team == winner && delayed.last().winning_team == winner
            &&& played.last().end_event == decided.kind()
        }),
{
    lemma_kinds_differ();
    let ready = before.after(announced);
    let played = ready.after(active).after(decided).rounds;
    let delayed = ready.after(active).after(setup).after(decided).rounds;
    assert(ready.current is None);
    assert(played.drop_last() =~= ready.rounds);
    assert(delayed.drop_last() =~= ready.rounds);
}

/// Play that becomes active without a round being announced makes none, and waiting for
/// players ends the round that is at play.
pub proof fn law_unannounced_play_is_no_round(
    before: RoundProgress,
    active: EventRecord,
    waiting: EventRecord,
)
    requires
        active.kind() == "teamplay_round_active"@,
        waiting.kind() == "teamplay_waiting_begins"@,
    ensures
        before.pending is None ==> before.after(active) == before,
        before.after(waiting).current is None,
        before.after(waiting).pending is None,
        before.after(waiting).after(active) == before.after(waiting),
{
    lemma_kinds_differ();
}

/// A round is one that both teams were ready for where both said so, and none took it
/// back, before it became active.
pub proof fn law_ready_rounds_are_told(
    before: RoundProgress,
    red: EventRecord,
    blu: EventRecord,
    active: EventRecord,
)
    requires
        before.pending is Some,
        red.kind() == "teamplay_team_ready"@,
        int_field(red.data(), "team"@) == 2,
        blu.kind() == "teamplay_team_ready"@,
        int_field(blu.data(), "team"@) == 3,
        active.kind() == "teamplay_round_active"@,
    ensures
        before.after(red).after(blu).after(active).current matches Some(round) && (round.ready_up
            <==> bool_of(lookup(red.data(), "ready"@)) != Some(false) && bool_of(
            lookup(blu.data(), "ready"@),
        ) != Some(false)),
{
    lemma_kinds_differ();
}

/// A demo ends when its header says, or one tick after its last event, whichever is later.
pub proof fn law_demos_end_after_their_events(events: Seq<EventRecord>, header_ticks: i64)
    requires
        events.len() > 0,
    ensures
        demo_end(events, header_ticks) >= header_ticks,
        demo_end(events, header_ticks) > events.last().at(),
        demo_end(events, header_ticks) == header_ticks || demo_end(events, header_ticks)
            == events.last().at() + 1,
{
}

/// A player is in the team that they joined last.
pub proof fn law_last_team_counts(events: Seq<EventRecord>, event: EventRecord, user: int)
    ensures
        event.kind() == "player_team"@ && event.user() == user && user > 0 && team_of(
            lookup(event.data(), "team"@),
        ).len() > 0 ==> joined_team(events.push(event), user) == team_of(
            lookup(event.data(), "team"@),
        ),
        event.kind() != "player_team"@ || event.user() != user ==> joined_team(
            events.push(event),
            user,
        ) == joined_team(events, user),
{
    assert(events.push(event).drop_last() =~= events);
}

/// Play that no round was told of is one round, from the first kill between the teams to the
/// end of the demo.
pub proof fn law_public_play_is_one_round(events: Seq<EventRecord>, header_ticks: i64, i: int)
    requires
        first_opposing_kill(events, i),
        told_rounds(events, header_ticks).len() == 0,
        forall|k: int|
            0 <= k < events.len() ==> (#[trigger] events[k]).kind() != "teamplay_round_active"@,
    ensures
        ({
            let rounds = rounds_of(events, header_ticks);
            &&& rounds.len() == 1 && rounds[0].index == 1
            &&& rounds[0].start == events[i].at() && rounds[0].end == demo_end(
                events,
                header_ticks,
            ) as i64
            &&& rounds[0].winning_team == 0 && !rounds[0].ready_up
            &&& events[i].kind() == "player_death"@
            &&& events[i].user() > 0 && int_field(events[i].data(), "attacker"@) > 0
            &&& joined_team(events.take(i), events[i].user()) != joined_team(
                events.take(i),
                int_field(events[i].data(), "attacker"@),
            )
        }),
{
    assert(!any_event(events, "teamplay_round_active"@));
    let j = choose|j: int| first_opposing_kill(events, j);
    assert(first_opposing_kill(events, j));
    if i < j {
        assert(!opposing_kill(events, i));
    } else if j < i {
        assert(!opposing_kill(events, j));
    }
}

} // verus!

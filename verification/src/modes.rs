//! What kind of match a demo shows.
use vstd::prelude::*;
use crate::events::{to_lowercase, unicode_lower, EventRecord};
use crate::number::{int_text, u64_text};
use crate::text::{contains_text, has_text, lower, same_text, to_lower, views};

verus! {

// ---------------------------------------------------------------------------
// Rosters
// ---------------------------------------------------------------------------

/// How many players of a team play a class.
#[derive(Debug)]
pub struct ClassCount {
    pub class: String,
    pub count: usize,
}

/// The teams at a tick, as far as they were seen. A team names each class once.
#[derive(Debug)]
pub struct RosterSample {
    pub tick: i64,
    pub red: Option<Vec<ClassCount>>,
    pub blu: Option<Vec<ClassCount>>,
}

/// How many players a team has.
pub open spec fn players(roster: Seq<ClassCount>) -> int
    decreases roster.len(),
{
    if roster.len() == 0 {
        0
    } else {
        players(roster.drop_last()) + roster.last().count
    }
}

/// How many players of a team play a class.
pub open spec fn playing(roster: Seq<ClassCount>, class: Seq<char>) -> int
    decreases roster.len(),
{
    if roster.len() == 0 {
        0
    } else if roster[0].class@ == class {
        roster[0].count as int
    } else {
        playing(roster.skip(1), class)
    }
}

/// Whether a class belongs to a full team of six.
pub open spec fn sixes_class(class: Seq<char>) -> bool {
    class == "scout"@ || class == "soldier"@ || class == "demoman"@ || class == "medic"@
}

/// How many players of a team play a class that a team of six does without.
pub open spec fn offclasses(roster: Seq<ClassCount>) -> int
    decreases roster.len(),
{
    if roster.len() == 0 {
        0
    } else {
        offclasses(roster.drop_last()) + if sixes_class(roster.last().class@) {
            0
        } else {
            roster.last().count as int
        }
    }
}

/// The difference of two numbers.
pub open spec fn off_by(a: int, b: int) -> int {
    if a < b {
        b - a
    } else {
        a - b
    }
}

/// Whether a team looks like one of six: two Scouts, two Soldiers, a Demoman and
/// a Medic, but for one player.
pub open spec fn like_sixes(roster: Seq<ClassCount>) -> bool {
    &&& players(roster) == 6
    &&& off_by(playing(roster, "scout"@), 2) + off_by(playing(roster, "soldier"@), 2) + off_by(
        playing(roster, "demoman"@),
        1,
    ) + off_by(playing(roster, "medic"@), 1) + offclasses(roster) <= 2
}

/// Whether a team looks like one of nine, of nearly every class one.
pub open spec fn like_highlander(roster: Seq<ClassCount>) -> bool {
    players(roster) == 9 && roster.len() >= 8
}

/// Whether a team has the size of a competitive one.
pub open spec fn like_small(roster: Seq<ClassCount>) -> bool {
    5 <= players(roster) <= 10
}

fn count_players(roster: &Vec<ClassCount>) -> (out: u128)
    ensures
        out == players(roster@),
{
    let mut total: u128 = 0;
    let mut i: usize = 0;
    while i < roster.len()
        invariant
            i <= roster.len(),
            total == players(roster@.take(i as int)),
            total <= i * 0xffff_ffff_ffff_ffff,
        decreases roster.len() - i,
    {
        proof {
            assert(roster@.take(i + 1).drop_last() =~= roster@.take(i as int));
            assert(roster@.take(i + 1).last() == roster@[i as int]);
        }
        total = total + roster[i].count as u128;
        i += 1;
    }
    assert(roster@.take(roster.len() as int) =~= roster@);
    total
}

fn count_playing(roster: &Vec<ClassCount>, class: &str) -> (out: u128)
    ensures
        out == playing(roster@, class@),
        out <= 0xffff_ffff_ffff_ffff,
{
    let mut i: usize = 0;
    assert(roster@.skip(0) =~= roster@);
    while i < roster.len()
        invariant
            i <= roster.len(),
            playing(roster@, class@) == playing(roster@.skip(i as int), class@),
        decreases roster.len() - i,
    {
        assert(roster@.skip(i as int)[0] == roster@[i as int]);
        assert(roster@.skip(i as int).skip(1) =~= roster@.skip(i + 1));
        if same_text(roster[i].class.as_str(), class) {
            return roster[i].count as u128;
        }
        i += 1;
    }
    0
}

proof fn lemma_offclasses(roster: Seq<ClassCount>)
    ensures
        0 <= offclasses(roster) <= players(roster),
    decreases roster.len(),
{
    if roster.len() > 0 {
        lemma_offclasses(roster.drop_last());
    }
}

fn count_offclasses(roster: &Vec<ClassCount>) -> (out: u128)
    requires
        players(roster@) == 6,
    ensures
        out == offclasses(roster@),
        out <= 6,
{
    let mut total: u128 = 0;
    let mut i: usize = 0;
    while i < roster.len()
        invariant
            i <= roster.len(),
            total == offclasses(roster@.take(i as int)),
            total <= i * 0xffff_ffff_ffff_ffff,
        decreases roster.len() - i,
    {
        proof {
            assert(roster@.take(i + 1).drop_last() =~= roster@.take(i as int));
            assert(roster@.take(i + 1).last() == roster@[i as int]);
        }
        let class = roster[i].class.as_str();
        if !(same_text(class, "scout") || same_text(class, "soldier") || same_text(class, "demoman")
            || same_text(class, "medic")) {
            total = total + roster[i].count as u128;
        }
        i += 1;
    }
    proof {
        assert(roster@.take(roster.len() as int) =~= roster@);
        lemma_offclasses(roster@);
    }
    total
}

fn difference(a: u128, b: u128) -> (out: u128)
    ensures
        out == off_by(a as int, b as int),
        out <= a || out <= b,
{
    if a < b {
        b - a
    } else {
        a - b
    }
}

/// Whether a team looks like one of six, but for one player.
pub fn sixes_fit(roster: &Vec<ClassCount>) -> (r: bool)
    ensures
        r == like_sixes(roster@),
{
    if count_players(roster) != 6 {
        return false;
    }
    let distance: u128 = difference(count_playing(roster, "scout"), 2) + difference(
        count_playing(roster, "soldier"),
        2,
    ) + difference(count_playing(roster, "demoman"), 1) + difference(
        count_playing(roster, "medic"),
        1,
    );
    distance + count_offclasses(roster) <= 2
}

/// What the teams of a match were like, over time.
#[derive(Clone, Copy, Debug, PartialEq, Eq, Structural)]
pub struct RosterCounts {
    pub observed: usize,
    pub small: usize,
    pub sixes: usize,
    pub highlander: usize,
}

/// One more where something holds.
pub open spec fn counted_if(count: usize, holds: bool) -> int {
    if holds {
        count + 1
    } else {
        count as int
    }
}

/// How often both teams were seen, and what they were like.
pub open spec fn roster_counts(samples: Seq<RosterSample>) -> RosterCounts
    decreases samples.len(),
{
    if samples.len() == 0 {
        RosterCounts { observed: 0, small: 0, sixes: 0, highlander: 0 }
    } else {
        let before = roster_counts(samples.drop_last());
        match (samples.last().red, samples.last().blu) {
            (Some(red), Some(blu)) => RosterCounts {
                observed: (before.observed + 1) as usize,
                small: counted_if(before.small, like_small(red@) && like_small(blu@)) as usize,
                sixes: counted_if(before.sixes, like_sixes(red@) && like_sixes(blu@)) as usize,
                highlander: counted_if(
                    before.highlander,
                    like_highlander(red@) && like_highlander(blu@),
                ) as usize,
            },
            _ => before,
        }
    }
}

fn count_rosters(samples: &Vec<RosterSample>) -> (out: RosterCounts)
    ensures
        out == roster_counts(samples@),
        out.small <= out.observed,
        out.sixes <= out.observed,
        out.highlander <= out.observed,
{
    let mut counts = RosterCounts { observed: 0, small: 0, sixes: 0, highlander: 0 };
    let mut i: usize = 0;
    while i < samples.len()
        invariant
            i <= samples.len(),
            counts == roster_counts(samples@.take(i as int)),
            counts.observed <= i,
            counts.small <= counts.observed,
            counts.sixes <= counts.observed,
            counts.highlander <= counts.observed,
        decreases samples.len() - i,
    {
        proof {
            assert(samples@.take(i + 1).drop_last() =~= samples@.take(i as int));
            assert(samples@.take(i + 1).last() == samples@[i as int]);
        }
        if let Some(red) = &samples[i].red {
            if let Some(blu) = &samples[i].blu {
                let red_size: u128 = count_players(red);
                let blu_size: u128 = count_players(blu);
                let small = 5 <= red_size && red_size <= 10 && 5 <= blu_size && blu_size <= 10;
                let sixes = sixes_fit(red) && sixes_fit(blu);
                let highlander = red_size == 9 && red.len() >= 8 && blu_size == 9 && blu.len() >= 8;
                counts = RosterCounts {
                    observed: counts.observed + 1,
                    small: if small {
                        counts.small + 1
                    } else {
                        counts.small
                    },
                    sixes: if sixes {
                        counts.sixes + 1
                    } else {
                        counts.sixes
                    },
                    highlander: if highlander {
                        counts.highlander + 1
                    } else {
                        counts.highlander
                    },
                };
            }
        }
        i += 1;
    }
    assert(samples@.take(samples.len() as int) =~= samples@);
    counts
}

// ---------------------------------------------------------------------------
// Signs in the text
// ---------------------------------------------------------------------------

/// Whether an event can speak of the kind of match.
pub open spec fn speaks_of_mode(kind: Seq<char>) -> bool {
    kind == "player_say"@ || kind == "say_text"@ || kind == "server_message"@ || kind
        == "server_cvar"@ || kind == "teamplay_broadcast_audio"@
}

/// Whether an event can speak of the kind of match.
pub fn event_speaks_of_mode(event: &EventRecord) -> (r: bool)
    ensures
        r == speaks_of_mode(event.kind()),
{
    event.is("player_say") || event.is("say_text") || event.is("server_message") || event.is(
        "server_cvar",
    ) || event.is("teamplay_broadcast_audio")
}

/// Signals added to a text, each behind a space, in lower case.
pub open spec fn with_signals(text: Seq<char>, signals: Seq<Seq<char>>) -> Seq<char>
    decreases signals.len(),
{
    if signals.len() == 0 {
        text
    } else {
        with_signals(text, signals.drop_last()) + " "@ + lower(signals.last())
    }
}

/// What was said added to a text, each behind a space, in lower case.
pub open spec fn with_said(text: Seq<char>, said: Seq<Seq<char>>) -> Seq<char>
    decreases said.len(),
{
    if said.len() == 0 {
        text
    } else {
        with_said(text, said.drop_last()) + " "@ + unicode_lower(said.last())
    }
}

fn mode_text(lowered_server: &str, signals: &Vec<String>, said: &Vec<String>) -> (out: String)
    ensures
        out@ == with_said(with_signals(lowered_server@, views(signals@)), views(said@)),
{
    let mut out = lowered_server.to_owned();
    let mut i: usize = 0;
    assert(views(signals@).take(0).len() == 0);
    while i < signals.len()
        invariant
            i <= signals.len(),
            out@ == with_signals(lowered_server@, views(signals@).take(i as int)),
        decreases signals.len() - i,
    {
        proof {
            let next = views(signals@).take(i + 1);
            assert(next.drop_last() =~= views(signals@).take(i as int));
            assert(next.last() == signals@[i as int]@);
        }
        out.append(" ");
        out.append(to_lower(signals[i].as_str()).as_str());
        i += 1;
    }
    assert(views(signals@).take(signals.len() as int) =~= views(signals@));
    let ghost base = out@;
    let mut k: usize = 0;
    assert(views(said@).take(0).len() == 0);
    while k < said.len()
        invariant
            k <= said.len(),
            out@ == with_said(base, views(said@).take(k as int)),
        decreases said.len() - k,
    {
        proof {
            let next = views(said@).take(k + 1);
            assert(next.drop_last() =~= views(said@).take(k as int));
            assert(next.last() == said@[k as int]@);
        }
        out.append(" ");
        out.append(to_lowercase(said[k].as_str()).as_str());
        k += 1;
    }
    assert(views(said@).take(said.len() as int) =~= views(said@));
    out
}

/// What a text tells of a match.
#[derive(Clone, Copy, Debug, PartialEq, Eq, Structural)]
pub struct ModeSigns {
    pub rgl: bool,
    pub tournament: bool,
    pub highlander: bool,
    pub sixes: bool,
    pub valve: bool,
}

/// Whether a text shows the marks of an RGL match.
pub open spec fn shows_rgl(text: Seq<char>) -> bool {
    has_text(text, "rgl_"@) || has_text(text, "rgl.gg"@) || has_text(text, "rgl cfg"@) || has_text(
        text,
        "rgl config"@,
    ) || has_text(text, "rgl_whitelist"@)
}

/// Whether a text shows the marks of some tournament.
pub open spec fn shows_tournament(text: Seq<char>) -> bool {
    has_text(text, "mp_tournament"@) || has_text(text, "tf_tournament"@) || has_text(
        text,
        "whitelist"@,
    ) || has_text(text, "etf2l"@) || has_text(text, "ugc_"@) || has_text(text, "ozfortress"@)
        || has_text(text, "competitive"@)
}

/// What a text, and the name of the server, tell of a match.
pub open spec fn signs_in(text: Seq<char>, server: Seq<char>) -> ModeSigns {
    ModeSigns {
        rgl: shows_rgl(text),
        tournament: shows_rgl(text) || shows_tournament(text),
        highlander: has_text(text, "highlander"@) || has_text(text, "rgl_hl"@) || has_text(
            text,
            "rgl-hl"@,
        ),
        sixes: has_text(text, "6v6"@) || has_text(text, "sixes"@) || has_text(text, "rgl_6s"@)
            || has_text(text, "rgl-6s"@),
        valve: has_text(text, "valve"@) || has_text(text, "matchmaking"@) || has_text(
            text,
            "casual"@,
        ) || has_text(text, "quickplay"@) || has_text(lower(server), "valve"@),
    }
}

/// What a text, and the name of the server, tell of a match.
pub fn read_signs(text: &str, server: &str) -> (out: ModeSigns)
    ensures
        out == signs_in(text@, server@),
{
    let rgl = contains_text(text, "rgl_") || contains_text(text, "rgl.gg") || contains_text(
        text,
        "rgl cfg",
    ) || contains_text(text, "rgl config") || contains_text(text, "rgl_whitelist");
    let tournament = rgl || contains_text(text, "mp_tournament") || contains_text(
        text,
        "tf_tournament",
    ) || contains_text(text, "whitelist") || contains_text(text, "etf2l") || contains_text(
        text,
        "ugc_",
    ) || contains_text(text, "ozfortress") || contains_text(text, "competitive");
    let highlander = contains_text(text, "highlander") || contains_text(text, "rgl_hl")
        || contains_text(text, "rgl-hl");
    let sixes = contains_text(text, "6v6") || contains_text(text, "sixes") || contains_text(
        text,
        "rgl_6s",
    ) || contains_text(text, "rgl-6s");
    let valve = contains_text(text, "valve") || contains_text(text, "matchmaking") || contains_text(
        text,
        "casual",
    ) || contains_text(text, "quickplay") || contains_text(to_lower(server).as_str(), "valve");
    ModeSigns { rgl, tournament, highlander, sixes, valve }
}

// ---------------------------------------------------------------------------
// The verdict
// ---------------------------------------------------------------------------

/// What kind of match a demo shows, how sure that is, and why.
#[derive(Debug)]
pub struct ModeVerdict {
    pub mode: String,
    pub label: String,
    pub confidence: String,
    pub evidence: Vec<String>,
}

/// A verdict with its texts as sequences.
pub struct VerdictModel {
    pub mode: Seq<char>,
    pub label: Seq<char>,
    pub confidence: Seq<char>,
    pub evidence: Seq<Seq<char>>,
}

impl ModeVerdict {
    /// The verdict with its texts as sequences.
    pub open spec fn model(&self) -> VerdictModel {
        VerdictModel {
            mode: self.mode@,
            label: self.label@,
            confidence: self.confidence@,
            evidence: views(self.evidence@),
        }
    }
}

/// A truth value as a word.
pub open spec fn truth(value: bool) -> Seq<char> {
    if value {
        "true"@
    } else {
        "false"@
    }
}

/// A truth value as a word.
pub fn truth_text(value: bool) -> (out: &'static str)
    ensures
        out@ == truth(value),
{
    if value {
        "true"
    } else {
        "false"
    }
}

/// One text or another.
pub open spec fn either(first: bool, a: Seq<char>, b: Seq<char>) -> Seq<char> {
    if first {
        a
    } else {
        b
    }
}

/// How many samples it takes to go by them.
pub open spec fn samples_needed(observed: int) -> int {
    if observed < 3 {
        1
    } else {
        3
    }
}

/// Whether at least a share of the observed samples is of a kind, and enough are.
pub open spec fn sustained(count: int, observed: int, percent: int) -> bool {
    count >= samples_needed(observed) && observed > 0 && count * 100 >= observed * percent
}

/// Whether at least a share of the observed samples is of a kind.
pub open spec fn share_of(count: int, observed: int, percent: int) -> bool {
    observed > 0 && count * 100 >= observed * percent
}

/// The evidence from teams of a known size.
pub open spec fn roster_evidence(
    count: int,
    observed: int,
    matched: Seq<char>,
    named: Seq<char>,
    explicit: bool,
    tournament: bool,
    stv: bool,
) -> Seq<Seq<char>> {
    seq![
        int_text(count) + " of "@ + int_text(observed) + matched,
        named + truth(explicit),
        "competitive config evidence: "@ + truth(tournament),
        "SourceTV: "@ + truth(stv),
    ]
}

/// What kind of match a demo shows.
pub open spec fn verdict(
    signs: ModeSigns,
    counts: RosterCounts,
    stv: bool,
    server_known: bool,
) -> VerdictModel {
    let observed = counts.observed as int;
    let highlander = counts.highlander as int;
    let sixes = counts.sixes as int;
    let small = counts.small as int;
    if signs.highlander || sustained(highlander, observed, 35) {
        VerdictModel {
            mode: either(signs.rgl, "rgl_highlander"@, "highlander"@),
            label: either(signs.rgl, "RGL Highlander"@, "Highlander Competitive"@),
            confidence: either(
                signs.highlander || (signs.tournament && share_of(highlander, observed, 60)),
                "high"@,
                "medium"@,
            ),
            evidence: roster_evidence(
                highlander,
                observed,
                " sustained roster samples matched Highlander"@,
                "explicit Highlander config evidence: "@,
                signs.highlander,
                signs.tournament,
                stv,
            ),
        }
    } else if signs.sixes || sustained(sixes, observed, 35) {
        VerdictModel {
            mode: either(signs.rgl, "rgl_6v6"@, "6v6"@),
            label: either(signs.rgl, "RGL 6v6"@, "6v6 Competitive"@),
            confidence: either(
                signs.sixes || (signs.tournament && share_of(sixes, observed, 60)),
                "high"@,
                "medium"@,
            ),
            evidence: roster_evidence(
                sixes,
                observed,
                " sustained roster samples matched tolerant 6v6"@,
                "explicit 6v6 config evidence: "@,
                signs.sixes,
                signs.tournament,
                stv,
            ),
        }
    } else if signs.rgl {
        VerdictModel {
            mode: "rgl_competitive"@,
            label: "RGL Competitive"@,
            confidence: "medium"@,
            evidence: seq!["RGL signature recorded; format uncertain"@],
        }
    } else if signs.tournament || sustained(small, observed, 60) {
        VerdictModel {
            mode: "competitive_uncertain"@,
            label: "Competitive — Format Uncertain"@,
            confidence: "medium"@,
            evidence: seq![
                int_text(small) + " of "@ + int_text(observed)
                    + " samples had stable small-team rosters"@,
            ],
        }
    } else if signs.valve {
        VerdictModel {
            mode: "valve_public"@,
            label: "Valve Public"@,
            confidence: "medium"@,
            evidence: seq!["Valve/matchmaking signature recorded"@],
        }
    } else if server_known {
        VerdictModel {
            mode: "community_public"@,
            label: "Community Public"@,
            confidence: "medium"@,
            evidence: seq!["Community server without sustained competitive roster evidence"@],
        }
    } else {
        VerdictModel {
            mode: "unknown"@,
            label: "Unknown / Mixed"@,
            confidence: "low"@,
            evidence: Seq::empty(),
        }
    }
}

fn verdict_with(mode: &str, label: &str, confidence: &str, evidence: Vec<String>) -> (out:
    ModeVerdict)
    ensures
        out.model() == (VerdictModel {
            mode: mode@,
            label: label@,
            confidence: confidence@,
            evidence: views(evidence@),
        }),
{
    ModeVerdict {
        mode: mode.to_owned(),
        label: label.to_owned(),
        confidence: confidence.to_owned(),
        evidence,
    }
}

fn one_line(line: String) -> (out: Vec<String>)
    ensures
        views(out@) == seq![line@],
{
    let mut out: Vec<String> = Vec::new();
    out.push(line);
    assert(views(out@) =~= seq![line@]);
    out
}

fn tell_rosters(
    count: usize,
    observed: usize,
    matched: &str,
    named: &str,
    explicit: bool,
    tournament: bool,
    stv: bool,
) -> (out: Vec<String>)
    ensures
        views(out@) == roster_evidence(
            count as int,
            observed as int,
            matched@,
            named@,
            explicit,
            tournament,
            stv,
        ),
{
    let mut first = u64_text(count as u64);
    first.append(" of ");
    first.append(u64_text(observed as u64).as_str());
    first.append(matched);
    let mut second = named.to_owned();
    second.append(truth_text(explicit));
    let mut third = "competitive config evidence: ".to_owned();
    third.append(truth_text(tournament));
    let mut fourth = "SourceTV: ".to_owned();
    fourth.append(truth_text(stv));
    let ghost want = roster_evidence(
        count as int,
        observed as int,
        matched@,
        named@,
        explicit,
        tournament,
        stv,
    );
    let mut out: Vec<String> = Vec::new();
    out.push(first);
    out.push(second);
    out.push(third);
    out.push(fourth);
    assert(views(out@) =~= want);
    out
}

fn enough(count: usize, observed: usize, percent: u128) -> (r: bool)
    requires
        percent <= 100,
    ensures
        r == share_of(count as int, observed as int, percent as int),
{
    assert(observed * percent <= observed * 100) by (nonlinear_arith)
        requires
            percent <= 100,
    ;
    observed > 0 && count as u128 * 100 >= observed as u128 * percent
}

/// What kind of match a demo shows, told from the signs and the teams.
pub fn judge_mode(signs: ModeSigns, counts: RosterCounts, stv: bool, server_known: bool) -> (out:
    ModeVerdict)
    ensures
        out.model() == verdict(signs, counts, stv, server_known),
{
    let observed: usize = counts.observed;
    let needed: usize = if observed < 3 {
        1
    } else {
        3
    };
    if signs.highlander || (counts.highlander >= needed && enough(
        counts.highlander,
        observed,
        35,
    )) {
        let sure = signs.highlander || (signs.tournament && enough(
            counts.highlander,
            observed,
            60,
        ));
        return verdict_with(
            if signs.rgl {
                "rgl_highlander"
            } else {
                "highlander"
            },
            if signs.rgl {
                "RGL Highlander"
            } else {
                "Highlander Competitive"
            },
            if sure {
                "high"
            } else {
                "medium"
            },
            tell_rosters(
                counts.highlander,
                observed,
                " sustained roster samples matched Highlander",
                "explicit Highlander config evidence: ",
                signs.highlander,
                signs.tournament,
                stv,
            ),
        );
    }
    if signs.sixes || (counts.sixes >= needed && enough(counts.sixes, observed, 35)) {
        let sure = signs.sixes || (signs.tournament && enough(counts.sixes, observed, 60));
        return verdict_with(
            if signs.rgl {
                "rgl_6v6"
            } else {
                "6v6"
            },
            if signs.rgl {
                "RGL 6v6"
            } else {
                "6v6 Competitive"
            },
            if sure {
                "high"
            } else {
                "medium"
            },
            tell_rosters(
                counts.sixes,
                observed,
                " sustained roster samples matched tolerant 6v6",
                "explicit 6v6 config evidence: ",
                signs.sixes,
                signs.tournament,
                stv,
            ),
        );
    }
    if signs.rgl {
        return verdict_with(
            "rgl_competitive",
            "RGL Competitive",
            "medium",
            one_line("RGL signature recorded; format uncertain".to_owned()),
        );
    }
    if signs.tournament || (counts.small >= needed && enough(counts.small, observed, 60)) {
        let mut line = u64_text(counts.small as u64);
        line.append(" of ");
        line.append(u64_text(observed as u64).as_str());
        line.append(" samples had stable small-team rosters");
        return verdict_with(
            "competitive_uncertain",
            "Competitive — Format Uncertain",
            "medium",
            one_line(line),
        );
    }
    if signs.valve {
        return verdict_with(
            "valve_public",
            "Valve Public",
            "medium",
            one_line("Valve/matchmaking signature recorded".to_owned()),
        );
    }
    if server_known {
        return verdict_with(
            "community_public",
            "Community Public",
            "medium",
            one_line(
                "Community server without sustained competitive roster evidence".to_owned(),
            ),
        );
    }
    let none: Vec<String> = Vec::new();
    assert(views(none@) =~= Seq::empty());
    verdict_with("unknown", "Unknown / Mixed", "low", none)
}

/// What kind of match a demo shows. The server, the signals of the manifest and
/// what was said, each as one text, are looked through for signs of it.
pub fn classify_mode(
    server: &str,
    signals: &Vec<String>,
    said: &Vec<String>,
    stv: bool,
    samples: &Vec<RosterSample>,
) -> (out: ModeVerdict)
    ensures
        out.model() == verdict(
            signs_in(said_of_match(server@, views(signals@), views(said@)), server@),
            roster_counts(samples@),
            stv,
            unicode_lower(server@).len() > 0,
        ),
{
    let lowered = to_lowercase(server);
    let text = mode_text(lowered.as_str(), signals, said);
    let signs = read_signs(text.as_str(), server);
    judge_mode(signs, count_rosters(samples), stv, !lowered.as_str().is_empty())
}

// ---------------------------------------------------------------------------
// What tells a format
// ---------------------------------------------------------------------------

/// A team of nine in which every class is played once.
pub open spec fn one_of_each(team: Option<Vec<ClassCount>>) -> bool {
    team matches Some(roster) && roster.len() == 9 && forall|k: int|
        0 <= k < 9 ==> (#[trigger] roster@[k]).count == 1
}

/// A team of two Scouts, two Soldiers, a Demoman and a Medic.
pub open spec fn full_six(team: Option<Vec<ClassCount>>) -> bool {
    team matches Some(roster) && players(roster@) == 6 && playing(roster@, "scout"@) == 2
        && playing(roster@, "soldier"@) == 2 && playing(roster@, "demoman"@) == 1 && playing(
        roster@,
        "medic"@,
    ) == 1 && offclasses(roster@) == 0
}

/// A team with fewer than eight classes, or one that was not seen.
pub open spec fn few_classes(team: Option<Vec<ClassCount>>) -> bool {
    team matches Some(roster) ==> roster.len() < 8
}

/// What is searched for signs of a format.
pub open spec fn said_of_match(server: Seq<char>, signals: Seq<Seq<char>>, said: Seq<Seq<char>>) -> Seq<
    char,
> {
    with_said(with_signals(unicode_lower(server), signals), said)
}

/// Whether a text names Highlander.
pub open spec fn names_highlander(text: Seq<char>) -> bool {
    has_text(text, "highlander"@) || has_text(text, "rgl_hl"@) || has_text(text, "rgl-hl"@)
}

/// Whether a text names a match of six.
pub open spec fn names_sixes(text: Seq<char>) -> bool {
    has_text(text, "6v6"@) || has_text(text, "sixes"@) || has_text(text, "rgl_6s"@) || has_text(
        text,
        "rgl-6s"@,
    )
}

proof fn lemma_players(roster: Seq<ClassCount>)
    requires
        forall|k: int| 0 <= k < roster.len() ==> (#[trigger] roster[k]).count == 1,
    ensures
        players(roster) == roster.len(),
    decreases roster.len(),
{
    if roster.len() > 0 {
        let rest = roster.drop_last();
        assert forall|k: int| 0 <= k < rest.len() implies (#[trigger] rest[k]).count == 1 by {
            assert(rest[k] == roster[k]);
        }
        lemma_players(rest);
        assert(roster.last() == roster[roster.len() - 1]);
    }
}

proof fn lemma_all_highlander(samples: Seq<RosterSample>)
    requires
        samples.len() <= usize::MAX,
        forall|i: int|
            0 <= i < samples.len() ==> one_of_each((#[trigger] samples[i]).red) && one_of_each(
                samples[i].blu,
            ),
    ensures
        roster_counts(samples).observed == samples.len(),
        roster_counts(samples).highlander == samples.len(),
    decreases samples.len(),
{
    if samples.len() > 0 {
        let rest = samples.drop_last();
        assert forall|i: int| 0 <= i < rest.len() implies one_of_each((#[trigger] rest[i]).red)
            && one_of_each(rest[i].blu) by {
            assert(rest[i] == samples[i]);
        }
        lemma_all_highlander(rest);
        let last = samples[samples.len() - 1];
        assert(one_of_each(last.red) && one_of_each(last.blu));
        lemma_players(last.red->0@);
        lemma_players(last.blu->0@);
    }
}

proof fn lemma_none_highlander(samples: Seq<RosterSample>)
    requires
        samples.len() <= usize::MAX,
        forall|i: int|
            0 <= i < samples.len() ==> few_classes((#[trigger] samples[i]).red) || few_classes(
                samples[i].blu,
            ),
    ensures
        roster_counts(samples).highlander == 0,
    decreases samples.len(),
{
    if samples.len() > 0 {
        let rest = samples.drop_last();
        assert forall|i: int| 0 <= i < rest.len() implies few_classes((#[trigger] rest[i]).red)
            || few_classes(rest[i].blu) by {
            assert(rest[i] == samples[i]);
        }
        lemma_none_highlander(rest);
        let last = samples[samples.len() - 1];
        assert(few_classes(last.red) || few_classes(last.blu));
    }
}

proof fn lemma_all_sixes(samples: Seq<RosterSample>)
    requires
        samples.len() <= usize::MAX,
        forall|i: int|
            0 <= i < samples.len() ==> full_six((#[trigger] samples[i]).red) && full_six(
                samples[i].blu,
            ),
    ensures
        roster_counts(samples).observed == samples.len(),
        roster_counts(samples).sixes == samples.len(),
        roster_counts(samples).highlander == 0,
    decreases samples.len(),
{
    if samples.len() > 0 {
        let rest = samples.drop_last();
        assert forall|i: int| 0 <= i < rest.len() implies full_six((#[trigger] rest[i]).red)
            && full_six(rest[i].blu) by {
            assert(rest[i] == samples[i]);
        }
        lemma_all_sixes(rest);
        let last = samples[samples.len() - 1];
        assert(full_six(last.red) && full_six(last.blu));
    }
}

proof fn lemma_modes_differ()
    ensures
        "highlander"@ != "6v6"@ && "highlander"@ != "rgl_6v6"@ && "highlander"@
            != "rgl_competitive"@ && "highlander"@ != "competitive_uncertain"@ && "highlander"@
            != "valve_public"@ && "highlander"@ != "community_public"@ && "highlander"@
            != "unknown"@,
        "rgl_highlander"@ != "6v6"@ && "rgl_highlander"@ != "rgl_6v6"@ && "rgl_highlander"@
            != "rgl_competitive"@ && "rgl_highlander"@ != "competitive_uncertain"@
            && "rgl_highlander"@ != "valve_public"@ && "rgl_highlander"@ != "community_public"@
            && "rgl_highlander"@ != "unknown"@,
        "6v6"@ != "rgl_competitive"@ && "6v6"@ != "competitive_uncertain"@ && "6v6"@
            != "valve_public"@ && "6v6"@ != "community_public"@ && "6v6"@ != "unknown"@,
        "rgl_6v6"@ != "rgl_competitive"@ && "rgl_6v6"@ != "competitive_uncertain"@ && "rgl_6v6"@
            != "valve_public"@ && "rgl_6v6"@ != "community_public"@ && "rgl_6v6"@ != "unknown"@,
{
    reveal_strlit("highlander");
    reveal_strlit("rgl_highlander");
    reveal_strlit("6v6");
    reveal_strlit("rgl_6v6");
    reveal_strlit("rgl_competitive");
    reveal_strlit("competitive_uncertain");
    reveal_strlit("valve_public");
    reveal_strlit("community_public");
    reveal_strlit("unknown");
    assert("highlander"@.len() == 10 && "rgl_highlander"@.len() == 14 && "6v6"@.len() == 3);
    assert("rgl_6v6"@.len() == 7 && "rgl_competitive"@.len() == 15);
    assert("competitive_uncertain"@.len() == 21 && "valve_public"@.len() == 12);
    assert("community_public"@.len() == 16 && "unknown"@.len() == 7);
    assert("rgl_6v6"@[0] == 'r' && "unknown"@[0] == 'u');
}

/// A match in which both teams always have one player of each of nine classes is
/// Highlander. What the samples say is told as evidence.
pub proof fn law_nine_classes_are_highlander(
    server: Seq<char>,
    signals: Seq<Seq<char>>,
    said: Seq<Seq<char>>,
    stv: bool,
    samples: Seq<RosterSample>,
)
    requires
        0 < samples.len() <= usize::MAX,
        forall|i: int|
            0 <= i < samples.len() ==> one_of_each((#[trigger] samples[i]).red) && one_of_each(
                samples[i].blu,
            ),
    ensures
        ({
            let out = verdict(
                signs_in(said_of_match(server, signals, said), server),
                roster_counts(samples),
                stv,
                unicode_lower(server).len() > 0,
            );
            let count = int_text(samples.len() as int);
            &&& out.mode == "highlander"@ && out.label == "Highlander Competitive"@ || out.mode
                == "rgl_highlander"@ && out.label == "RGL Highlander"@
            &&& out.evidence[0] == count + " of "@ + count
                + " sustained roster samples matched Highlander"@
        }),
{
    lemma_all_highlander(samples);
}

/// A match in which no team was ever seen with eight different classes, and of which
/// nothing names Highlander, is not Highlander.
pub proof fn law_few_classes_are_not_highlander(
    server: Seq<char>,
    signals: Seq<Seq<char>>,
    said: Seq<Seq<char>>,
    stv: bool,
    samples: Seq<RosterSample>,
)
    requires
        samples.len() <= usize::MAX,
        forall|i: int|
            0 <= i < samples.len() ==> few_classes((#[trigger] samples[i]).red) || few_classes(
                samples[i].blu,
            ),
        !names_highlander(said_of_match(server, signals, said)),
    ensures
        ({
            let out = verdict(
                signs_in(said_of_match(server, signals, said), server),
                roster_counts(samples),
                stv,
                unicode_lower(server).len() > 0,
            );
            out.mode != "highlander"@ && out.mode != "rgl_highlander"@
        }),
{
    lemma_none_highlander(samples);
    lemma_modes_differ();
}

/// A match in which both teams always have two Scouts, two Soldiers, a Demoman and a
/// Medic is one of six, unless something names Highlander.
pub proof fn law_full_sixes_are_sixes(
    server: Seq<char>,
    signals: Seq<Seq<char>>,
    said: Seq<Seq<char>>,
    stv: bool,
    samples: Seq<RosterSample>,
)
    requires
        0 < samples.len() <= usize::MAX,
        forall|i: int|
            0 <= i < samples.len() ==> full_six((#[trigger] samples[i]).red) && full_six(
                samples[i].blu,
            ),
        !names_highlander(said_of_match(server, signals, said)),
    ensures
        ({
            let out = verdict(
                signs_in(said_of_match(server, signals, said), server),
                roster_counts(samples),
                stv,
                unicode_lower(server).len() > 0,
            );
            let count = int_text(samples.len() as int);
            &&& out.mode == "6v6"@ && out.label == "6v6 Competitive"@ || out.mode == "rgl_6v6"@
                && out.label == "RGL 6v6"@
            &&& out.evidence[0] == count + " of "@ + count
                + " sustained roster samples matched tolerant 6v6"@
        }),
{
    lemma_all_sixes(samples);
}

/// What is named decides before what was seen: a text that names Highlander makes a
/// match Highlander, one that names six players a match of six, with high confidence.
pub proof fn law_named_formats_decide(
    server: Seq<char>,
    signals: Seq<Seq<char>>,
    said: Seq<Seq<char>>,
    stv: bool,
    samples: Seq<RosterSample>,
)
    ensures
        ({
            let text = said_of_match(server, signals, said);
            let out = verdict(
                signs_in(text, server),
                roster_counts(samples),
                stv,
                unicode_lower(server).len() > 0,
            );
            let rgl = has_text(text, "rgl_"@) || has_text(text, "rgl.gg"@) || has_text(
                text,
                "rgl cfg"@,
            ) || has_text(text, "rgl config"@) || has_text(text, "rgl_whitelist"@);
            &&& names_highlander(text) ==> out.confidence == "high"@ && out.mode == (if rgl {
                "rgl_highlander"@
            } else {
                "highlander"@
            })
            &&& names_sixes(text) && !names_highlander(text) && (forall|i: int|
                0 <= i < samples.len() ==> few_classes((#[trigger] samples[i]).red) || few_classes(
                    samples[i].blu,
                )) && samples.len() <= usize::MAX ==> out.confidence == "high"@ && out.mode == (
            if rgl {
                "rgl_6v6"@
            } else {
                "6v6"@
            })
        }),
{
    let text = said_of_match(server, signals, said);
    if names_sixes(text) && !names_highlander(text) && (forall|i: int|
        0 <= i < samples.len() ==> few_classes((#[trigger] samples[i]).red) || few_classes(
            samples[i].blu,
        )) && samples.len() <= usize::MAX {
        lemma_none_highlander(samples);
    }
}

/// A match of which nothing was seen and nothing tells of a competition is Valve's
/// where a text says so, a community's where the server has a name, and else unknown.
pub proof fn law_public_matches_are_told(
    server: Seq<char>,
    signals: Seq<Seq<char>>,
    said: Seq<Seq<char>>,
    stv: bool,
)
    ensures
        ({
            let text = said_of_match(server, signals, said);
            let out = verdict(
                signs_in(text, server),
                roster_counts(Seq::empty()),
                stv,
                unicode_lower(server).len() > 0,
            );
            let competes = names_highlander(text) || names_sixes(text) || shows_rgl(text)
                || shows_tournament(text);
            let valve = has_text(text, "valve"@) || has_text(text, "matchmaking"@) || has_text(
                text,
                "casual"@,
            ) || has_text(text, "quickplay"@) || has_text(lower(server), "valve"@);
            &&& shows_rgl(text) && !names_highlander(text) && !names_sixes(text) ==> out.mode
                == "rgl_competitive"@
            &&& shows_tournament(text) && !shows_rgl(text) && !names_highlander(text)
                && !names_sixes(text) ==> out.mode == "competitive_uncertain"@
            &&& !competes && valve ==> out.mode == "valve_public"@ && out.label == "Valve Public"@
            &&& !competes && !valve && unicode_lower(server).len() > 0 ==> out.mode
                == "community_public"@ && out.label == "Community Public"@
            &&& !competes && !valve && unicode_lower(server).len() == 0 ==> out.mode == "unknown"@
                && out.confidence == "low"@ && out.evidence.len() == 0
        }),
{
}

/// What was only seen tells a format where at least three samples, and 35 of a hundred,
/// show it; a team of five to ten players on both sides in 60 of a hundred tells a
/// competition.
pub proof fn law_shares_decide(
    signs: ModeSigns,
    counts: RosterCounts,
    stv: bool,
    server_known: bool,
)
    requires
        counts.observed >= 3,
        !signs.highlander,
        !signs.sixes,
        !signs.rgl,
        !signs.tournament,
    ensures
        ({
            let out = verdict(signs, counts, stv, server_known);
            let nine = counts.highlander >= 3 && 100 * counts.highlander >= 35 * counts.observed;
            let six = counts.sixes >= 3 && 100 * counts.sixes >= 35 * counts.observed;
            let small = counts.small >= 3 && 100 * counts.small >= 60 * counts.observed;
            &&& nine <==> out.mode == "highlander"@
            &&& !nine && six <==> out.mode == "6v6"@
            &&& !nine && !six && small <==> out.mode == "competitive_uncertain"@
            &&& nine || six || small ==> out.confidence == "medium"@
        }),
{
    lemma_modes_differ();
    reveal_strlit("competitive_uncertain");
    reveal_strlit("highlander");
    reveal_strlit("6v6");
    reveal_strlit("valve_public");
    reveal_strlit("community_public");
    reveal_strlit("unknown");
    assert("competitive_uncertain"@.len() == 21 && "valve_public"@.len() == 12
        && "community_public"@.len() == 16 && "unknown"@.len() == 7 && "6v6"@.len() == 3
        && "highlander"@.len() == 10);
}

/// One more look at both teams counts once, and for a format where both teams show it: nine
/// players of eight classes or more, six players no more than two away from two scouts, two
/// soldiers, a demoman and a medic, or five to ten players. A look at one team counts for
/// nothing.
pub proof fn law_one_more_sample_counts_once(samples: Seq<RosterSample>, sample: RosterSample)
    requires
        samples.len() < usize::MAX,
    ensures
        ({
            let before = roster_counts(samples);
            let after = roster_counts(samples.push(sample));
            if let (Some(red), Some(blu)) = (sample.red, sample.blu) {
                &&& after.observed == before.observed + 1
                &&& after.highlander == before.highlander + (if players(red@) == 9 && players(blu@)
                    == 9 && red.len() >= 8 && blu.len() >= 8 {
                    1int
                } else {
                    0
                })
                &&& after.small == before.small + (if 5 <= players(red@) <= 10 && 5 <= players(
                    blu@,
                ) <= 10 {
                    1int
                } else {
                    0
                })
                &&& after.sixes == before.sixes + (if players(red@) == 6 && players(blu@) == 6
                    && away_from_six(red@) <= 2 && away_from_six(blu@) <= 2 {
                    1int
                } else {
                    0
                })
            } else {
                after == before
            }
        }),
{
    assert(samples.push(sample).drop_last() =~= samples);
    lemma_counts_below(samples);
}

/// How far a team is from two scouts, two soldiers, a demoman and a medic.
pub open spec fn away_from_six(roster: Seq<ClassCount>) -> int {
    vstd::math::abs(playing(roster, "scout"@) - 2) + vstd::math::abs(
        playing(roster, "soldier"@) - 2,
    ) + vstd::math::abs(playing(roster, "demoman"@) - 1) + vstd::math::abs(
        playing(roster, "medic"@) - 1,
    ) + offclasses(roster)
}

proof fn lemma_counts_below(samples: Seq<RosterSample>)
    requires
        samples.len() < usize::MAX,
    ensures
        roster_counts(samples).observed <= samples.len(),
        roster_counts(samples).small <= samples.len(),
        roster_counts(samples).sixes <= samples.len(),
        roster_counts(samples).highlander <= samples.len(),
    decreases samples.len(),
{
    if samples.len() > 0 {
        lemma_counts_below(samples.drop_last());
    }
}

/// Players of other classes than those of sixes are counted, each as often as it is played.
pub proof fn law_other_classes_are_counted(roster: Seq<ClassCount>, more: ClassCount)
    ensures
        players(roster.push(more)) == players(roster) + more.count,
        more.class@ != "scout"@ && more.class@ != "soldier"@ && more.class@ != "demoman"@
            && more.class@ != "medic"@ ==> offclasses(roster.push(more)) == offclasses(roster)
            + more.count,
        more.class@ == "scout"@ || more.class@ == "soldier"@ || more.class@ == "demoman"@
            || more.class@ == "medic"@ ==> offclasses(roster.push(more)) == offclasses(roster),
{
    assert(roster.push(more).drop_last() =~= roster);
}

/// A format that was only seen is told with confidence where settings of a competition and
/// 60 samples of a hundred show it too.
pub proof fn law_tournaments_make_sure(
    signs: ModeSigns,
    counts: RosterCounts,
    stv: bool,
    server_known: bool,
)
    requires
        counts.observed >= 3,
        counts.highlander >= 3,
        100 * counts.highlander >= 35 * counts.observed,
        !signs.highlander,
    ensures
        verdict(signs, counts, stv, server_known).confidence == "high"@ <==> signs.tournament && 100
            * counts.highlander >= 60 * counts.observed,
        verdict(signs, counts, stv, server_known).mode == "rgl_highlander"@ <==> signs.rgl,
{
    reveal_strlit("high");
    reveal_strlit("medium");
    reveal_strlit("rgl_highlander");
    reveal_strlit("highlander");
    assert("high"@.len() == 4 && "medium"@.len() == 6 && "rgl_highlander"@.len() == 14
        && "highlander"@.len() == 10);
}

} // verus!

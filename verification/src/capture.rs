//! Who recorded a demo, and whose kills are looked at.
use vstd::prelude::*;
use crate::events::{text_field, to_lowercase, unicode_lower, EventRecord};
use crate::models::DemoContext;
use crate::number::{int_of, parse_i64, ranged};
use crate::order::{insert_number, rising};
use crate::record::{integer_of, lookup, text_of, Record};
use crate::text::{clone_list, same_fold, same_ignoring_case, same_text, views};

verus! {

/// What a demo's manifest says of how it was recorded.
#[derive(Debug)]
pub struct CaptureNote {
    pub classification: Option<String>,
    pub confidence: Option<String>,
    pub evidence: Vec<String>,
}

/// A player of a demo's roster, under the key that the roster has for them.
#[derive(Debug)]
pub struct RosterPlayer {
    pub key: String,
    pub player: Record,
}

/// Whether an event tells the name of a player.
pub open spec fn tells_name(kind: Seq<char>) -> bool {
    kind == "player_connect"@ || kind == "player_connect_client"@ || kind == "player_changename"@
}

/// The name that an event tells.
pub open spec fn name_told(event: EventRecord) -> Seq<char> {
    if event.kind() == "player_changename"@ {
        text_field(event.data(), "newname"@)
    } else {
        text_field(event.data(), "name"@)
    }
}

/// The users whom events call by a name.
pub open spec fn users_named(events: Seq<EventRecord>, name: Seq<char>) -> Set<i64>
    decreases events.len(),
{
    if events.len() == 0 {
        Set::empty()
    } else {
        let before = users_named(events.drop_last(), name);
        let event = events.last();
        if tells_name(event.kind()) && same_fold(name_told(event), name) && event.user() > 0 {
            before.insert(event.user() as i64)
        } else {
            before
        }
    }
}

/// The user that a roster's player is; zero where it cannot be told.
pub open spec fn roster_user(entry: RosterPlayer) -> int {
    match integer_of(lookup(entry.player.model(), "user_id"@)) {
        Some(user) => user,
        None => match ranged(int_of(entry.key@), i64::MIN as int, i64::MAX as int) {
            Some(user) => user,
            None => 0,
        },
    }
}

/// The users whom a roster calls by a name.
pub open spec fn roster_named(roster: Seq<RosterPlayer>, name: Seq<char>) -> Set<i64>
    decreases roster.len(),
{
    if roster.len() == 0 {
        Set::empty()
    } else {
        let before = roster_named(roster.drop_last(), name);
        let entry = roster.last();
        match text_of(lookup(entry.player.model(), "name"@)) {
            Some(known) if same_fold(known, name) && roster_user(entry) > 0 => before.insert(
                roster_user(entry) as i64,
            ),
            _ => before,
        }
    }
}

/// The users who can have recorded a demo. The roster is asked only of a demo
/// that a player recorded, and only where no event tells.
pub open spec fn recorders(
    capture_type: Seq<char>,
    events: Seq<EventRecord>,
    nickname: Seq<char>,
    roster: Seq<RosterPlayer>,
) -> Set<i64> {
    if capture_type == "pov"@ && users_named(events, nickname) == Set::<i64>::empty() {
        roster_named(roster, nickname)
    } else {
        users_named(events, nickname)
    }
}

/// The one user who recorded a demo, where a player did and only one can have.
pub open spec fn recorder(capture_type: Seq<char>, users: Set<i64>) -> Option<i64> {
    if capture_type == "pov"@ && users.len() == 1 {
        Some(users.choose())
    } else {
        None
    }
}

/// Whether a context tells rightly of how a demo was recorded.
pub open spec fn context_of(
    context: DemoContext,
    capture_type: Seq<char>,
    note: CaptureNote,
    events: Seq<EventRecord>,
    nickname: Seq<char>,
    roster: Option<Vec<RosterPlayer>>,
) -> bool {
    let players = match roster {
        Some(players) => players@,
        None => Seq::empty(),
    };
    let found = recorder(capture_type, recorders(capture_type, events, nickname, players));
    &&& context.capture_type@ == capture_type
    &&& context.capture_confidence@ == (match note.confidence {
        Some(confidence) => confidence@,
        None => "unknown"@,
    })
    &&& views(context.capture_evidence@) == views(note.evidence@)
    &&& (match context.header_nick {
        Some(nick) => nick@ == nickname && nickname.len() > 0,
        None => nickname.len() == 0,
    })
    &&& context.analysis_scope@ == (if found is Some {
        "pov_player_only"@
    } else {
        "all_players"@
    })
    &&& context.pov_player_user_id == found
    &&& context.roster_match_available == (players.len() > 0)
    &&& context.scope_reason@ == (if found is Some {
        "POV recorder matched to player events or the decoded userinfo roster."@
    } else if capture_type == "pov"@ {
        "POV recording detected, but the recorded player could not be matched safely; all players were retained."@
    } else {
        "STV and unknown demos retain candidates from every player."@
    })
    &&& context.mode@ == Seq::<char>::empty()
    &&& context.mode_label@ == Seq::<char>::empty()
    &&& context.mode_confidence@ == Seq::<char>::empty()
    &&& context.mode_evidence@ == Seq::<String>::empty()
}

fn find_users_named(events: &Vec<EventRecord>, name: &str) -> (out: Vec<i64>)
    ensures
        rising(out@),
        out@.to_set() == users_named(events@, name@),
{
    let mut out: Vec<i64> = Vec::new();
    let mut i: usize = 0;
    assert(out@.to_set() =~= Set::empty());
    while i < events.len()
        invariant
            i <= events.len(),
            rising(out@),
            out@.to_set() == users_named(events@.take(i as int), name@),
        decreases events.len() - i,
    {
        proof {
            assert(events@.take(i + 1).drop_last() =~= events@.take(i as int));
            assert(events@.take(i + 1).last() == events@[i as int]);
        }
        let event = &events[i];
        if event.is("player_connect") || event.is("player_connect_client") || event.is(
            "player_changename",
        ) {
            let told = if event.is("player_changename") {
                event.text("newname")
            } else {
                event.text("name")
            };
            let user: i64 = event.user_id();
            if same_ignoring_case(told.as_str(), name) && user > 0 {
                insert_number(&mut out, user);
            }
        }
        i += 1;
    }
    assert(events@.take(events.len() as int) =~= events@);
    out
}

fn find_roster_named(roster: &Vec<RosterPlayer>, name: &str) -> (out: Vec<i64>)
    ensures
        rising(out@),
        out@.to_set() == roster_named(roster@, name@),
{
    let mut out: Vec<i64> = Vec::new();
    let mut i: usize = 0;
    assert(out@.to_set() =~= Set::empty());
    while i < roster.len()
        invariant
            i <= roster.len(),
            rising(out@),
            out@.to_set() == roster_named(roster@.take(i as int), name@),
        decreases roster.len() - i,
    {
        proof {
            assert(roster@.take(i + 1).drop_last() =~= roster@.take(i as int));
            assert(roster@.take(i + 1).last() == roster@[i as int]);
        }
        let entry = &roster[i];
        if let Some(known) = entry.player.string("name") {
            let user: i64 = match entry.player.integer("user_id") {
                Some(user) => user,
                None => match parse_i64(entry.key.as_str()) {
                    Some(user) => user,
                    None => 0,
                },
            };
            if same_ignoring_case(known.as_str(), name) && user > 0 {
                insert_number(&mut out, user);
            }
        }
        i += 1;
    }
    assert(roster@.take(roster.len() as int) =~= roster@);
    out
}

proof fn lemma_rising_set(list: Seq<i64>)
    requires
        rising(list),
    ensures
        list.to_set().len() == list.len(),
        list.to_set().finite(),
        list.len() == 0 <==> list.to_set() == Set::<i64>::empty(),
        list.len() == 1 ==> list.to_set().choose() == list[0],
{
    assert(list.no_duplicates());
    list.unique_seq_to_set();
    if list.len() == 0 {
        assert(list.to_set() =~= Set::empty());
    } else {
        assert(list.to_set().contains(list[0]));
        if list.len() == 1 {
            let picked = list.to_set().choose();
            assert(list.to_set().contains(picked));
        }
    }
}

/// How a demo was recorded, and whose kills are looked at, where the way of
/// recording is known in lower case.
pub fn context_from(
    capture_type: &str,
    note: &CaptureNote,
    events: &Vec<EventRecord>,
    nickname: &str,
    roster: &Option<Vec<RosterPlayer>>,
) -> (out: DemoContext)
    ensures
        context_of(out, capture_type@, *note, events@, nickname@, *roster),
{
    let pov = same_text(capture_type, "pov");
    let mut users = find_users_named(events, nickname);
    let mut known = false;
    proof {
        lemma_rising_set(users@);
    }
    match roster {
        Some(players) => {
            known = players.len() > 0;
            if pov && users.len() == 0 {
                users = find_roster_named(players, nickname);
            }
        },
        None => {
            if pov && users.len() == 0 {
                assert(users@.to_set() =~= roster_named(Seq::empty(), nickname@));
            }
        },
    }
    proof {
        lemma_rising_set(users@);
    }
    let mut found: Option<i64> = None;
    if pov && users.len() == 1 {
        found = Some(users[0]);
    }
    let scope = if found.is_some() {
        "pov_player_only"
    } else {
        "all_players"
    };
    let reason = if found.is_some() {
        "POV recorder matched to player events or the decoded userinfo roster."
    } else if pov {
        "POV recording detected, but the recorded player could not be matched safely; all players were retained."
    } else {
        "STV and unknown demos retain candidates from every player."
    };
    DemoContext {
        capture_type: capture_type.to_owned(),
        capture_confidence: match &note.confidence {
            Some(confidence) => confidence.clone(),
            None => "unknown".to_owned(),
        },
        capture_evidence: clone_list(&note.evidence),
        header_nick: if nickname.is_empty() {
            None
        } else {
            Some(nickname.to_owned())
        },
        analysis_scope: scope.to_owned(),
        pov_player_user_id: found,
        roster_match_available: known,
        scope_reason: reason.to_owned(),
        mode: String::new(),
        mode_label: String::new(),
        mode_confidence: String::new(),
        mode_evidence: Vec::new(),
    }
}

/// How a demo is said to have been recorded.
pub open spec fn told_capture(note: CaptureNote) -> Seq<char> {
    match note.classification {
        Some(text) => text@,
        None => "unknown"@,
    }
}

/// How a demo was recorded, and whose kills are looked at.
pub fn capture_context(
    note: &CaptureNote,
    events: &Vec<EventRecord>,
    nickname: &str,
    roster: &Option<Vec<RosterPlayer>>,
) -> (out: DemoContext)
    ensures
        context_of(out, unicode_lower(told_capture(*note)), *note, events@, nickname@, *roster),
{
    let told = match &note.classification {
        Some(text) => text.clone(),
        None => "unknown".to_owned(),
    };
    let capture_type = to_lowercase(told.as_str());
    context_from(capture_type.as_str(), note, events, nickname, roster)
}

proof fn lemma_users_named(events: Seq<EventRecord>, name: Seq<char>, user: i64)
    ensures
        users_named(events, name).contains(user) <==> user > 0 && exists|i: int|
            #![trigger events[i]]
            0 <= i < events.len() && events[i].user() as i64 == user && events[i].user() > 0 && (
            (events[i].kind() == "player_connect"@ || events[i].kind()
                == "player_connect_client"@) && same_fold(
                text_field(events[i].data(), "name"@),
                name,
            ) || events[i].kind() == "player_changename"@ && same_fold(
                text_field(events[i].data(), "newname"@),
                name,
            )),
    decreases events.len(),
{
    reveal_strlit("player_connect");
    reveal_strlit("player_connect_client");
    reveal_strlit("player_changename");
    assert("player_connect"@.len() == 14 && "player_connect_client"@.len() == 21
        && "player_changename"@.len() == 17);
    if events.len() > 0 {
        let rest = events.drop_last();
        let last = events.len() - 1;
        lemma_users_named(rest, name, user);
        assert(events[last] == events.last());
        assert forall|i: int| 0 <= i < last implies #[trigger] events[i] == rest[i] by {
        }
    }
}

/// The kills of one player are looked at alone where a player recorded the demo and the
/// events call exactly one user by the name of the recorder; else those of all.
pub proof fn law_scope_follows_the_recorder(
    context: DemoContext,
    capture_type: Seq<char>,
    note: CaptureNote,
    events: Seq<EventRecord>,
    nickname: Seq<char>,
    roster: Option<Vec<RosterPlayer>>,
    user: i64,
)
    requires
        context_of(context, capture_type, note, events, nickname, roster),
    ensures
        capture_type != "pov"@ ==> context.analysis_scope@ == "all_players"@
            && context.pov_player_user_id is None,
        capture_type == "pov"@ && users_named(events, nickname) == set![user]
            ==> context.analysis_scope@ == "pov_player_only"@ && context.pov_player_user_id == Some(
            user,
        ),
        capture_type == "pov"@ && users_named(events, nickname).finite() && users_named(
            events,
            nickname,
        ).len() > 1 ==> context.analysis_scope@ == "all_players"@ && context.pov_player_user_id
            is None,
        context.pov_player_user_id is Some <==> context.analysis_scope@ == "pov_player_only"@,
{
    reveal_strlit("pov_player_only");
    reveal_strlit("all_players");
    assert("pov_player_only"@.len() == 15 && "all_players"@.len() == 11);
    let users = users_named(events, nickname);
    if users == set![user] {
        assert(users.contains(user));
        assert(users.len() == 1);
        assert(users.contains(users.choose()));
        assert(users != Set::<i64>::empty());
    }
    if users.finite() && users.len() > 1 {
        assert(users != Set::<i64>::empty());
    }
}

/// A user is called by a name where an event of theirs tells that they connected under it
/// or took it, in any case.
pub proof fn law_users_are_named_by_their_events(
    events: Seq<EventRecord>,
    name: Seq<char>,
    user: i64,
)
    ensures
        users_named(events, name).contains(user) <==> user > 0 && exists|i: int|
            #![trigger events[i]]
            0 <= i < events.len() && events[i].user() as i64 == user && events[i].user() > 0 && (
            (events[i].kind() == "player_connect"@ || events[i].kind()
                == "player_connect_client"@) && same_fold(
                text_field(events[i].data(), "name"@),
                name,
            ) || events[i].kind() == "player_changename"@ && same_fold(
                text_field(events[i].data(), "newname"@),
                name,
            )),
{
    lemma_users_named(events, name, user);
}

} // verus!

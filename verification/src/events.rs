//! Game events as they come out of a demo's export, and the names of teams and
//! classes in them.
use vstd::prelude::*;
use crate::record::{
    integer_of, lookup, shown_of, Record, RecordModel, ValueModel,
};
use crate::text::{same_text, trim, trimmed};

verus! {

/// The lower case of a text by Unicode's rules, as `str::to_lowercase` gives it.
pub uninterp spec fn unicode_lower(text: Seq<char>) -> Seq<char>;

/// Wraps `str::to_lowercase`: the result is the text in lower case by Unicode's
/// rules, which depends on the text alone. Nothing is said of what those rules
/// are.
#[verifier::external_body]
pub(crate) fn to_lowercase(text: &str) -> (out: String)
    ensures
        out@ == unicode_lower(text@),
{
    text.to_lowercase()
}

/// One game event.
#[derive(Debug)]
pub struct EventRecord {
    pub tick: i64,
    pub demo_tick: i64,
    pub server_tick: Option<i64>,
    pub packet_sequence: i64,
    pub event_index_in_packet: i64,
    pub event_type: String,
    pub event: Record,
}

/// The number of the first of two fields that stands for one; zero where neither
/// does.
pub open spec fn int_among(record: RecordModel, a: Seq<char>, b: Seq<char>) -> int {
    match integer_of(lookup(record, a)) {
        Some(v) => v,
        None => int_field(record, b),
    }
}

/// The number that a field stands for; zero where it does not.
pub open spec fn int_field(record: RecordModel, name: Seq<char>) -> int {
    match integer_of(lookup(record, name)) {
        Some(v) => v,
        None => 0,
    }
}

/// The text of the first of two fields that stands for one; empty where neither
/// does.
pub open spec fn text_among(record: RecordModel, a: Seq<char>, b: Seq<char>) -> Seq<char> {
    match shown_of(lookup(record, a)) {
        Some(t) => t,
        None => text_field(record, b),
    }
}

/// The text that a field stands for; empty where it does not.
pub open spec fn text_field(record: RecordModel, name: Seq<char>) -> Seq<char> {
    match shown_of(lookup(record, name)) {
        Some(t) => t,
        None => Seq::empty(),
    }
}

impl EventRecord {
    /// The name of the event.
    pub open spec fn kind(&self) -> Seq<char> {
        self.event_type@
    }

    /// The fields of the event.
    pub open spec fn data(&self) -> RecordModel {
        self.event.model()
    }

    /// The tick that the analysis goes by: the server's where it is known, else
    /// the later of the two ticks of the demo.
    pub open spec fn at(&self) -> i64 {
        match self.server_tick {
            Some(tick) if tick > 0 => tick,
            _ => if self.tick >= self.demo_tick {
                self.tick
            } else {
                self.demo_tick
            },
        }
    }

    /// The user that the event is about.
    pub open spec fn user(&self) -> int {
        int_among(self.data(), "user_id"@, "userid"@)
    }

    /// The tick that the analysis goes by.
    pub fn analysis_tick(&self) -> (out: i64)
        ensures
            out == self.at(),
    {
        let later: i64 = if self.tick >= self.demo_tick {
            self.tick
        } else {
            self.demo_tick
        };
        match self.server_tick {
            Some(tick) => if tick > 0 {
                tick
            } else {
                later
            },
            None => later,
        }
    }

    /// The number that a field stands for.
    pub fn number(&self, name: &str) -> (out: i64)
        ensures
            out == int_field(self.data(), name@),
    {
        match self.event.integer(name) {
            Some(v) => v,
            None => 0,
        }
    }

    /// The number of the first of two fields that stands for one.
    pub fn number_of_either(&self, a: &str, b: &str) -> (out: i64)
        ensures
            out == int_among(self.data(), a@, b@),
    {
        match self.event.integer(a) {
            Some(v) => v,
            None => self.number(b),
        }
    }

    /// The text of the first of two fields that stands for one.
    pub fn text_of_either(&self, a: &str, b: &str) -> (out: String)
        ensures
            out@ == text_among(self.data(), a@, b@),
    {
        match self.event.shown(a) {
            Some(t) => t,
            None => self.text(b),
        }
    }

    /// The text that a field stands for.
    pub fn text(&self, name: &str) -> (out: String)
        ensures
            out@ == text_field(self.data(), name@),
    {
        match self.event.shown(name) {
            Some(t) => t,
            None => String::new(),
        }
    }

    /// The user that the event is about.
    pub fn user_id(&self) -> (out: i64)
        ensures
            out == self.user(),
    {
        self.number_of_either("user_id", "userid")
    }

    /// Whether the event has a name.
    pub fn is(&self, name: &str) -> (r: bool)
        ensures
            r == (self.kind() == name@),
    {
        same_text(self.event_type.as_str(), name)
    }
}

// ---------------------------------------------------------------------------
// Teams and classes
// ---------------------------------------------------------------------------

/// The team that a name in lower case stands for; empty where it stands for
/// none.
pub open spec fn team_named(lowered: Seq<char>) -> Seq<char> {
    if lowered == "2"@ || lowered == "red"@ {
        "red"@
    } else if lowered == "3"@ || lowered == "blue"@ || lowered == "blu"@ {
        "blu"@
    } else {
        Seq::empty()
    }
}

/// The team that a value stands for.
pub open spec fn team_of(value: Option<ValueModel>) -> Seq<char> {
    let shown = match shown_of(value) {
        Some(t) => t,
        None => Seq::empty(),
    };
    team_named(unicode_lower(shown))
}

/// The class that a name in lower case stands for.
pub open spec fn class_named(lowered: Seq<char>) -> Seq<char> {
    if lowered == "1"@ {
        "scout"@
    } else if lowered == "2"@ {
        "sniper"@
    } else if lowered == "3"@ {
        "soldier"@
    } else if lowered == "4"@ {
        "demoman"@
    } else if lowered == "5"@ {
        "medic"@
    } else if lowered == "6"@ {
        "heavy"@
    } else if lowered == "7"@ {
        "pyro"@
    } else if lowered == "8"@ {
        "spy"@
    } else if lowered == "9"@ {
        "engineer"@
    } else {
        lowered
    }
}

/// The class that a text stands for.
pub open spec fn class_of(text: Seq<char>) -> Seq<char> {
    class_named(unicode_lower(trimmed(text)))
}

/// The team that a name in lower case stands for.
pub fn team_from_lowered(lowered: &str) -> (out: String)
    ensures
        out@ == team_named(lowered@),
{
    if same_text(lowered, "2") || same_text(lowered, "red") {
        "red".to_owned()
    } else if same_text(lowered, "3") || same_text(lowered, "blue") || same_text(lowered, "blu") {
        "blu".to_owned()
    } else {
        String::new()
    }
}

/// The team that a field of a record stands for.
pub fn canonical_team_value(record: &Record, name: &str) -> (out: String)
    ensures
        out@ == team_of(lookup(record.model(), name@)),
{
    let shown = match record.shown(name) {
        Some(t) => t,
        None => String::new(),
    };
    team_from_lowered(to_lowercase(shown.as_str()).as_str())
}

/// The class that a name in lower case stands for.
pub fn class_from_lowered(lowered: &str) -> (out: String)
    ensures
        out@ == class_named(lowered@),
{
    if same_text(lowered, "1") {
        "scout".to_owned()
    } else if same_text(lowered, "2") {
        "sniper".to_owned()
    } else if same_text(lowered, "3") {
        "soldier".to_owned()
    } else if same_text(lowered, "4") {
        "demoman".to_owned()
    } else if same_text(lowered, "5") {
        "medic".to_owned()
    } else if same_text(lowered, "6") {
        "heavy".to_owned()
    } else if same_text(lowered, "7") {
        "pyro".to_owned()
    } else if same_text(lowered, "8") {
        "spy".to_owned()
    } else if same_text(lowered, "9") {
        "engineer".to_owned()
    } else {
        lowered.to_owned()
    }
}

/// The class that a text stands for.
pub fn canonical_class(class: &str) -> (out: String)
    ensures
        out@ == class_of(class@),
{
    class_from_lowered(to_lowercase(trim(class).as_str()).as_str())
}

/// The analysis goes by the tick of the server where it is known; a demo's own ticks are
/// gone by only where it is not, and then by the later of them.
pub proof fn law_server_ticks_come_first(event: EventRecord)
    ensures
        event.server_tick is Some && event.server_tick->0 > 0 ==> event.at()
            == event.server_tick->0,
        event.server_tick is None ==> event.at() >= event.tick && event.at() >= event.demo_tick && (
        event.at() == event.tick || event.at() == event.demo_tick),
{
}

/// The teams are known by their numbers and names, and the classes by the numbers that the
/// game gives them; every other class keeps its name.
pub proof fn law_teams_and_classes_are_numbered(name: Seq<char>)
    ensures
        team_named("2"@) == "red"@ && team_named("red"@) == "red"@,
        team_named("3"@) == "blu"@ && team_named("blu"@) == "blu"@ && team_named("blue"@)
            == "blu"@,
        team_named(name).len() > 0 ==> name == "2"@ || name == "red"@ || name == "3"@ || name
            == "blu"@ || name == "blue"@,
        class_named("1"@) == "scout"@,
        class_named("2"@) == "sniper"@,
        class_named("3"@) == "soldier"@,
        class_named("4"@) == "demoman"@,
        class_named("5"@) == "medic"@,
        class_named("6"@) == "heavy"@,
        class_named("7"@) == "pyro"@,
        class_named("8"@) == "spy"@,
        class_named("9"@) == "engineer"@,
        name.len() != 1 ==> class_named(name) == name,
{
    reveal_strlit("1");
    reveal_strlit("2");
    reveal_strlit("3");
    reveal_strlit("4");
    reveal_strlit("5");
    reveal_strlit("6");
    reveal_strlit("7");
    reveal_strlit("8");
    reveal_strlit("9");
    reveal_strlit("red");
    reveal_strlit("blu");
    reveal_strlit("blue");
    assert("1"@[0] == '1' && "2"@[0] == '2' && "3"@[0] == '3' && "4"@[0] == '4' && "5"@[0] == '5'
        && "6"@[0] == '6' && "7"@[0] == '7' && "8"@[0] == '8' && "9"@[0] == '9');
    assert("red"@.len() == 3 && "blu"@.len() == 3 && "blue"@.len() == 4);
    assert("red"@[0] == 'r' && "blu"@[0] == 'b');
}

} // verus!

//! Choosing candidates by a line of conditions.
use vstd::prelude::*;
use crate::clips::split_first;
use crate::encoding::optional;
use crate::events::{to_lowercase, unicode_lower};
use crate::models::{Candidate, KillRecord};
use crate::number::{
    int_of, int_text, law_written_numbers_read_back, lemma_number_begins, parse_i64,
};
use crate::text::{
    char_is_space, chars_of, contains_text, has_text, is_space, same_text, string_between,
    string_of, views,
};

verus! {

// ---------------------------------------------------------------------------
// The words of a line
// ---------------------------------------------------------------------------

/// What was read of a line: the words that are done, the word that is open, and
/// whether it stands in quotes.
pub struct TokenState {
    pub done: Seq<Seq<char>>,
    pub open: Seq<char>,
    pub quoted: bool,
}

/// What was read once another character is.
pub open spec fn token_step(state: TokenState, c: char) -> TokenState {
    if c == '"' {
        TokenState { quoted: !state.quoted, ..state }
    } else if is_space(c) && !state.quoted {
        if state.open.len() > 0 {
            TokenState {
                done: state.done.push(state.open),
                open: Seq::empty(),
                quoted: state.quoted,
            }
        } else {
            state
        }
    } else {
        TokenState { open: state.open.push(c), ..state }
    }
}

/// What was read of a line.
pub open spec fn token_state(line: Seq<char>) -> TokenState
    decreases line.len(),
{
    if line.len() == 0 {
        TokenState { done: Seq::empty(), open: Seq::empty(), quoted: false }
    } else {
        token_step(token_state(line.drop_last()), line.last())
    }
}

/// The words of a line: what stands between spaces, where quotes keep spaces
/// together.
pub open spec fn tokens(line: Seq<char>) -> Seq<Seq<char>> {
    let state = token_state(line);
    if state.open.len() > 0 {
        state.done.push(state.open)
    } else {
        state.done
    }
}

/// The words of a line.
pub fn tokenize(line: &str) -> (out: Vec<String>)
    ensures
        views(out@) == tokens(line@),
{
    let chars = chars_of(line);
    let mut out: Vec<String> = Vec::new();
    let mut open: Vec<char> = Vec::new();
    let mut quoted = false;
    let mut i: usize = 0;
    proof {
        assert(views(out@) =~= Seq::empty());
        assert(open@ =~= Seq::empty());
        assert(line@.take(0) =~= Seq::empty());
    }
    while i < chars.len()
        invariant
            i <= chars.len(),
            chars@ == line@,
            views(out@) == token_state(line@.take(i as int)).done,
            open@ == token_state(line@.take(i as int)).open,
            quoted == token_state(line@.take(i as int)).quoted,
        decreases chars.len() - i,
    {
        let c = chars[i];
        proof {
            assert(line@.take(i + 1).drop_last() =~= line@.take(i as int));
            assert(line@.take(i + 1).last() == c);
        }
        if c == '"' {
            quoted = !quoted;
        } else if char_is_space(c) && !quoted {
            if open.len() > 0 {
                let ghost before = views(out@);
                let word = string_of(&open);
                out.push(word);
                assert(views(out@) =~= before.push(open@));
                open = Vec::new();
                assert(open@ =~= Seq::empty());
            }
        } else {
            open.push(c);
        }
        i += 1;
    }
    assert(line@.take(chars.len() as int) =~= line@);
    if open.len() > 0 {
        let ghost before = views(out@);
        out.push(string_of(&open));
        assert(views(out@) =~= before.push(open@));
    }
    out
}

// ---------------------------------------------------------------------------
// Conditions
// ---------------------------------------------------------------------------

/// What one word of a line asks for.
pub struct WordModel {
    /// Whether the condition must hold; else it must not.
    pub positive: bool,
    /// The field that is looked at; the whole candidate where there is none.
    pub field: Option<Seq<char>>,
    pub value: Seq<char>,
}

/// What one word of a line asks for, before letters are brought to one case;
/// nothing where only a sign stands there.
pub open spec fn word_of(token: Seq<char>) -> Option<WordModel> {
    let signed = token.len() > 0 && (token[0] == '+' || token[0] == '-');
    let positive = !(token.len() > 0 && token[0] == '-');
    let body = if signed {
        token.skip(1)
    } else {
        token
    };
    if body.len() == 0 {
        None
    } else {
        match split_first(body, ':') {
            Some((field, value)) => Some(
                WordModel { positive, field: Some(field), value },
            ),
            None => Some(WordModel { positive, field: None, value: body }),
        }
    }
}

/// A field and the values that are asked of it.
#[derive(Debug)]
pub struct FieldValues {
    pub field: String,
    pub values: Vec<String>,
}

/// A condition on a field.
#[derive(Debug)]
pub struct FieldValue {
    pub field: String,
    pub value: String,
}

/// Conditions on candidates: of the fields that are asked for, each must have one
/// of its values; no field may have a value that is ruled out; and so for texts.
#[derive(Debug)]
pub struct CandidateFilter {
    pub positive_fields: Vec<FieldValues>,
    pub negative_fields: Vec<FieldValue>,
    pub positive_text: Vec<String>,
    pub negative_text: Vec<String>,
}

/// Conditions, with their texts as sequences.
pub struct FilterModel {
    pub positive_fields: Seq<(Seq<char>, Seq<Seq<char>>)>,
    pub negative_fields: Seq<(Seq<char>, Seq<char>)>,
    pub positive_text: Seq<Seq<char>>,
    pub negative_text: Seq<Seq<char>>,
}

/// Fields with another value.
pub open spec fn with_value(
    fields: Seq<(Seq<char>, Seq<Seq<char>>)>,
    field: Seq<char>,
    value: Seq<char>,
) -> Seq<(Seq<char>, Seq<Seq<char>>)>
    decreases fields.len(),
{
    if fields.len() == 0 {
        seq![(field, seq![value])]
    } else if fields[0].0 == field {
        seq![(field, fields[0].1.push(value))] + fields.skip(1)
    } else {
        seq![fields[0]] + with_value(fields.skip(1), field, value)
    }
}

/// Conditions with another word, whose letters are brought to one case.
pub open spec fn with_word(filter: FilterModel, token: Seq<char>) -> FilterModel {
    match word_of(token) {
        None => filter,
        Some(word) => match word.field {
            Some(field) => if word.positive {
                FilterModel {
                    positive_fields: with_value(
                        filter.positive_fields,
                        unicode_lower(field),
                        unicode_lower(word.value),
                    ),
                    ..filter
                }
            } else {
                FilterModel {
                    negative_fields: filter.negative_fields.push(
                        (unicode_lower(field), unicode_lower(word.value)),
                    ),
                    ..filter
                }
            },
            None => if word.positive {
                FilterModel {
                    positive_text: filter.positive_text.push(unicode_lower(word.value)),
                    ..filter
                }
            } else {
                FilterModel {
                    negative_text: filter.negative_text.push(unicode_lower(word.value)),
                    ..filter
                }
            },
        },
    }
}

/// The conditions of the words of a line.
pub open spec fn conditions(list: Seq<Seq<char>>) -> FilterModel
    decreases list.len(),
{
    if list.len() == 0 {
        FilterModel {
            positive_fields: Seq::empty(),
            negative_fields: Seq::empty(),
            positive_text: Seq::empty(),
            negative_text: Seq::empty(),
        }
    } else {
        with_word(conditions(list.drop_last()), list.last())
    }
}

/// A field and its values, with texts as sequences.
pub open spec fn field_views(fields: Seq<FieldValues>) -> Seq<(Seq<char>, Seq<Seq<char>>)> {
    Seq::new(fields.len(), |i: int| (fields[i].field@, views(fields[i].values@)))
}

/// Conditions on fields, with texts as sequences.
pub open spec fn pair_views(pairs: Seq<FieldValue>) -> Seq<(Seq<char>, Seq<char>)> {
    Seq::new(pairs.len(), |i: int| (pairs[i].field@, pairs[i].value@))
}

proof fn lemma_value_known(
    fields: Seq<(Seq<char>, Seq<Seq<char>>)>,
    field: Seq<char>,
    value: Seq<char>,
    at: int,
)
    requires
        0 <= at < fields.len(),
        fields[at].0 == field,
        forall|k: int| 0 <= k < at ==> (#[trigger] fields[k]).0 != field,
    ensures
        with_value(fields, field, value) == fields.update(at, (field, fields[at].1.push(value))),
    decreases at,
{
    if at == 0 {
        assert(with_value(fields, field, value) =~= fields.update(
            0,
            (field, fields[0].1.push(value)),
        ));
    } else {
        let rest = fields.skip(1);
        assert(fields[0].0 != field);
        assert forall|k: int| 0 <= k < at - 1 implies (#[trigger] rest[k]).0 != field by {
            assert(fields[k + 1].0 != field);
        }
        lemma_value_known(rest, field, value, at - 1);
        assert(seq![fields[0]] + rest.update(at - 1, (field, rest[at - 1].1.push(value)))
            =~= fields.update(at, (field, fields[at].1.push(value))));
    }
}

proof fn lemma_value_new(
    fields: Seq<(Seq<char>, Seq<Seq<char>>)>,
    field: Seq<char>,
    value: Seq<char>,
)
    requires
        forall|k: int| 0 <= k < fields.len() ==> (#[trigger] fields[k]).0 != field,
    ensures
        with_value(fields, field, value) == fields.push((field, seq![value])),
    decreases fields.len(),
{
    if fields.len() == 0 {
        assert(with_value(fields, field, value) =~= fields.push((field, seq![value])));
    } else {
        let rest = fields.skip(1);
        assert(fields[0].0 != field);
        assert forall|k: int| 0 <= k < rest.len() implies (#[trigger] rest[k]).0 != field by {
            assert(fields[k + 1].0 != field);
        }
        lemma_value_new(rest, field, value);
        assert(seq![fields[0]] + rest.push((field, seq![value])) =~= fields.push(
            (field, seq![value]),
        ));
    }
}

fn add_value(fields: &mut Vec<FieldValues>, field: String, value: String)
    ensures
        field_views(final(fields)@) == with_value(field_views(old(fields)@), field@, value@),
{
    let ghost before = field_views(fields@);
    let mut i: usize = 0;
    while i < fields.len()
        invariant
            i <= fields.len(),
            *fields == *old(fields),
            before == field_views(fields@),
            forall|k: int| 0 <= k < i ==> (#[trigger] before[k]).0 != field@,
        decreases fields.len() - i,
    {
        assert(before[i as int].0 == fields@[i as int].field@);
        if same_text(fields[i].field.as_str(), field.as_str()) {
            let ghost known = views(fields@[i as int].values@);
            proof {
                lemma_value_known(before, field@, value@, i as int);
            }
            fields[i].values.push(value);
            proof {
                assert(views(fields@[i as int].values@) =~= known.push(value@));
                assert(field_views(fields@) =~= before.update(
                    i as int,
                    (field@, before[i as int].1.push(value@)),
                ));
            }
            return ;
        }
        i += 1;
    }
    proof {
        lemma_value_new(before, field@, value@);
    }
    let mut values: Vec<String> = Vec::new();
    values.push(value);
    assert(views(values@) =~= seq![value@]);
    fields.push(FieldValues { field, values });
    assert(field_views(fields@) =~= before.push((field@, seq![value@])));
}

/// Where a character first stands in a text.
fn find_char(chars: &Vec<char>, c: char) -> (out: usize)
    ensures
        out <= chars.len(),
        out < chars.len() ==> chars@[out as int] == c,
        forall|k: int| 0 <= k < out ==> #[trigger] chars@[k] != c,
{
    let mut i: usize = 0;
    while i < chars.len()
        invariant
            i <= chars.len(),
            forall|k: int| 0 <= k < i ==> #[trigger] chars@[k] != c,
        decreases chars.len() - i,
    {
        if chars[i] == c {
            return i;
        }
        i += 1;
    }
    i
}

proof fn lemma_split_at(text: Seq<char>, c: char, at: int)
    requires
        0 <= at <= text.len(),
        at < text.len() ==> text[at] == c,
        forall|k: int| 0 <= k < at ==> #[trigger] text[k] != c,
    ensures
        at < text.len() ==> split_first(text, c) == Some((text.take(at), text.skip(at + 1))),
        at == text.len() ==> split_first(text, c) is None,
    decreases text.len(),
{
    if text.len() > 0 && at > 0 {
        let rest = text.skip(1);
        assert(text[0] != c);
        assert forall|k: int| 0 <= k < at - 1 implies #[trigger] rest[k] != c by {
            assert(text[k + 1] != c);
        }
        lemma_split_at(rest, c, at - 1);
        if at < text.len() {
            assert(seq![text[0]] + rest.take(at - 1) =~= text.take(at));
            assert(rest.skip(at) =~= text.skip(at + 1));
        }
    } else if text.len() > 0 {
        assert(text.take(0) =~= Seq::empty());
    }
}

/// What one word of a line asks for.
#[derive(Debug)]
pub struct FilterWord {
    pub positive: bool,
    pub field: Option<String>,
    pub value: String,
}

/// Whether a word was read as it is.
pub open spec fn reads_word(out: Option<FilterWord>, model: Option<WordModel>) -> bool {
    match (out, model) {
        (None, None) => true,
        (Some(word), Some(model)) => word.positive == model.positive && optional(word.field)
            == model.field && word.value@ == model.value,
        _ => false,
    }
}

/// Reads one word of a line.
pub fn read_word(token: &str) -> (out: Option<FilterWord>)
    ensures
        reads_word(out, word_of(token@)),
{
    let chars = chars_of(token);
    let signed = chars.len() > 0 && (chars[0] == '+' || chars[0] == '-');
    let positive = !(chars.len() > 0 && chars[0] == '-');
    let start: usize = if signed {
        1
    } else {
        0
    };
    let body = string_between(&chars, start, chars.len());
    let ghost text = if signed {
        token@.skip(1)
    } else {
        token@
    };
    assert(body@ =~= text);
    let letters = chars_of(body.as_str());
    if letters.len() == 0 {
        return None;
    }
    let at = find_char(&letters, ':');
    proof {
        lemma_split_at(text, ':', at as int);
    }
    if at < letters.len() {
        let field = string_between(&letters, 0, at);
        let value = string_between(&letters, at + 1, letters.len());
        proof {
            assert(field@ =~= text.take(at as int));
            assert(value@ =~= text.skip(at + 1));
        }
        Some(FilterWord { positive, field: Some(field), value })
    } else {
        Some(FilterWord { positive, field: None, value: body })
    }
}

// ---------------------------------------------------------------------------
// Candidates
// ---------------------------------------------------------------------------

/// What of a candidate is looked at, with letters brought to one case.
#[derive(Debug)]
pub struct CandidateTexts {
    pub map: String,
    pub class: String,
    pub team: String,
    pub demo: String,
    pub mode: String,
    pub mode_label: String,
    pub capture: String,
    pub tags: Vec<String>,
    pub weapons: Vec<String>,
    pub player: i64,
    pub recorded: bool,
    /// All that is known of the candidate.
    pub all: String,
}

/// What of a candidate is looked at.
pub struct TextsModel {
    pub map: Seq<char>,
    pub class: Seq<char>,
    pub team: Seq<char>,
    pub demo: Seq<char>,
    pub mode: Seq<char>,
    pub mode_label: Seq<char>,
    pub capture: Seq<char>,
    pub tags: Seq<Seq<char>>,
    pub weapons: Seq<Seq<char>>,
    pub player: int,
    pub recorded: bool,
    pub all: Seq<char>,
}

/// Texts in lower case.
pub open spec fn lowered(list: Seq<Seq<char>>) -> Seq<Seq<char>> {
    Seq::new(list.len(), |i: int| unicode_lower(list[i]))
}

/// The weapons of kills, where they are known.
pub open spec fn weapons_of(kills: Seq<KillRecord>) -> Seq<Seq<char>>
    decreases kills.len(),
{
    if kills.len() == 0 {
        Seq::empty()
    } else {
        let before = weapons_of(kills.drop_last());
        match kills.last().weapon {
            Some(weapon) => before.push(weapon@),
            None => before,
        }
    }
}

/// What of a candidate is looked at, where all that is known of it is a text.
pub open spec fn texts_of(candidate: Candidate, recorded: bool, all: Seq<char>) -> TextsModel {
    TextsModel {
        map: unicode_lower(candidate.map_name@),
        class: unicode_lower(candidate.attacker_class@),
        team: unicode_lower(candidate.attacker_team@),
        demo: unicode_lower(candidate.source_demo@),
        mode: unicode_lower(candidate.demo_context.mode@),
        mode_label: unicode_lower(candidate.demo_context.mode_label@),
        capture: unicode_lower(candidate.demo_context.capture_type@),
        tags: lowered(views(candidate.tags@)),
        weapons: lowered(weapons_of(candidate.kills@)),
        player: candidate.attacker_user_id as int,
        recorded,
        all,
    }
}

impl CandidateTexts {
    /// What of a candidate is looked at.
    pub open spec fn model(&self) -> TextsModel {
        TextsModel {
            map: self.map@,
            class: self.class@,
            team: self.team@,
            demo: self.demo@,
            mode: self.mode@,
            mode_label: self.mode_label@,
            capture: self.capture@,
            tags: views(self.tags@),
            weapons: views(self.weapons@),
            player: self.player as int,
            recorded: self.recorded,
            all: self.all@,
        }
    }

    /// What of a candidate is looked at.
    pub fn of(candidate: &Candidate, recorded: bool, all: &str) -> (out: CandidateTexts)
        ensures
            out.model() == texts_of(*candidate, recorded, all@),
    {
        let tags = lower_list(&candidate.tags);
        let weapons = list_weapons(&candidate.kills);
        CandidateTexts {
            map: to_lowercase(candidate.map_name.as_str()),
            class: to_lowercase(candidate.attacker_class.as_str()),
            team: to_lowercase(candidate.attacker_team.as_str()),
            demo: to_lowercase(candidate.source_demo.as_str()),
            mode: to_lowercase(candidate.demo_context.mode.as_str()),
            mode_label: to_lowercase(candidate.demo_context.mode_label.as_str()),
            capture: to_lowercase(candidate.demo_context.capture_type.as_str()),
            tags,
            weapons,
            player: candidate.attacker_user_id,
            recorded,
            all: all.to_owned(),
        }
    }
}

fn lower_list(list: &Vec<String>) -> (out: Vec<String>)
    ensures
        views(out@) == lowered(views(list@)),
{
    let ghost all = lowered(views(list@));
    let mut out: Vec<String> = Vec::new();
    let mut i: usize = 0;
    assert(views(out@) =~= all.take(0));
    while i < list.len()
        invariant
            i <= list.len(),
            all == lowered(views(list@)),
            views(out@) == all.take(i as int),
        decreases list.len() - i,
    {
        let ghost before = views(out@);
        out.push(to_lowercase(list[i].as_str()));
        proof {
            assert(views(list@)[i as int] == list@[i as int]@);
            assert(views(out@) =~= before.push(all[i as int]));
            assert(all.take(i + 1) =~= all.take(i as int).push(all[i as int]));
        }
        i += 1;
    }
    assert(all.take(list.len() as int) =~= all);
    out
}

fn list_weapons(kills: &Vec<KillRecord>) -> (out: Vec<String>)
    ensures
        views(out@) == lowered(weapons_of(kills@)),
{
    let mut out: Vec<String> = Vec::new();
    let mut i: usize = 0;
    proof {
        assert(kills@.take(0) =~= Seq::empty());
        assert(views(out@) =~= lowered(weapons_of(kills@.take(0))));
    }
    while i < kills.len()
        invariant
            i <= kills.len(),
            views(out@) == lowered(weapons_of(kills@.take(i as int))),
        decreases kills.len() - i,
    {
        let ghost before = views(out@);
        let ghost known = weapons_of(kills@.take(i as int));
        proof {
            assert(kills@.take(i + 1).drop_last() =~= kills@.take(i as int));
            assert(kills@.take(i + 1).last() == kills@[i as int]);
        }
        if let Some(weapon) = &kills[i].weapon {
            out.push(to_lowercase(weapon.as_str()));
            proof {
                assert(views(out@) =~= before.push(unicode_lower(weapon@)));
                assert(lowered(known.push(weapon@)) =~= lowered(known).push(
                    unicode_lower(weapon@),
                ));
            }
        }
        i += 1;
    }
    assert(kills@.take(kills.len() as int) =~= kills@);
    out
}

/// Whether one of some texts holds another.
pub open spec fn any_has(list: Seq<Seq<char>>, value: Seq<char>) -> bool {
    exists|i: int| 0 <= i < list.len() && has_text(#[trigger] list[i], value)
}

fn any_contains(list: &Vec<String>, value: &str) -> (r: bool)
    ensures
        r == any_has(views(list@), value@),
{
    let ghost all = views(list@);
    let mut i: usize = 0;
    while i < list.len()
        invariant
            i <= list.len(),
            all == views(list@),
            forall|k: int| 0 <= k < i ==> !has_text(#[trigger] all[k], value@),
        decreases list.len() - i,
    {
        assert(all[i as int] == list@[i as int]@);
        if contains_text(list[i].as_str(), value) {
            return true;
        }
        i += 1;
    }
    false
}

/// A text without the number signs that it begins with.
pub open spec fn without_signs(text: Seq<char>) -> Seq<char>
    decreases text.len(),
{
    if text.len() > 0 && text[0] == '#' {
        without_signs(text.skip(1))
    } else {
        text
    }
}

fn drop_signs(text: &str) -> (out: String)
    ensures
        out@ == without_signs(text@),
{
    let chars = chars_of(text);
    let mut i: usize = 0;
    assert(text@.skip(0) =~= text@);
    while i < chars.len() && chars[i] == '#'
        invariant
            i <= chars.len(),
            chars@ == text@,
            without_signs(text@) == without_signs(text@.skip(i as int)),
        decreases chars.len() - i,
    {
        proof {
            assert(text@.skip(i as int)[0] == chars@[i as int]);
            assert(text@.skip(i as int).skip(1) =~= text@.skip(i + 1));
        }
        i += 1;
    }
    let out = string_between(&chars, i, chars.len());
    proof {
        assert(out@ =~= text@.skip(i as int));
        if i < chars.len() {
            assert(text@.skip(i as int)[0] == chars@[i as int]);
        }
    }
    out
}

/// The player that a value names.
pub open spec fn player_of(value: Seq<char>) -> Option<int> {
    match int_of(without_signs(value)) {
        Some(n) if i64::MIN <= n <= i64::MAX => Some(n),
        _ => None,
    }
}

/// Whether a value asks for recorded candidates, or for others; nothing else does.
pub open spec fn asks_recorded(value: Seq<char>) -> Option<bool> {
    if value == "true"@ || value == "yes"@ || value == "1"@ || value == "recorded"@ {
        Some(true)
    } else if value == "false"@ || value == "no"@ || value == "0"@ || value == "unrecorded"@ {
        Some(false)
    } else {
        None
    }
}

/// Whether a field of a candidate has a value.
pub open spec fn field_has(texts: TextsModel, field: Seq<char>, value: Seq<char>) -> bool {
    if field == "map"@ {
        has_text(texts.map, value)
    } else if field == "class"@ {
        has_text(texts.class, value)
    } else if field == "team"@ {
        texts.team == (if value == "blue"@ {
            "blu"@
        } else {
            value
        })
    } else if field == "demo"@ {
        has_text(texts.demo, value)
    } else if field == "mode"@ {
        has_text(texts.mode, value) || has_text(texts.mode_label, value)
    } else if field == "type"@ || field == "demo_type"@ || field == "capture"@ {
        has_text(texts.capture, value)
    } else if field == "tag"@ {
        any_has(texts.tags, value)
    } else if field == "player"@ {
        player_of(value) == Some(texts.player)
    } else if field == "recorded"@ {
        asks_recorded(value) == Some(texts.recorded)
    } else if field == "weapon"@ {
        any_has(texts.weapons, value)
    } else if field == "text"@ {
        has_text(texts.all, value)
    } else {
        false
    }
}

fn is_asked_recorded(value: &str) -> (out: Option<bool>)
    ensures
        out == asks_recorded(value@),
{
    if same_text(value, "true") || same_text(value, "yes") || same_text(value, "1") || same_text(
        value,
        "recorded",
    ) {
        Some(true)
    } else if same_text(value, "false") || same_text(value, "no") || same_text(value, "0")
        || same_text(value, "unrecorded") {
        Some(false)
    } else {
        None
    }
}

/// Whether a field of a candidate has a value.
pub fn field_matches(texts: &CandidateTexts, field: &str, value: &str) -> (r: bool)
    ensures
        r == field_has(texts.model(), field@, value@),
{
    if same_text(field, "map") {
        contains_text(texts.map.as_str(), value)
    } else if same_text(field, "class") {
        contains_text(texts.class.as_str(), value)
    } else if same_text(field, "team") {
        if same_text(value, "blue") {
            same_text(texts.team.as_str(), "blu")
        } else {
            same_text(texts.team.as_str(), value)
        }
    } else if same_text(field, "demo") {
        contains_text(texts.demo.as_str(), value)
    } else if same_text(field, "mode") {
        contains_text(texts.mode.as_str(), value) || contains_text(
            texts.mode_label.as_str(),
            value,
        )
    } else if same_text(field, "type") || same_text(field, "demo_type") || same_text(
        field,
        "capture",
    ) {
        contains_text(texts.capture.as_str(), value)
    } else if same_text(field, "tag") {
        any_contains(&texts.tags, value)
    } else if same_text(field, "player") {
        let number = drop_signs(value);
        match parse_i64(number.as_str()) {
            Some(n) => n == texts.player,
            None => false,
        }
    } else if same_text(field, "recorded") {
        match is_asked_recorded(value) {
            Some(asked) => asked == texts.recorded,
            None => false,
        }
    } else if same_text(field, "weapon") {
        any_contains(&texts.weapons, value)
    } else if same_text(field, "text") {
        contains_text(texts.all.as_str(), value)
    } else {
        false
    }
}

/// Whether a field of a candidate has one of some values.
pub open spec fn has_any(texts: TextsModel, field: Seq<char>, values: Seq<Seq<char>>) -> bool {
    exists|i: int| 0 <= i < values.len() && field_has(texts, field, #[trigger] values[i])
}

/// Whether a text holds all of some texts.
pub open spec fn holds_all(text: Seq<char>, list: Seq<Seq<char>>) -> bool {
    forall|i: int| 0 <= i < list.len() ==> has_text(text, #[trigger] list[i])
}

/// Whether a text holds none of some texts.
pub open spec fn holds_none(text: Seq<char>, list: Seq<Seq<char>>) -> bool {
    forall|i: int| 0 <= i < list.len() ==> !has_text(text, #[trigger] list[i])
}

/// Whether every field has one of its values.
pub open spec fn has_each(texts: TextsModel, fields: Seq<(Seq<char>, Seq<Seq<char>>)>) -> bool {
    forall|i: int|
        0 <= i < fields.len() ==> has_any(texts, (#[trigger] fields[i]).0, fields[i].1)
}

/// Whether no field has a value that is ruled out.
pub open spec fn has_none(texts: TextsModel, pairs: Seq<(Seq<char>, Seq<char>)>) -> bool {
    forall|i: int|
        0 <= i < pairs.len() ==> !field_has(texts, (#[trigger] pairs[i]).0, pairs[i].1)
}

/// Whether a candidate meets conditions: of the values that are asked of one
/// field, one is enough; different fields must all have one of theirs.
pub open spec fn meets(filter: FilterModel, texts: TextsModel) -> bool {
    &&& holds_all(texts.all, filter.positive_text)
    &&& holds_none(texts.all, filter.negative_text)
    &&& has_each(texts, filter.positive_fields)
    &&& has_none(texts, filter.negative_fields)
}

fn any_matches(texts: &CandidateTexts, asked: &FieldValues) -> (r: bool)
    ensures
        r == has_any(texts.model(), asked.field@, views(asked.values@)),
{
    let ghost all = views(asked.values@);
    let mut i: usize = 0;
    while i < asked.values.len()
        invariant
            i <= asked.values.len(),
            all == views(asked.values@),
            forall|k: int|
                0 <= k < i ==> !field_has(texts.model(), asked.field@, #[trigger] all[k]),
        decreases asked.values.len() - i,
    {
        assert(all[i as int] == asked.values@[i as int]@);
        if field_matches(texts, asked.field.as_str(), asked.values[i].as_str()) {
            return true;
        }
        i += 1;
    }
    false
}

fn all_in(list: &Vec<String>, text: &str) -> (r: bool)
    ensures
        r == holds_all(text@, views(list@)),
{
    let ghost all = views(list@);
    let mut i: usize = 0;
    while i < list.len()
        invariant
            i <= list.len(),
            all == views(list@),
            forall|k: int| 0 <= k < i ==> has_text(text@, #[trigger] all[k]),
        decreases list.len() - i,
    {
        assert(all[i as int] == list@[i as int]@);
        if !contains_text(text, list[i].as_str()) {
            return false;
        }
        i += 1;
    }
    true
}

fn none_in(list: &Vec<String>, text: &str) -> (r: bool)
    ensures
        r == holds_none(text@, views(list@)),
{
    let ghost all = views(list@);
    let mut i: usize = 0;
    while i < list.len()
        invariant
            i <= list.len(),
            all == views(list@),
            forall|k: int| 0 <= k < i ==> !has_text(text@, #[trigger] all[k]),
        decreases list.len() - i,
    {
        assert(all[i as int] == list@[i as int]@);
        if contains_text(text, list[i].as_str()) {
            return false;
        }
        i += 1;
    }
    true
}

impl CandidateFilter {
    /// The conditions, with their texts as sequences.
    pub open spec fn model(&self) -> FilterModel {
        FilterModel {
            positive_fields: field_views(self.positive_fields@),
            negative_fields: pair_views(self.negative_fields@),
            positive_text: views(self.positive_text@),
            negative_text: views(self.negative_text@),
        }
    }

    fn add_word(&mut self, token: &str)
        ensures
            final(self).model() == with_word(old(self).model(), token@),
    {
        let ghost before = self.model();
        if let Some(word) = read_word(token) {
            let value = to_lowercase(word.value.as_str());
            if let Some(name) = word.field {
                let field = to_lowercase(name.as_str());
                if word.positive {
                    add_value(&mut self.positive_fields, field, value);
                } else {
                    self.negative_fields.push(FieldValue { field, value });
                    assert(pair_views(self.negative_fields@) =~= before.negative_fields.push(
                        (field@, value@),
                    ));
                }
            } else if word.positive {
                self.positive_text.push(value);
                assert(views(self.positive_text@) =~= before.positive_text.push(value@));
            } else {
                self.negative_text.push(value);
                assert(views(self.negative_text@) =~= before.negative_text.push(value@));
            }
        }
    }

    /// Reads a line of conditions.
    pub fn parse(input: &str) -> (out: CandidateFilter)
        ensures
            out.model() == conditions(tokens(input@)),
    {
        let list = tokenize(input);
        let ghost all = views(list@);
        let mut out = CandidateFilter {
            positive_fields: Vec::new(),
            negative_fields: Vec::new(),
            positive_text: Vec::new(),
            negative_text: Vec::new(),
        };
        let mut i: usize = 0;
        proof {
            assert(all.take(0) =~= Seq::empty());
            assert(field_views(out.positive_fields@) =~= Seq::empty());
            assert(pair_views(out.negative_fields@) =~= Seq::empty());
            assert(views(out.positive_text@) =~= Seq::empty());
            assert(views(out.negative_text@) =~= Seq::empty());
        }
        while i < list.len()
            invariant
                i <= list.len(),
                all == views(list@),
                out.model() == conditions(all.take(i as int)),
            decreases list.len() - i,
        {
            proof {
                assert(all.take(i + 1).drop_last() =~= all.take(i as int));
                assert(all.take(i + 1).last() == list@[i as int]@);
            }
            out.add_word(list[i].as_str());
            i += 1;
        }
        assert(all.take(list.len() as int) =~= all);
        out
    }

    /// Whether what is known of a candidate meets the conditions.
    pub fn matches_texts(&self, texts: &CandidateTexts) -> (r: bool)
        ensures
            r == meets(self.model(), texts.model()),
    {
        let ghost fields = field_views(self.positive_fields@);
        let ghost pairs = pair_views(self.negative_fields@);
        let ghost known = texts.model();
        if !all_in(&self.positive_text, texts.all.as_str()) {
            return false;
        }
        if !none_in(&self.negative_text, texts.all.as_str()) {
            return false;
        }
        let mut i: usize = 0;
        while i < self.positive_fields.len()
            invariant
                i <= self.positive_fields.len(),
                fields == field_views(self.positive_fields@),
                known == texts.model(),
                forall|k: int|
                    0 <= k < i ==> has_any(known, (#[trigger] fields[k]).0, fields[k].1),
            decreases self.positive_fields.len() - i,
        {
            assert(fields[i as int] == (
                self.positive_fields@[i as int].field@,
                views(self.positive_fields@[i as int].values@),
            ));
            if !any_matches(texts, &self.positive_fields[i]) {
                assert(!has_each(known, fields));
                return false;
            }
            i += 1;
        }
        assert(has_each(known, fields));
        let mut j: usize = 0;
        while j < self.negative_fields.len()
            invariant
                j <= self.negative_fields.len(),
                pairs == pair_views(self.negative_fields@),
                known == texts.model(),
                forall|k: int|
                    0 <= k < j ==> !field_has(known, (#[trigger] pairs[k]).0, pairs[k].1),
            decreases self.negative_fields.len() - j,
        {
            let pair = &self.negative_fields[j];
            assert(pairs[j as int] == (pair.field@, pair.value@));
            if field_matches(texts, pair.field.as_str(), pair.value.as_str()) {
                assert(!has_none(known, pairs));
                return false;
            }
            j += 1;
        }
        assert(has_none(known, pairs));
        true
    }

    /// Whether a candidate meets the conditions, where all that is known of it is
    /// a text.
    pub fn matches(&self, candidate: &Candidate, recorded: bool, text: &str) -> (r: bool)
        ensures
            r == meets(self.model(), texts_of(*candidate, recorded, text@)),
    {
        let texts = CandidateTexts::of(candidate, recorded, text);
        self.matches_texts(&texts)
    }
}

/// Of the values that are asked of one field, one is enough; a value that is asked
/// of another field must be there too.
pub proof fn law_one_value_of_each_field(
    filter: FilterModel,
    texts: TextsModel,
    field: Seq<char>,
    value: Seq<char>,
)
    requires
        meets(filter, texts),
    ensures
        (exists|i: int|
            0 <= i < filter.positive_fields.len() && (#[trigger] filter.positive_fields[i]).0
                == field) ==> meets(
            FilterModel {
                positive_fields: with_value(filter.positive_fields, field, value),
                ..filter
            },
            texts,
        ),
        (forall|i: int|
            0 <= i < filter.positive_fields.len() ==> (#[trigger] filter.positive_fields[i]).0
                != field) ==> (meets(
            FilterModel {
                positive_fields: with_value(filter.positive_fields, field, value),
                ..filter
            },
            texts,
        ) <==> field_has(texts, field, value)),
{
    let fields = filter.positive_fields;
    let more = with_value(fields, field, value);
    let wider = FilterModel { positive_fields: more, ..filter };
    if forall|i: int| 0 <= i < fields.len() ==> (#[trigger] fields[i]).0 != field {
        lemma_value_new(fields, field, value);
        let last = fields.len() as int;
        assert(more[last] == (field, seq![value]));
        if field_has(texts, field, value) {
            assert(seq![value][0] == value);
            assert(has_any(texts, field, seq![value]));
            assert forall|i: int| 0 <= i < more.len() implies has_any(
                texts,
                (#[trigger] more[i]).0,
                more[i].1,
            ) by {
                if i < last {
                    assert(more[i] == fields[i]);
                }
            }
        }
        if meets(wider, texts) {
            assert(has_each(texts, more));
            assert(has_any(texts, more[last].0, more[last].1));
            assert(seq![value].len() == 1);
        }
    } else {
        let first = first_of_field(fields, field, 0);
        lemma_first_of_field(fields, field, 0);
        lemma_value_known(fields, field, value, first);
        assert forall|i: int| 0 <= i < more.len() implies has_any(
            texts,
            (#[trigger] more[i]).0,
            more[i].1,
        ) by {
            assert(has_any(texts, fields[i].0, fields[i].1));
            if i == first {
                let k = choose|k: int|
                    0 <= k < fields[i].1.len() && field_has(
                        texts,
                        fields[i].0,
                        #[trigger] fields[i].1[k],
                    );
                assert(more[i].1[k] == fields[i].1[k]);
            }
        }
    }
}

/// The first place of a field, from a place on.
pub open spec fn first_of_field(
    fields: Seq<(Seq<char>, Seq<Seq<char>>)>,
    field: Seq<char>,
    from: int,
) -> int
    decreases fields.len() - from,
{
    if from >= fields.len() || fields[from].0 == field {
        from
    } else {
        first_of_field(fields, field, from + 1)
    }
}

proof fn lemma_first_of_field(
    fields: Seq<(Seq<char>, Seq<Seq<char>>)>,
    field: Seq<char>,
    from: int,
)
    requires
        0 <= from <= fields.len(),
        exists|i: int| from <= i < fields.len() && (#[trigger] fields[i]).0 == field,
        forall|k: int| 0 <= k < from ==> (#[trigger] fields[k]).0 != field,
    ensures
        ({
            let at = first_of_field(fields, field, from);
            &&& from <= at < fields.len()
            &&& fields[at].0 == field
            &&& forall|k: int| 0 <= k < at ==> (#[trigger] fields[k]).0 != field
        }),
    decreases fields.len() - from,
{
    if fields[from].0 != field {
        lemma_first_of_field(fields, field, from + 1);
    }
}

/// Conditions that only ask for one value of one field.
pub open spec fn asks_only(field: Seq<char>, value: Seq<char>) -> FilterModel {
    FilterModel {
        positive_fields: seq![(field, seq![value])],
        negative_fields: Seq::empty(),
        positive_text: Seq::empty(),
        negative_text: Seq::empty(),
    }
}

proof fn lemma_asks_only(texts: TextsModel, field: Seq<char>, value: Seq<char>)
    ensures
        meets(asks_only(field, value), texts) == field_has(texts, field, value),
{
    let fields = asks_only(field, value).positive_fields;
    assert(fields[0] == (field, seq![value]));
    assert(seq![value][0] == value);
    if field_has(texts, field, value) {
        assert(has_any(texts, field, seq![value]));
        assert(has_each(texts, fields));
    } else {
        assert(!has_any(texts, fields[0].0, fields[0].1));
    }
}

proof fn lemma_field_names()
    ensures
        "class"@ != "map"@,
        "team"@ != "map"@ && "team"@ != "class"@,
        "demo"@ != "map"@ && "demo"@ != "class"@ && "demo"@ != "team"@,
        "mode"@ != "map"@ && "mode"@ != "class"@ && "mode"@ != "team"@ && "mode"@ != "demo"@,
        forall|field: Seq<char>|
            #![trigger field.len()]
            field == "type"@ || field == "demo_type"@ || field == "capture"@ ==> field != "map"@
                && field != "class"@ && field != "team"@ && field != "demo"@ && field != "mode"@,
        forall|field: Seq<char>|
            #![trigger field.len()]
            field == "tag"@ || field == "player"@ || field == "recorded"@ || field == "weapon"@
                || field == "text"@ ==> field != "map"@ && field != "class"@ && field != "team"@
                && field != "demo"@ && field != "mode"@ && field != "type"@ && field
                != "demo_type"@ && field != "capture"@,
        "player"@ != "tag"@,
        "recorded"@ != "tag"@ && "recorded"@ != "player"@,
        "weapon"@ != "tag"@ && "weapon"@ != "player"@ && "weapon"@ != "recorded"@,
        "text"@ != "tag"@ && "text"@ != "player"@ && "text"@ != "recorded"@ && "text"@ != "weapon"@,
{
    reveal_strlit("map");
    reveal_strlit("class");
    reveal_strlit("team");
    reveal_strlit("demo");
    reveal_strlit("mode");
    reveal_strlit("type");
    reveal_strlit("demo_type");
    reveal_strlit("capture");
    reveal_strlit("tag");
    reveal_strlit("player");
    reveal_strlit("recorded");
    reveal_strlit("weapon");
    reveal_strlit("text");
    assert("map"@.len() == 3 && "class"@.len() == 5 && "team"@.len() == 4 && "demo"@.len() == 4 && "mode"@.len() == 4 && "type"@.len() == 4 && "demo_type"@.len() == 9);
    assert("capture"@.len() == 7 && "tag"@.len() == 3 && "player"@.len() == 6 && "recorded"@.len() == 8 && "weapon"@.len() == 6 && "text"@.len() == 4);
    assert("map"@[0] == 'm' && "tag"@[0] == 't');
    assert("team"@[0] == 't' && "demo"@[0] == 'd' && "mode"@[0] == 'm');
    assert("type"@[0] == 't' && "text"@[0] == 't');
    assert("team"@[1] == 'e' && "type"@[1] == 'y' && "text"@[1] == 'e');
    assert("team"@[2] == 'a' && "text"@[2] == 'x');
    assert("player"@[0] == 'p' && "weapon"@[0] == 'w');
}

proof fn lemma_weapons(kills: Seq<KillRecord>, value: Seq<char>)
    ensures
        any_has(lowered(weapons_of(kills)), value) <==> exists|i: int|
            0 <= i < kills.len() && ((#[trigger] kills[i]).weapon matches Some(weapon) && has_text(
                unicode_lower(weapon@),
                value,
            )),
    decreases kills.len(),
{
    let all = lowered(weapons_of(kills));
    if kills.len() > 0 {
        let rest = kills.drop_last();
        let known = lowered(weapons_of(rest));
        lemma_weapons(rest, value);
        if any_has(all, value) {
            let k = choose|k: int| 0 <= k < all.len() && has_text(#[trigger] all[k], value);
            if k < known.len() {
                assert(all[k] == known[k]);
                assert(any_has(known, value));
                let i = choose|i: int|
                    0 <= i < rest.len() && ((#[trigger] rest[i]).weapon matches Some(weapon)
                        && has_text(unicode_lower(weapon@), value));
                assert(kills[i] == rest[i]);
            } else {
                assert(kills[kills.len() - 1].weapon is Some);
            }
        }
        if exists|i: int|
            0 <= i < kills.len() && ((#[trigger] kills[i]).weapon matches Some(weapon) && has_text(
                unicode_lower(weapon@),
                value,
            )) {
            let i = choose|i: int|
                0 <= i < kills.len() && ((#[trigger] kills[i]).weapon matches Some(weapon)
                    && has_text(unicode_lower(weapon@), value));
            if i < rest.len() {
                assert(rest[i] == kills[i]);
                assert(any_has(known, value));
                let k = choose|k: int| 0 <= k < known.len() && has_text(#[trigger] known[k], value);
                assert(all[k] == known[k]);
            } else {
                assert(all[all.len() - 1] == unicode_lower((kills[i].weapon->0)@));
            }
        }
    }
}

/// A condition on the tags is met by a candidate one of whose tags holds the value,
/// and a condition on the weapons by one of whose kills has such a weapon.
pub proof fn law_tags_and_weapons_are_searched(
    candidate: Candidate,
    recorded: bool,
    text: Seq<char>,
    value: Seq<char>,
)
    ensures
        meets(asks_only("tag"@, value), texts_of(candidate, recorded, text)) <==> exists|i: int|
            0 <= i < candidate.tags.len() && has_text(
                unicode_lower((#[trigger] candidate.tags@[i])@),
                value,
            ),
        meets(asks_only("weapon"@, value), texts_of(candidate, recorded, text)) <==> exists|i: int|
            0 <= i < candidate.kills.len() && ((#[trigger] candidate.kills@[i]).weapon matches Some(
                weapon,
            ) && has_text(unicode_lower(weapon@), value)),
{
    let texts = texts_of(candidate, recorded, text);
    lemma_field_names();
    lemma_asks_only(texts, "tag"@, value);
    lemma_asks_only(texts, "weapon"@, value);
    lemma_weapons(candidate.kills@, value);
    assert("tag"@.len() >= 0 && "weapon"@.len() >= 0);
    let tags = texts.tags;
    if any_has(tags, value) {
        let k = choose|k: int| 0 <= k < tags.len() && has_text(#[trigger] tags[k], value);
        assert(tags[k] == unicode_lower(candidate.tags@[k]@));
    }
    if exists|i: int|
        0 <= i < candidate.tags.len() && has_text(
            unicode_lower((#[trigger] candidate.tags@[i])@),
            value,
        ) {
        let i = choose|i: int|
            0 <= i < candidate.tags.len() && has_text(
                unicode_lower((#[trigger] candidate.tags@[i])@),
                value,
            );
        assert(tags[i] == unicode_lower(candidate.tags@[i]@));
    }
}

/// What a condition on the tags, on the map or on the class says of a candidate does
/// not change with its kills.
pub proof fn law_kills_do_not_decide(
    a: Candidate,
    b: Candidate,
    recorded: bool,
    text: Seq<char>,
    value: Seq<char>,
)
    requires
        views(a.tags@) == views(b.tags@),
        a.map_name@ == b.map_name@,
        a.attacker_class@ == b.attacker_class@,
    ensures
        meets(asks_only("tag"@, value), texts_of(a, recorded, text)) == meets(
            asks_only("tag"@, value),
            texts_of(b, recorded, text),
        ),
        meets(asks_only("map"@, value), texts_of(a, recorded, text)) == meets(
            asks_only("map"@, value),
            texts_of(b, recorded, text),
        ),
        meets(asks_only("class"@, value), texts_of(a, recorded, text)) == meets(
            asks_only("class"@, value),
            texts_of(b, recorded, text),
        ),
{
    lemma_field_names();
    lemma_asks_only(texts_of(a, recorded, text), "tag"@, value);
    lemma_asks_only(texts_of(b, recorded, text), "tag"@, value);
    lemma_asks_only(texts_of(a, recorded, text), "map"@, value);
    lemma_asks_only(texts_of(b, recorded, text), "map"@, value);
    lemma_asks_only(texts_of(a, recorded, text), "class"@, value);
    lemma_asks_only(texts_of(b, recorded, text), "class"@, value);
    assert("tag"@.len() >= 0);
}

/// A condition on the map, the class, the demo, the mode or the capture is met where
/// the value stands in it, and one on the team where the team is the value, which may
/// be written "blue".
pub proof fn law_texts_are_searched(
    candidate: Candidate,
    recorded: bool,
    text: Seq<char>,
    value: Seq<char>,
)
    ensures
        ({
            let texts = texts_of(candidate, recorded, text);
            let context = candidate.demo_context;
            &&& meets(asks_only("map"@, value), texts) <==> has_text(
                unicode_lower(candidate.map_name@),
                value,
            )
            &&& meets(asks_only("class"@, value), texts) <==> has_text(
                unicode_lower(candidate.attacker_class@),
                value,
            )
            &&& meets(asks_only("demo"@, value), texts) <==> has_text(
                unicode_lower(candidate.source_demo@),
                value,
            )
            &&& meets(asks_only("mode"@, value), texts) <==> has_text(
                unicode_lower(context.mode@),
                value,
            ) || has_text(unicode_lower(context.mode_label@), value)
            &&& meets(asks_only("type"@, value), texts) <==> has_text(
                unicode_lower(context.capture_type@),
                value,
            )
            &&& meets(asks_only("demo_type"@, value), texts) <==> has_text(
                unicode_lower(context.capture_type@),
                value,
            )
            &&& meets(asks_only("capture"@, value), texts) <==> has_text(
                unicode_lower(context.capture_type@),
                value,
            )
            &&& meets(asks_only("text"@, value), texts) <==> has_text(text, value)
            &&& value != "blue"@ ==> (meets(asks_only("team"@, value), texts) <==> unicode_lower(
                candidate.attacker_team@,
            ) == value)
            &&& meets(asks_only("team"@, "blue"@), texts) <==> unicode_lower(
                candidate.attacker_team@,
            ) == "blu"@
        }),
{
    let texts = texts_of(candidate, recorded, text);
    lemma_field_names();
    lemma_asks_only(texts, "map"@, value);
    lemma_asks_only(texts, "class"@, value);
    lemma_asks_only(texts, "demo"@, value);
    lemma_asks_only(texts, "mode"@, value);
    lemma_asks_only(texts, "type"@, value);
    lemma_asks_only(texts, "demo_type"@, value);
    lemma_asks_only(texts, "capture"@, value);
    lemma_asks_only(texts, "text"@, value);
    lemma_asks_only(texts, "team"@, value);
    lemma_asks_only(texts, "team"@, "blue"@);
    assert("type"@.len() >= 0 && "demo_type"@.len() >= 0 && "capture"@.len() >= 0);
    assert("text"@.len() >= 0);
}

/// A condition on the player names them by their number, with a number sign before it
/// or without; one on the recordings tells recorded candidates from others; a field
/// that is not known is never met.
pub proof fn law_players_and_recordings_are_told(
    candidate: Candidate,
    recorded: bool,
    text: Seq<char>,
    player: i64,
    value: Seq<char>,
    field: Seq<char>,
)
    ensures
        ({
            let texts = texts_of(candidate, recorded, text);
            let number = int_text(player as int);
            &&& meets(asks_only("player"@, number), texts) <==> candidate.attacker_user_id == player
            &&& meets(asks_only("player"@, seq!['#'] + number), texts)
                <==> candidate.attacker_user_id == player
            &&& value == "true"@ || value == "yes"@ || value == "1"@ || value == "recorded"@ ==> (
            meets(asks_only("recorded"@, value), texts) <==> recorded)
            &&& value == "false"@ || value == "no"@ || value == "0"@ || value == "unrecorded"@ ==> (
            meets(asks_only("recorded"@, value), texts) <==> !recorded)
            &&& field != "map"@ && field != "class"@ && field != "team"@ && field != "demo"@
                && field != "mode"@ && field != "type"@ && field != "demo_type"@ && field
                != "capture"@ && field != "tag"@ && field != "player"@ && field != "recorded"@
                && field != "weapon"@ && field != "text"@ ==> !meets(
                asks_only(field, value),
                texts,
            )
        }),
{
    let texts = texts_of(candidate, recorded, text);
    let number = int_text(player as int);
    let signed = seq!['#'] + number;
    lemma_field_names();
    lemma_asks_only(texts, "player"@, number);
    lemma_asks_only(texts, "player"@, signed);
    lemma_asks_only(texts, "recorded"@, value);
    lemma_asks_only(texts, field, value);
    law_written_numbers_read_back(player as int);
    assert("player"@.len() >= 0 && "recorded"@.len() >= 0);
    assert(number.len() > 0 ==> number[0] != '#') by {
        lemma_number_begins(player as int);
    }
    assert(signed.skip(1) =~= number);
    reveal_with_fuel(without_signs, 3);
    reveal_strlit("true");
    reveal_strlit("yes");
    reveal_strlit("1");
    reveal_strlit("recorded");
    reveal_strlit("false");
    reveal_strlit("no");
    reveal_strlit("0");
    reveal_strlit("unrecorded");
    assert("1"@[0] == '1' && "0"@[0] == '0');
}

/// A word with a minus sign asks for the opposite of the word without it; a plus sign
/// changes nothing.
pub proof fn law_minus_asks_for_the_opposite(word: Seq<char>, texts: TextsModel)
    requires
        word.len() > 0,
        word[0] != '+',
        word[0] != '-',
    ensures
        meets(conditions(seq![seq!['-'] + word]), texts) == !meets(conditions(seq![word]), texts),
        meets(conditions(seq![seq!['+'] + word]), texts) == meets(conditions(seq![word]), texts),
{
    let minus = seq!['-'] + word;
    let plus = seq!['+'] + word;
    assert(minus.skip(1) =~= word);
    assert(plus.skip(1) =~= word);
    lemma_one_word(word);
    lemma_one_word(minus);
    lemma_one_word(plus);
    let asked = word_of(word)->0;
    let value = unicode_lower(asked.value);
    match asked.field {
        Some(name) => {
            let field = unicode_lower(name);
            lemma_asks_only(texts, field, value);
            let pairs = seq![(field, value)];
            assert(Seq::<(Seq<char>, Seq<char>)>::empty().push((field, value)) =~= pairs);
            assert(pairs[0] == (field, value));
            assert(has_none(texts, pairs) == !field_has(texts, field, value));
        },
        None => {
            let list = Seq::<Seq<char>>::empty().push(value);
            assert(list[0] == value);
            assert(holds_all(texts.all, list) == has_text(texts.all, value));
            assert(holds_none(texts.all, list) == !has_text(texts.all, value));
        },
    }
}

proof fn lemma_one_word(word: Seq<char>)
    ensures
        conditions(seq![word]) == with_word(conditions(Seq::empty()), word),
        with_value(Seq::empty(), word, word) == seq![(word, seq![word])],
{
    assert(seq![word].drop_last() =~= Seq::empty());
    assert(seq![word].last() == word);
}

/// A word with a colon asks for the value behind it in the field before it; a word
/// without one asks for itself in all that is known.
pub proof fn law_words_name_fields(field: Seq<char>, value: Seq<char>, text: Seq<char>, texts: TextsModel)
    requires
        !field.contains(':'),
        field.len() > 0 ==> field[0] != '+' && field[0] != '-',
        !text.contains(':'),
        text.len() > 0,
        text[0] != '+' && text[0] != '-',
    ensures
        conditions(seq![field + seq![':'] + value]) == asks_only(
            unicode_lower(field),
            unicode_lower(value),
        ),
        meets(conditions(seq![text]), texts) <==> has_text(texts.all, unicode_lower(text)),
{
    let word = field + seq![':'] + value;
    let at = field.len() as int;
    assert(word[at] == ':');
    assert forall|k: int| 0 <= k < at implies #[trigger] word[k] != ':' by {
        assert(field[k] == word[k]);
        assert(field.contains(field[k]));
    }
    lemma_split_at(word, ':', at);
    assert(word.take(at) =~= field);
    assert(word.skip(at + 1) =~= value);
    lemma_one_word(word);
    assert(word.len() > 0 ==> word[0] == (if field.len() > 0 {
        field[0]
    } else {
        ':'
    }));
    let asked = conditions(seq![word]);
    assert(asked.positive_fields =~= asks_only(
        unicode_lower(field),
        unicode_lower(value),
    ).positive_fields);
    assert forall|k: int| 0 <= k < text.len() implies #[trigger] text[k] != ':' by {
        assert(text.contains(text[k]));
    }
    lemma_split_at(text, ':', text.len() as int);
    lemma_one_word(text);
    let list = Seq::<Seq<char>>::empty().push(unicode_lower(text));
    assert(list[0] == unicode_lower(text));
    assert(holds_all(texts.all, list) == has_text(texts.all, unicode_lower(text)));
}

/// How many quotation marks stand in a text.
pub open spec fn quotes(text: Seq<char>) -> nat
    decreases text.len(),
{
    if text.len() == 0 {
        0
    } else {
        quotes(text.drop_last()) + if text.last() == '"' {
            1nat
        } else {
            0
        }
    }
}

proof fn lemma_quoted(line: Seq<char>)
    ensures
        token_state(line).quoted == (quotes(line) % 2 == 1),
    decreases line.len(),
{
    if line.len() > 0 {
        lemma_quoted(line.drop_last());
    }
}

proof fn lemma_tokens_after(start: Seq<char>, line: Seq<char>)
    requires
        token_state(start).open.len() == 0,
        !token_state(start).quoted,
    ensures
        token_state(start + line) == (TokenState {
            done: token_state(start).done + token_state(line).done,
            ..token_state(line)
        }),
    decreases line.len(),
{
    if line.len() == 0 {
        assert(start + line =~= start);
        assert(token_state(start).open =~= Seq::empty());
        assert(token_state(start).done + Seq::empty() =~= token_state(start).done);
    } else {
        let rest = line.drop_last();
        lemma_tokens_after(start, rest);
        assert((start + line).drop_last() =~= start + rest);
        assert((start + line).last() == line.last());
        let state = token_state(rest);
        assert(token_state(start).done + state.done.push(state.open) =~= (token_state(start).done
            + state.done).push(state.open));
    }
}

/// A space outside of quotation marks parts the words of a line.
pub proof fn law_spaces_part_words(a: Seq<char>, space: char, b: Seq<char>)
    requires
        is_space(space),
        space != '"',
        quotes(a) % 2 == 0,
    ensures
        tokens(a.push(space) + b) == tokens(a) + tokens(b),
{
    lemma_quoted(a);
    let start = a.push(space);
    assert(start.drop_last() =~= a);
    assert(start.last() == space);
    assert(token_state(start).done == tokens(a));
    lemma_tokens_after(start, b);
    let state = token_state(b);
    assert(tokens(a) + state.done.push(state.open) =~= (tokens(a) + state.done).push(state.open));
}

/// A text without spaces and quotation marks is one word, and so is one in quotation
/// marks, with the spaces in it.
pub proof fn law_quotes_keep_a_word_together(plain: Seq<char>, quoted: Seq<char>)
    requires
        plain.len() > 0,
        forall|i: int| 0 <= i < plain.len() ==> !is_space(#[trigger] plain[i]) && plain[i] != '"',
        quoted.len() > 0,
        forall|i: int| 0 <= i < quoted.len() ==> #[trigger] quoted[i] != '"',
    ensures
        tokens(plain) == seq![plain],
        tokens(seq!['"'] + quoted + seq!['"']) == seq![quoted],
{
    lemma_plain(plain);
    let start = seq!['"'];
    lemma_in_quotes(quoted);
    let all = start + quoted + seq!['"'];
    assert(all.drop_last() =~= start + quoted);
    assert(all.last() == '"');
    assert(tokens(plain) =~= seq![plain]);
    assert(tokens(all) =~= seq![quoted]);
}

proof fn lemma_plain(plain: Seq<char>)
    requires
        forall|i: int| 0 <= i < plain.len() ==> !is_space(#[trigger] plain[i]) && plain[i] != '"',
    ensures
        token_state(plain) == (TokenState { done: Seq::empty(), open: plain, quoted: false }),
    decreases plain.len(),
{
    if plain.len() == 0 {
        assert(plain =~= Seq::empty());
    } else {
        let rest = plain.drop_last();
        assert forall|i: int| 0 <= i < rest.len() implies !is_space(#[trigger] rest[i]) && rest[i]
            != '"' by {
            assert(rest[i] == plain[i]);
        }
        lemma_plain(rest);
        assert(plain.last() == plain[plain.len() - 1]);
        assert(rest.push(plain.last()) =~= plain);
    }
}

proof fn lemma_in_quotes(quoted: Seq<char>)
    requires
        forall|i: int| 0 <= i < quoted.len() ==> #[trigger] quoted[i] != '"',
    ensures
        token_state(seq!['"'] + quoted) == (TokenState {
            done: Seq::empty(),
            open: quoted,
            quoted: true,
        }),
    decreases quoted.len(),
{
    let start = seq!['"'];
    if quoted.len() == 0 {
        assert(start + quoted =~= start);
        assert(start.drop_last() =~= Seq::empty());
        assert(start.last() == '"');
        assert(quoted =~= Seq::empty());
        reveal_with_fuel(token_state, 2);
    } else {
        let rest = quoted.drop_last();
        assert forall|i: int| 0 <= i < rest.len() implies #[trigger] rest[i] != '"' by {
            assert(rest[i] == quoted[i]);
        }
        lemma_in_quotes(rest);
        assert((start + quoted).drop_last() =~= start + rest);
        assert((start + quoted).last() == quoted[quoted.len() - 1]);
        assert(rest.push(quoted.last()) =~= quoted);
    }
}

} // verus!

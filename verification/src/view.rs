//! The table of candidates: which are shown, which are selected, and how wide the
//! columns are.
use vstd::prelude::*;
use crate::details::{
    candidate_server_type, demo_shown, points_text, server_type, show_points, to_uppercase,
    unicode_upper,
};
use crate::encoding::optional;
use crate::models::Candidate;
use crate::number::{i64_text, int_text, u64_text};
use crate::order::{ascending, insert_text, members};
use crate::text::{
    contains_text, has_text, is_space, join, joined, list_contains, lower, remove_chars, replace_chars,
    replaced, same_fold, same_ignoring_case, same_text, split_words, to_lower, to_upper, trim,
    trimmed, upper, views, without, words,
};

verus! {

// ---------------------------------------------------------------------------
// Filters
// ---------------------------------------------------------------------------

/// A class by one of the names that are in use for it.
pub open spec fn plain_class(value: Seq<char>) -> Seq<char> {
    let name = lower(trimmed(value));
    if name == "1"@ {
        "scout"@
    } else if name == "2"@ {
        "sniper"@
    } else if name == "3"@ {
        "soldier"@
    } else if name == "4"@ || name == "demo"@ {
        "demoman"@
    } else if name == "5"@ {
        "medic"@
    } else if name == "6"@ || name == "heavyweapons"@ || name == "heavyweaponsguy"@ {
        "heavy"@
    } else if name == "7"@ {
        "pyro"@
    } else if name == "8"@ {
        "spy"@
    } else if name == "9"@ || name == "engi"@ || name == "engie"@ {
        "engineer"@
    } else {
        without(name, seq![' ', '_', '-'])
    }
}

/// A class by one of the names that are in use for it.
pub fn canonical_candidate_class(value: &str) -> (out: String)
    ensures
        out@ == plain_class(value@),
{
    let low = to_lower(trim(value).as_str());
    let name = low.as_str();
    if same_text(name, "1") {
        "scout".to_owned()
    } else if same_text(name, "2") {
        "sniper".to_owned()
    } else if same_text(name, "3") {
        "soldier".to_owned()
    } else if same_text(name, "4") || same_text(name, "demo") {
        "demoman".to_owned()
    } else if same_text(name, "5") {
        "medic".to_owned()
    } else if same_text(name, "6") || same_text(name, "heavyweapons") || same_text(
        name,
        "heavyweaponsguy",
    ) {
        "heavy".to_owned()
    } else if same_text(name, "7") {
        "pyro".to_owned()
    } else if same_text(name, "8") {
        "spy".to_owned()
    } else if same_text(name, "9") || same_text(name, "engi") || same_text(name, "engie") {
        "engineer".to_owned()
    } else {
        proof {
            reveal_strlit(" _-");
            assert(" _-"@ =~= seq![' ', '_', '-']);
        }
        remove_chars(name, " _-")
    }
}

/// A text as tags are searched by.
pub open spec fn search_text(value: Seq<char>) -> Seq<char> {
    replaced(lower(trimmed(value)), seq!['_', '-'], ' ')
}

/// A text as tags are searched by.
pub fn normalize_tag_search(value: &str) -> (out: String)
    ensures
        out@ == search_text(value@),
{
    proof {
        reveal_strlit("_-");
        assert("_-"@ =~= seq!['_', '-']);
    }
    replace_chars(to_lower(trim(value).as_str()).as_str(), "_-", ' ')
}

/// What candidates are chosen by. The choices are held in ascending order.
#[derive(Debug)]
pub struct CandidateUiFilters {
    pub tag_query: String,
    pub maps: Vec<String>,
    pub classes: Vec<String>,
    pub server_types: Vec<String>,
    pub recorded: Option<bool>,
    pub map_search: String,
    pub server_type_search: String,
}

impl Default for CandidateUiFilters {
    fn default() -> (out: Self)
        ensures
            out.tag_query@ == Seq::<char>::empty(),
            views(out.maps@) == Seq::<Seq<char>>::empty(),
            views(out.classes@) == Seq::<Seq<char>>::empty(),
            views(out.server_types@) == Seq::<Seq<char>>::empty(),
            out.recorded is None,
            out.map_search@ == Seq::<char>::empty(),
            out.server_type_search@ == Seq::<char>::empty(),
            out.well_formed(),
    {
        let out = CandidateUiFilters {
            tag_query: String::new(),
            maps: Vec::new(),
            classes: Vec::new(),
            server_types: Vec::new(),
            recorded: None,
            map_search: String::new(),
            server_type_search: String::new(),
        };
        assert(views(out.maps@) =~= Seq::empty());
        assert(views(out.classes@) =~= Seq::empty());
        assert(views(out.server_types@) =~= Seq::empty());
        out
    }
}

/// Whether a text is one of some, without regard to case.
pub open spec fn is_one_of(text: Seq<char>, list: Seq<Seq<char>>) -> bool {
    exists|i: int| 0 <= i < list.len() && same_fold(text, #[trigger] list[i])
}

/// Whether a class is one of some.
pub open spec fn is_class_of(class: Seq<char>, list: Seq<Seq<char>>) -> bool {
    exists|i: int| 0 <= i < list.len() && plain_class(class) == plain_class(#[trigger] list[i])
}

/// Whether a text holds all of some words.
pub open spec fn holds_words(text: Seq<char>, list: Seq<Seq<char>>) -> bool {
    forall|i: int| 0 <= i < list.len() ==> has_text(text, #[trigger] list[i])
}

fn one_of(text: &str, list: &Vec<String>) -> (r: bool)
    ensures
        r == is_one_of(text@, views(list@)),
{
    let ghost all = views(list@);
    let mut i: usize = 0;
    while i < list.len()
        invariant
            i <= list.len(),
            all == views(list@),
            forall|k: int| 0 <= k < i ==> !same_fold(text@, #[trigger] all[k]),
        decreases list.len() - i,
    {
        assert(all[i as int] == list@[i as int]@);
        if same_ignoring_case(text, list[i].as_str()) {
            return true;
        }
        i += 1;
    }
    false
}

fn class_of(class: &str, list: &Vec<String>) -> (r: bool)
    ensures
        r == is_class_of(class@, views(list@)),
{
    let ghost all = views(list@);
    let own = canonical_candidate_class(class);
    let mut i: usize = 0;
    while i < list.len()
        invariant
            i <= list.len(),
            all == views(list@),
            own@ == plain_class(class@),
            forall|k: int| 0 <= k < i ==> plain_class(class@) != plain_class(#[trigger] all[k]),
        decreases list.len() - i,
    {
        assert(all[i as int] == list@[i as int]@);
        let other = canonical_candidate_class(list[i].as_str());
        if same_text(own.as_str(), other.as_str()) {
            return true;
        }
        i += 1;
    }
    false
}

fn contains_words(text: &str, list: &Vec<String>) -> (r: bool)
    ensures
        r == holds_words(text@, views(list@)),
{
    let ghost all = views(list@);
    let mut i: usize = 0;
    while i < list.len()
        invariant
            i <= list.len(),
            all == views(list@),
            forall|k: int| 0 <= k < i ==> has_text(text@, #[trigger] all[k]),
        decreases list.len() - i,
    {
        assert(all[i as int] == list@[i as int]@);
        if !contains_text(text, list[i].as_str()) {
            return false;
        }
        i += 1;
    }
    true
}

/// Puts a text into an ascending list, or takes it out where it is there.
pub open spec fn toggled(list: Seq<Seq<char>>, text: Seq<char>, out: Seq<Seq<char>>) -> bool {
    &&& ascending(out)
    &&& out.to_set() == (if list.contains(text) {
        list.to_set().remove(text)
    } else {
        list.to_set().insert(text)
    })
}

fn toggle(list: &mut Vec<String>, text: &str)
    requires
        ascending(views(old(list)@)),
    ensures
        toggled(views(old(list)@), text@, views(final(list)@)),
{
    let ghost before = views(list@);
    let mut i: usize = 0;
    while i < list.len()
        invariant
            i <= list.len(),
            before == views(list@),
            *list == *old(list),
            ascending(before),
            forall|k: int| 0 <= k < i ==> #[trigger] before[k] != text@,
        decreases list.len() - i,
    {
        assert(before[i as int] == list@[i as int]@);
        if same_text(list[i].as_str(), text) {
            list.remove(i);
            proof {
                let after = views(list@);
                assert(after =~= before.remove(i as int));
                lemma_removed(before, i as int);
                assert(before.contains(text@));
            }
            return ;
        }
        i += 1;
    }
    proof {
        assert(!before.contains(text@));
        assert(members(list@) == before.to_set());
    }
    insert_text(list, text);
}

proof fn lemma_removed(list: Seq<Seq<char>>, at: int)
    requires
        0 <= at < list.len(),
        ascending(list),
    ensures
        ascending(list.remove(at)),
        list.remove(at).to_set() == list.to_set().remove(list[at]),
{
    let out = list.remove(at);
    let gone = list[at];
    assert forall|i: int, j: int| 0 <= i < j < out.len() implies crate::order::lex_less(
        #[trigger] out[i],
        #[trigger] out[j],
    ) by {
        let a = if i < at {
            i
        } else {
            i + 1
        };
        let b = if j < at {
            j
        } else {
            j + 1
        };
        assert(out[i] == list[a] && out[j] == list[b]);
        assert(crate::order::lex_less(list[a], list[b]));
    }
    assert forall|t: Seq<char>| out.to_set().contains(t) <==> list.to_set().remove(gone).contains(
        t,
    ) by {
        if out.to_set().contains(t) {
            let k = choose|k: int| 0 <= k < out.len() && out[k] == t;
            let a = if k < at {
                k
            } else {
                k + 1
            };
            assert(list[a] == t);
            if t == gone {
                if a < at {
                    assert(crate::order::lex_less(list[a], list[at]));
                } else {
                    assert(crate::order::lex_less(list[at], list[a]));
                }
                crate::order::lemma_lex_irreflexive(gone);
            }
        }
        if list.to_set().remove(gone).contains(t) {
            let k = choose|k: int| 0 <= k < list.len() && list[k] == t;
            assert(k != at);
            if k < at {
                assert(out[k] == t);
            } else {
                assert(out[k - 1] == t);
            }
        }
    }
    assert(out.to_set() =~= list.to_set().remove(gone));
}

impl CandidateUiFilters {
    /// Whether the choices are held in order.
    pub open spec fn well_formed(&self) -> bool {
        ascending(views(self.maps@)) && ascending(views(self.classes@)) && ascending(
            views(self.server_types@),
        )
    }

    /// Whether a candidate is chosen.
    pub open spec fn chooses(&self, candidate: Candidate, recorded: bool) -> bool {
        let query = search_text(self.tag_query@);
        &&& self.recorded is None || self.recorded == Some(recorded)
        &&& self.maps.len() == 0 || is_one_of(candidate.map_name@, views(self.maps@))
        &&& self.classes.len() == 0 || is_class_of(
            candidate.attacker_class@,
            views(self.classes@),
        )
        &&& self.server_types.len() == 0 || is_one_of(
            server_type(candidate),
            views(self.server_types@),
        )
        &&& query.len() == 0 || holds_words(
            search_text(joined(views(candidate.tags@), " "@)),
            words(query),
        )
    }

    /// Whether a candidate is chosen.
    pub fn matches(&self, candidate: &Candidate, recorded: bool) -> (r: bool)
        ensures
            r == self.chooses(*candidate, recorded),
    {
        if let Some(wanted) = self.recorded {
            if wanted != recorded {
                return false;
            }
        }
        if self.maps.len() > 0 && !one_of(candidate.map_name.as_str(), &self.maps) {
            return false;
        }
        if self.classes.len() > 0 && !class_of(candidate.attacker_class.as_str(), &self.classes) {
            return false;
        }
        let kind = candidate_server_type(candidate);
        if self.server_types.len() > 0 && !one_of(kind.as_str(), &self.server_types) {
            return false;
        }
        let query = normalize_tag_search(self.tag_query.as_str());
        if query.as_str().is_empty() {
            return true;
        }
        let tags = normalize_tag_search(join(&candidate.tags, " ").as_str());
        contains_words(tags.as_str(), &split_words(query.as_str()))
    }

    /// Chooses a map, or no longer.
    pub fn toggle_map(&mut self, map: &str)
        requires
            old(self).well_formed(),
        ensures
            final(self).well_formed(),
            toggled(views(old(self).maps@), map@, views(final(self).maps@)),
            *final(self) == (CandidateUiFilters { maps: final(self).maps, ..*old(self) }),
    {
        toggle(&mut self.maps, map);
    }

    /// Chooses a kind of server, or no longer.
    pub fn toggle_server_type(&mut self, kind: &str)
        requires
            old(self).well_formed(),
        ensures
            final(self).well_formed(),
            toggled(views(old(self).server_types@), kind@, views(final(self).server_types@)),
            *final(self) == (CandidateUiFilters {
                server_types: final(self).server_types,
                ..*old(self)
            }),
    {
        toggle(&mut self.server_types, kind);
    }

    /// Chooses a class, or no longer, or all classes.
    pub fn toggle_class(&mut self, class: &str)
        requires
            old(self).well_formed(),
        ensures
            final(self).well_formed(),
            if same_fold(class@, "all"@) {
                final(self).classes.len() == 0
            } else {
                toggled(views(old(self).classes@), class@, views(final(self).classes@))
            },
            *final(self) == (CandidateUiFilters { classes: final(self).classes, ..*old(self) }),
    {
        if same_ignoring_case(class, "all") {
            self.classes = Vec::new();
            assert(views(self.classes@) =~= Seq::empty());
        } else {
            toggle(&mut self.classes, class);
        }
    }

    /// Whether a class is chosen.
    pub fn has_class(&self, class: &str) -> (r: bool)
        ensures
            r == is_one_of(class@, views(self.classes@)),
    {
        one_of(class, &self.classes)
    }
}

/// Choosing something twice changes nothing in the end.
pub proof fn law_toggling_twice(
    list: Seq<Seq<char>>,
    text: Seq<char>,
    once: Seq<Seq<char>>,
    twice: Seq<Seq<char>>,
)
    requires
        ascending(list),
        toggled(list, text, once),
        toggled(once, text, twice),
    ensures
        twice == list,
{
    assert(once.contains(text) == once.to_set().contains(text));
    assert(list.contains(text) == list.to_set().contains(text));
    if list.contains(text) {
        assert(list.to_set().remove(text).insert(text) =~= list.to_set());
    } else {
        assert(list.to_set().insert(text).remove(text) =~= list.to_set());
    }
    crate::order::law_ascending_is_unique(twice, list);
}

/// Without any choice every candidate is shown.
pub proof fn law_no_choice_shows_all(filters: CandidateUiFilters, candidate: Candidate, recorded: bool)
    requires
        filters.maps.len() == 0,
        filters.classes.len() == 0,
        filters.server_types.len() == 0,
        filters.recorded is None,
        filters.tag_query@.len() == 0,
    ensures
        filters.chooses(candidate, recorded),
{
    assert(trimmed(filters.tag_query@).len() == 0) by {
        crate::text::lemma_trimmed(filters.tag_query@);
    }
}

// ---------------------------------------------------------------------------
// The controls of the filters
// ---------------------------------------------------------------------------

/// What is told of a number of choices.
pub fn filter_summary(selected: &Vec<String>, plural: &str) -> (out: String)
    ensures
        out@ == (if selected.len() == 0 {
            "All "@ + plural@
        } else if selected.len() == 1 {
            selected@[0]@
        } else {
            int_text(selected.len() as int) + " "@ + plural@ + " selected"@
        }),
{
    if selected.len() == 0 {
        let mut out = "All ".to_owned();
        out.append(plural);
        out
    } else if selected.len() == 1 {
        selected[0].clone()
    } else {
        let mut out = u64_text(selected.len() as u64);
        out.append(" ");
        out.append(plural);
        out.append(" selected");
        out
    }
}

/// The length of the longest of some texts.
pub open spec fn longest(list: Seq<Seq<char>>) -> nat
    decreases list.len(),
{
    if list.len() == 0 {
        0
    } else {
        let before = longest(list.drop_last());
        if list.last().len() > before {
            list.last().len()
        } else {
            before
        }
    }
}

fn find_longest(list: &Vec<String>) -> (out: usize)
    ensures
        out == longest(views(list@)),
{
    let ghost all = views(list@);
    let mut out: usize = 0;
    let mut i: usize = 0;
    assert(all.take(0) =~= Seq::empty());
    while i < list.len()
        invariant
            i <= list.len(),
            all == views(list@),
            out == longest(all.take(i as int)),
        decreases list.len() - i,
    {
        proof {
            assert(all.take(i + 1).drop_last() =~= all.take(i as int));
            assert(all.take(i + 1).last() == list@[i as int]@);
        }
        let n: usize = list[i].as_str().unicode_len();
        if n > out {
            out = n;
        }
        i += 1;
    }
    assert(all.take(list.len() as int) =~= all);
    out
}

/// How wide a column is for texts of a length, with some room to spare.
pub open spec fn column_width(length: int, spare: int, minimum: int) -> int {
    let wanted = length * 8 + spare;
    let held = if wanted > i32::MAX {
        i32::MAX as int
    } else {
        wanted
    };
    if held > minimum {
        held
    } else {
        minimum
    }
}

fn width_for(length: usize, spare: u32, minimum: i32) -> (out: i32)
    ensures
        out == column_width(length as int, spare as int, minimum as int),
{
    let wanted: u128 = length as u128 * 8 + spare as u128;
    let held: i32 = if wanted > 0x7fff_ffff {
        0x7fff_ffff
    } else {
        wanted as i32
    };
    if held > minimum {
        held
    } else {
        minimum
    }
}

/// How wide the list of a filter is.
pub fn filter_dropdown_width(values: &Vec<String>, minimum: i32, supporting_text: &Vec<String>) -> (out:
    i32)
    ensures
        ({
            let a = longest(views(values@));
            let b = longest(views(supporting_text@));
            out == column_width(
                if a > b {
                    a as int
                } else {
                    b as int
                },
                52,
                minimum as int,
            )
        }),
{
    let a = find_longest(values);
    let b = find_longest(supporting_text);
    width_for(
        if a > b {
            a
        } else {
            b
        },
        52,
        minimum,
    )
}

/// One line of the list of a filter.
#[derive(Debug)]
pub struct FilterOption {
    pub value: String,
    pub selected: bool,
}

/// Which values the list of a filter shows.
pub open spec fn searched(values: Seq<Seq<char>>, search: Seq<char>) -> Seq<Seq<char>>
    decreases values.len(),
{
    let wanted = lower(trimmed(search));
    if values.len() == 0 {
        Seq::empty()
    } else {
        let before = searched(values.drop_last(), search);
        if wanted.len() == 0 || has_text(lower(values.last()), wanted) {
            before.push(values.last())
        } else {
            before
        }
    }
}

/// Whether lines are those of some values.
pub open spec fn are_options(
    options: Seq<FilterOption>,
    shown: Seq<Seq<char>>,
    selected: Seq<Seq<char>>,
) -> bool {
    &&& options.len() == shown.len()
    &&& forall|i: int|
        0 <= i < options.len() ==> (#[trigger] options[i]).value@ == shown[i]
            && options[i].selected == selected.contains(shown[i])
}

/// The lines of the list of a filter.
pub fn selectable_options(values: &Vec<String>, selected: &Vec<String>, search: &str) -> (out: Vec<
    FilterOption,
>)
    ensures
        are_options(out@, searched(views(values@), search@), views(selected@)),
{
    let wanted = to_lower(trim(search).as_str());
    let ghost all = views(values@);
    let mut out: Vec<FilterOption> = Vec::new();
    let mut i: usize = 0;
    assert(all.take(0) =~= Seq::empty());
    while i < values.len()
        invariant
            i <= values.len(),
            all == views(values@),
            wanted@ == lower(trimmed(search@)),
            are_options(out@, searched(all.take(i as int), search@), views(selected@)),
        decreases values.len() - i,
    {
        let ghost before = out@;
        let ghost known = searched(all.take(i as int), search@);
        proof {
            assert(all.take(i + 1).drop_last() =~= all.take(i as int));
            assert(all.take(i + 1).last() == values@[i as int]@);
        }
        let shown = wanted.as_str().is_empty() || contains_text(
            to_lower(values[i].as_str()).as_str(),
            wanted.as_str(),
        );
        if shown {
            out.push(
                FilterOption {
                    value: values[i].clone(),
                    selected: list_contains(selected, values[i].as_str()),
                },
            );
            proof {
                let now = searched(all.take(i + 1), search@);
                assert(now == known.push(values@[i as int]@));
                assert forall|k: int| 0 <= k < out@.len() implies (#[trigger] out@[k]).value@
                    == now[k] && out@[k].selected == views(selected@).contains(now[k]) by {
                    if k < before.len() {
                        assert(out@[k] == before[k]);
                        assert(now[k] == known[k]);
                    }
                }
            }
        }
        i += 1;
    }
    assert(all.take(values.len() as int) =~= all);
    out
}

/// The maps of candidates, in ascending order.
pub fn list_maps(candidates: &Vec<Candidate>) -> (out: Vec<String>)
    ensures
        ascending(views(out@)),
        forall|map: Seq<char>|
            #[trigger] members(out@).contains(map) <==> map.len() > 0 && exists|i: int|
                0 <= i < candidates.len() && (#[trigger] candidates@[i]).map_name@ == map,
{
    let mut out: Vec<String> = Vec::new();
    let mut i: usize = 0;
    assert(views(out@) =~= Seq::empty());
    while i < candidates.len()
        invariant
            i <= candidates.len(),
            ascending(views(out@)),
            forall|map: Seq<char>|
                #[trigger] members(out@).contains(map) <==> map.len() > 0 && exists|k: int|
                    0 <= k < i && (#[trigger] candidates@[k]).map_name@ == map,
        decreases candidates.len() - i,
    {
        let ghost before = members(out@);
        if !candidates[i].map_name.as_str().is_empty() {
            insert_text(&mut out, candidates[i].map_name.as_str());
        }
        proof {
            assert forall|map: Seq<char>|
                #[trigger] members(out@).contains(map) <==> map.len() > 0 && exists|k: int|
                    0 <= k < i + 1 && (#[trigger] candidates@[k]).map_name@ == map by {
                assert(candidates@[i as int].map_name@ == candidates@[i as int].map_name@);
                if before.contains(map) {
                }
            }
        }
        i += 1;
    }
    out
}

/// The kinds of server of candidates, in ascending order.
pub fn list_server_types(candidates: &Vec<Candidate>) -> (out: Vec<String>)
    ensures
        ascending(views(out@)),
        forall|kind: Seq<char>|
            #[trigger] members(out@).contains(kind) <==> exists|i: int|
                0 <= i < candidates.len() && server_type(#[trigger] candidates@[i]) == kind,
{
    let mut out: Vec<String> = Vec::new();
    let mut i: usize = 0;
    assert(views(out@) =~= Seq::empty());
    while i < candidates.len()
        invariant
            i <= candidates.len(),
            ascending(views(out@)),
            forall|kind: Seq<char>|
                #[trigger] members(out@).contains(kind) <==> exists|k: int|
                    0 <= k < i && server_type(#[trigger] candidates@[k]) == kind,
        decreases candidates.len() - i,
    {
        let ghost before = members(out@);
        let kind = candidate_server_type(&candidates[i]);
        insert_text(&mut out, kind.as_str());
        proof {
            assert forall|kind: Seq<char>|
                #[trigger] members(out@).contains(kind) <==> exists|k: int|
                    0 <= k < i + 1 && server_type(#[trigger] candidates@[k]) == kind by {
                assert(server_type(candidates@[i as int]) == server_type(candidates@[i as int]));
                if before.contains(kind) {
                }
            }
        }
        i += 1;
    }
    out
}

// ---------------------------------------------------------------------------
// Rows
// ---------------------------------------------------------------------------

/// A row of the table.
#[derive(Debug)]
pub struct CandidateRow {
    pub rank: usize,
    pub score: String,
    pub kills: String,
    pub attacker: String,
    pub class_name: String,
    pub team: String,
    pub demo: String,
    pub map_name: String,
    pub mode: String,
    pub demo_type: String,
    pub recorded: String,
    pub ticks: String,
    pub tags: String,
    pub selected: bool,
}

/// A flag of a list; not set where the list is too short.
pub open spec fn flag(list: Seq<bool>, at: int) -> bool {
    at < list.len() && list[at]
}

fn read_flag(list: &Vec<bool>, at: usize) -> (r: bool)
    ensures
        r == flag(list@, at as int),
{
    at < list.len() && list[at]
}

/// Ticks as texts.
pub open spec fn tick_texts(ticks: Seq<i64>) -> Seq<Seq<char>> {
    Seq::new(ticks.len(), |i: int| int_text(ticks[i] as int))
}

fn list_tick_texts(ticks: &Vec<i64>) -> (out: Vec<String>)
    ensures
        views(out@) == tick_texts(ticks@),
{
    let ghost all = tick_texts(ticks@);
    let mut out: Vec<String> = Vec::new();
    let mut i: usize = 0;
    assert(views(out@) =~= all.take(0));
    while i < ticks.len()
        invariant
            i <= ticks.len(),
            all == tick_texts(ticks@),
            views(out@) == all.take(i as int),
        decreases ticks.len() - i,
    {
        let ghost before = views(out@);
        out.push(i64_text(ticks[i]));
        proof {
            assert(views(out@) =~= before.push(all[i as int]));
            assert(all.take(i + 1) =~= all.take(i as int).push(all[i as int]));
        }
        i += 1;
    }
    assert(all.take(ticks.len() as int) =~= all);
    out
}

/// Whether a row is that of a candidate.
pub open spec fn is_row(
    row: CandidateRow,
    at: int,
    candidate: Candidate,
    file: Option<Seq<char>>,
    recorded: bool,
    selected: bool,
) -> bool {
    &&& row.rank == at + 1
    &&& row.score@ == points_text(candidate.overall_score as int, false)
    &&& row.kills@ == int_text(candidate.kill_total() as int)
    &&& row.attacker@ == "#"@ + int_text(candidate.attacker_user_id as int)
    &&& row.class_name@ == candidate.attacker_class@
    &&& row.team@ == upper(candidate.attacker_team@)
    &&& row.demo@ == demo_shown(candidate, file)
    &&& row.map_name@ == candidate.map_name@
    &&& row.mode@ == server_type(candidate)
    &&& row.demo_type@ == unicode_upper(candidate.demo_context.capture_type@)
    &&& row.recorded@ == (if recorded {
        "Recorded"@
    } else {
        Seq::empty()
    })
    &&& row.ticks@ == joined(tick_texts(candidate.point_of_kill_ticks@), ", "@)
    &&& row.tags@ == joined(views(candidate.tags@), ", "@)
    &&& row.selected == selected
}

fn make_row(
    at: usize,
    candidate: &Candidate,
    file: &Option<String>,
    recorded: bool,
    selected: bool,
) -> (out: CandidateRow)
    requires
        at < usize::MAX,
    ensures
        is_row(out, at as int, *candidate, optional(*file), recorded, selected),
{
    let mut attacker = "#".to_owned();
    attacker.append(i64_text(candidate.attacker_user_id).as_str());
    let mark = if recorded {
        "Recorded".to_owned()
    } else {
        let none = String::new();
        assert(none@ =~= Seq::empty());
        none
    };
    CandidateRow {
        rank: at + 1,
        score: show_points(candidate.overall_score, false),
        kills: u64_text(candidate.kill_count() as u64),
        attacker,
        class_name: candidate.attacker_class.clone(),
        team: to_upper(candidate.attacker_team.as_str()),
        demo: match file {
            Some(name) => name.clone(),
            None => candidate.source_demo.clone(),
        },
        map_name: candidate.map_name.clone(),
        mode: candidate_server_type(candidate),
        demo_type: to_uppercase(candidate.demo_context.capture_type.as_str()),
        recorded: mark,
        ticks: join(&list_tick_texts(&candidate.point_of_kill_ticks), ", "),
        tags: join(&candidate.tags, ", "),
        selected,
    }
}

/// Whether a candidate has a row: its score is high enough, and it is chosen.
pub open spec fn has_row(
    candidate: Candidate,
    recorded: bool,
    filters: CandidateUiFilters,
    minimum_score: int,
) -> bool {
    candidate.overall_score >= minimum_score * 100 && filters.chooses(candidate, recorded)
}

/// The candidates that have a row, of the first, by position.
pub open spec fn shown_rows(
    candidates: Seq<Candidate>,
    recorded: Seq<bool>,
    filters: CandidateUiFilters,
    minimum_score: int,
    upto: int,
) -> Seq<int>
    decreases upto,
{
    if upto <= 0 {
        Seq::empty()
    } else {
        let before = shown_rows(candidates, recorded, filters, minimum_score, upto - 1);
        if has_row(candidates[upto - 1], flag(recorded, upto - 1), filters, minimum_score) {
            before.push(upto - 1)
        } else {
            before
        }
    }
}

/// Positions as numbers.
pub open spec fn places(list: Seq<usize>) -> Seq<int> {
    Seq::new(list.len(), |i: int| list[i] as int)
}

/// Whether rows are those of candidates at some positions.
pub open spec fn are_rows(
    rows: Seq<CandidateRow>,
    visible: Seq<usize>,
    candidates: Seq<Candidate>,
    files: Seq<Option<String>>,
    recorded: Seq<bool>,
    selected: Seq<bool>,
) -> bool {
    &&& rows.len() == visible.len()
    &&& forall|k: int|
        0 <= k < rows.len() ==> #[trigger] visible[k] < candidates.len() && is_row(
            rows[k],
            visible[k] as int,
            candidates[visible[k] as int],
            optional(files[visible[k] as int]),
            flag(recorded, visible[k] as int),
            flag(selected, visible[k] as int),
        )
}

/// The rows of the table, and the candidates that they are of, by position.
pub fn build_candidate_rows(
    candidates: &Vec<Candidate>,
    files: &Vec<Option<String>>,
    recorded: &Vec<bool>,
    selected: &Vec<bool>,
    filters: &CandidateUiFilters,
    minimum_score: i32,
) -> (out: (Vec<usize>, Vec<CandidateRow>))
    requires
        files.len() == candidates.len(),
        candidates.len() < usize::MAX,
    ensures
        places(out.0@) == shown_rows(
            candidates@,
            recorded@,
            *filters,
            minimum_score as int,
            candidates.len() as int,
        ),
        are_rows(out.1@, out.0@, candidates@, files@, recorded@, selected@),
{
    let mut visible: Vec<usize> = Vec::new();
    let mut rows: Vec<CandidateRow> = Vec::new();
    let least: i64 = minimum_score as i64 * 100;
    let mut i: usize = 0;
    assert(places(visible@) =~= Seq::empty());
    while i < candidates.len()
        invariant
            i <= candidates.len(),
            files.len() == candidates.len(),
            candidates.len() < usize::MAX,
            least == minimum_score * 100,
            places(visible@) == shown_rows(
                candidates@,
                recorded@,
                *filters,
                minimum_score as int,
                i as int,
            ),
            are_rows(rows@, visible@, candidates@, files@, recorded@, selected@),
        decreases candidates.len() - i,
    {
        let candidate = &candidates[i];
        let done = read_flag(recorded, i);
        if candidate.overall_score >= least && filters.matches(candidate, done) {
            let ghost before = places(visible@);
            let ghost listed = rows@;
            let ghost at = visible@;
            let row = make_row(i, candidate, &files[i], done, read_flag(selected, i));
            visible.push(i);
            rows.push(row);
            proof {
                assert(places(visible@) =~= before.push(i as int));
                assert forall|k: int| 0 <= k < rows@.len() implies #[trigger] visible@[k]
                    < candidates@.len() && is_row(
                    rows@[k],
                    visible@[k] as int,
                    candidates@[visible@[k] as int],
                    optional(files@[visible@[k] as int]),
                    flag(recorded@, visible@[k] as int),
                    flag(selected@, visible@[k] as int),
                ) by {
                    if k < listed.len() {
                        assert(rows@[k] == listed[k]);
                        assert(visible@[k] == at[k]);
                    }
                }
            }
        }
        i += 1;
    }
    (visible, rows)
}

/// How wide the column of the tags is.
pub fn candidate_tags_width(rows: &Vec<CandidateRow>) -> (out: i32)
    ensures
        out == column_width(
            longest(Seq::new(rows@.len(), |i: int| rows@[i].tags@)) as int,
            24,
            160,
        ),
{
    let ghost all = Seq::new(rows@.len(), |i: int| rows@[i].tags@);
    let mut length: usize = 0;
    let mut i: usize = 0;
    assert(all.take(0) =~= Seq::empty());
    while i < rows.len()
        invariant
            i <= rows.len(),
            all == Seq::new(rows@.len(), |k: int| rows@[k].tags@),
            length == longest(all.take(i as int)),
        decreases rows.len() - i,
    {
        proof {
            assert(all.take(i + 1).drop_last() =~= all.take(i as int));
            assert(all.take(i + 1).last() == rows@[i as int].tags@);
        }
        let n: usize = rows[i].tags.as_str().unicode_len();
        if n > length {
            length = n;
        }
        i += 1;
    }
    assert(all.take(rows.len() as int) =~= all);
    width_for(length, 24, 160)
}

// ---------------------------------------------------------------------------
// Selection
// ---------------------------------------------------------------------------

/// The candidates that are selected, of the first, by position.
pub open spec fn selected_places(selected: Seq<bool>, upto: int) -> Seq<int>
    decreases upto,
{
    if upto <= 0 {
        Seq::empty()
    } else {
        let before = selected_places(selected, upto - 1);
        if selected[upto - 1] {
            before.push(upto - 1)
        } else {
            before
        }
    }
}

/// The candidates that are selected, by position.
pub fn selected_candidates(selected: &Vec<bool>) -> (out: Vec<usize>)
    ensures
        places(out@) == selected_places(selected@, selected.len() as int),
{
    let mut out: Vec<usize> = Vec::new();
    let mut i: usize = 0;
    assert(places(out@) =~= Seq::empty());
    while i < selected.len()
        invariant
            i <= selected.len(),
            places(out@) == selected_places(selected@, i as int),
        decreases selected.len() - i,
    {
        if selected[i] {
            let ghost before = places(out@);
            out.push(i);
            assert(places(out@) =~= before.push(i as int));
        }
        i += 1;
    }
    out
}

/// Whether all rows are selected, and there is any.
pub open spec fn all_rows_selected(visible: Seq<usize>, selected: Seq<bool>) -> bool {
    visible.len() > 0 && forall|k: int|
        0 <= k < visible.len() ==> flag(selected, #[trigger] visible[k] as int)
}

/// Whether all rows are selected, and there is any.
pub fn all_visible_selected(visible: &Vec<usize>, selected: &Vec<bool>) -> (r: bool)
    ensures
        r == all_rows_selected(visible@, selected@),
{
    if visible.len() == 0 {
        return false;
    }
    let mut i: usize = 0;
    while i < visible.len()
        invariant
            i <= visible.len(),
            forall|k: int| 0 <= k < i ==> flag(selected@, #[trigger] visible@[k] as int),
        decreases visible.len() - i,
    {
        if !read_flag(selected, visible[i]) {
            return false;
        }
        i += 1;
    }
    true
}

/// Whether a candidate has one of the rows in a range.
pub open spec fn in_rows(visible: Seq<usize>, first: int, last: int, at: int) -> bool {
    exists|k: int|
        first <= k <= last && 0 <= k < visible.len() && (#[trigger] visible[k]) as int == at
}

fn set_rows(selected: &mut Vec<bool>, visible: &Vec<usize>, first: usize, last: usize, value: bool)
    requires
        first <= last < visible.len(),
        forall|k: int| 0 <= k < visible.len() ==> #[trigger] visible@[k] < old(selected).len(),
    ensures
        final(selected).len() == old(selected).len(),
        forall|at: int|
            0 <= at < old(selected).len() ==> #[trigger] final(selected)@[at] == (if in_rows(
                visible@,
                first as int,
                last as int,
                at,
            ) {
                value
            } else {
                old(selected)@[at]
            }),
{
    let ghost start = selected@;
    let mut k: usize = first;
    loop
        invariant
            first <= k <= last < visible.len(),
            start == old(selected)@,
            selected.len() == start.len(),
            forall|j: int| 0 <= j < visible.len() ==> #[trigger] visible@[j] < start.len(),
            forall|at: int|
                0 <= at < start.len() ==> #[trigger] selected@[at] == (if in_rows(
                    visible@,
                    first as int,
                    k - 1,
                    at,
                ) {
                    value
                } else {
                    start[at]
                }),
        decreases last - k,
    {
        let ghost before = selected@;
        let place = visible[k];
        selected.set(place, value);
        proof {
            assert forall|at: int| 0 <= at < start.len() implies #[trigger] selected@[at] == (
            if in_rows(visible@, first as int, k as int, at) {
                value
            } else {
                start[at]
            }) by {
                assert(before[at] == (if in_rows(visible@, first as int, k - 1, at) {
                    value
                } else {
                    start[at]
                }));
                if at == place {
                    assert(visible@[k as int] as int == at);
                    assert(in_rows(visible@, first as int, k as int, at));
                } else if in_rows(visible@, first as int, k as int, at) {
                    let j = choose|j: int|
                        first <= j <= k && 0 <= j < visible@.len() && (#[trigger] visible@[j]) as int
                            == at;
                    assert(j != k);
                    assert(in_rows(visible@, first as int, k - 1, at));
                } else if in_rows(visible@, first as int, k - 1, at) {
                    let j = choose|j: int|
                        first <= j <= k - 1 && 0 <= j < visible@.len() && (
                        #[trigger] visible@[j]) as int == at;
                    assert(in_rows(visible@, first as int, k as int, at));
                }
            }
        }
        if k == last {
            return ;
        }
        k += 1;
    }
}

/// A number brought between zero and another.
pub open spec fn within(n: int, last: int) -> int {
    if n < 0 {
        0
    } else if n > last {
        last
    } else {
        n
    }
}

/// The rows that a drag goes over, from where it began and by how many rows it
/// moved.
pub open spec fn dragged(start: int, moved: int, count: int) -> (int, int) {
    let from = within(start, count - 1);
    let to = within(from + moved, count - 1);
    if from < to {
        (from, to)
    } else {
        (to, from)
    }
}

/// Selects the rows that a drag goes over, or no longer; others keep their
/// selection only where the drag adds to it.
pub fn drag_select_candidates(
    selected: &mut Vec<bool>,
    visible: &Vec<usize>,
    start_row: i32,
    rows_moved: i32,
    selecting: bool,
    additive: bool,
)
    requires
        visible.len() <= i32::MAX,
        forall|k: int| 0 <= k < visible.len() ==> #[trigger] visible@[k] < old(selected).len(),
    ensures
        final(selected).len() == old(selected).len(),
        visible.len() == 0 ==> final(selected)@ == old(selected)@,
        visible.len() > 0 ==> forall|at: int|
            0 <= at < old(selected).len() ==> #[trigger] final(selected)@[at] == (if in_rows(
                visible@,
                dragged(start_row as int, rows_moved as int, visible.len() as int).0,
                dragged(start_row as int, rows_moved as int, visible.len() as int).1,
                at,
            ) {
                selecting
            } else {
                additive && old(selected)@[at]
            }),
{
    if visible.len() == 0 {
        return ;
    }
    let last: i64 = visible.len() as i64 - 1;
    let start: i64 = start_row as i64;
    let from: i64 = if start < 0 {
        0
    } else if start > last {
        last
    } else {
        start
    };
    let target: i64 = from + rows_moved as i64;
    let to: i64 = if target < 0 {
        0
    } else if target > last {
        last
    } else {
        target
    };
    let (first, end): (usize, usize) = if from < to {
        (from as usize, to as usize)
    } else {
        (to as usize, from as usize)
    };
    let ghost before = selected@;
    if !additive {
        let mut i: usize = 0;
        while i < selected.len()
            invariant
                i <= selected.len(),
                selected.len() == before.len(),
                forall|k: int| 0 <= k < i ==> !(#[trigger] selected@[k]),
                forall|k: int| i <= k < before.len() ==> #[trigger] selected@[k] == before[k],
            decreases selected.len() - i,
        {
            selected.set(i, false);
            i += 1;
        }
    }
    set_rows(selected, visible, first, end, selecting);
}

/// Selects all rows, or none where all are; gives whether all are then.
pub fn select_all_visible(selected: &mut Vec<bool>, visible: &Vec<usize>) -> (r: bool)
    requires
        forall|k: int| 0 <= k < visible.len() ==> #[trigger] visible@[k] < old(selected).len(),
    ensures
        final(selected).len() == old(selected).len(),
        r == !all_rows_selected(visible@, old(selected)@),
        forall|at: int|
            0 <= at < old(selected).len() ==> #[trigger] final(selected)@[at] == (if in_rows(
                visible@,
                0,
                visible.len() - 1,
                at,
            ) {
                r
            } else {
                old(selected)@[at]
            }),
{
    let value = !all_visible_selected(visible, selected);
    if visible.len() > 0 {
        set_rows(selected, visible, 0, visible.len() - 1, value);
    }
    value
}

/// After all rows were selected, selecting all again leaves none of them
/// selected.
pub proof fn law_selecting_all_again_clears(
    visible: Seq<usize>,
    before: Seq<bool>,
    once: Seq<bool>,
    twice: Seq<bool>,
)
    requires
        visible.len() > 0,
        !all_rows_selected(visible, before),
        once.len() == before.len(),
        twice.len() == before.len(),
        forall|k: int| 0 <= k < visible.len() ==> (#[trigger] visible[k]) < before.len(),
        forall|at: int|
            0 <= at < before.len() ==> #[trigger] once[at] == (if in_rows(
                visible,
                0,
                visible.len() - 1,
                at,
            ) {
                true
            } else {
                before[at]
            }),
        forall|at: int|
            0 <= at < before.len() ==> #[trigger] twice[at] == (if in_rows(
                visible,
                0,
                visible.len() - 1,
                at,
            ) {
                !all_rows_selected(visible, once)
            } else {
                once[at]
            }),
    ensures
        forall|k: int| 0 <= k < visible.len() ==> !flag(twice, #[trigger] visible[k] as int),
{
    assert forall|k: int| 0 <= k < visible.len() implies flag(once, #[trigger] visible[k] as int) by {
        assert(in_rows(visible, 0, visible.len() - 1, visible[k] as int));
        assert(once[visible[k] as int]);
    }
    assert(all_rows_selected(visible, once));
    assert forall|k: int| 0 <= k < visible.len() implies !flag(twice, #[trigger] visible[k] as int) by {
        assert(in_rows(visible, 0, visible.len() - 1, visible[k] as int));
        assert(!twice[visible[k] as int]);
    }
}

/// What is answered where some of the selected candidates are recorded already.
#[derive(Clone, Copy, Debug, PartialEq, Eq, Structural)]
pub enum RecordAnswer {
    RecordAgain,
    SkipRecorded,
    Cancel,
}

/// The selected candidates that are not recorded, of the first, by position.
pub open spec fn unrecorded_places(selected: Seq<bool>, recorded: Seq<bool>, upto: int) -> Seq<int>
    decreases upto,
{
    if upto <= 0 {
        Seq::empty()
    } else {
        let before = unrecorded_places(selected, recorded, upto - 1);
        if selected[upto - 1] && !flag(recorded, upto - 1) {
            before.push(upto - 1)
        } else {
            before
        }
    }
}

/// How many of the selected candidates are recorded.
pub fn recorded_count(selected: &Vec<bool>, recorded: &Vec<bool>) -> (out: usize)
    ensures
        out == selected_places(selected@, selected.len() as int).len() - unrecorded_places(
            selected@,
            recorded@,
            selected.len() as int,
        ).len(),
{
    let mut out: usize = 0;
    let mut i: usize = 0;
    while i < selected.len()
        invariant
            i <= selected.len(),
            out <= i,
            out == selected_places(selected@, i as int).len() - unrecorded_places(
                selected@,
                recorded@,
                i as int,
            ).len(),
        decreases selected.len() - i,
    {
        if selected[i] && read_flag(recorded, i) {
            out += 1;
        }
        i += 1;
    }
    out
}

/// Which candidates are recorded, by position, after an answer on those that are
/// already; nothing where it was called off.
pub fn candidates_to_record(selected: &Vec<bool>, recorded: &Vec<bool>, answer: RecordAnswer) -> (out:
    Option<Vec<usize>>)
    ensures
        match out {
            None => answer == RecordAnswer::Cancel,
            Some(list) => answer != RecordAnswer::Cancel && places(list@) == (if answer
                == RecordAnswer::RecordAgain {
                selected_places(selected@, selected.len() as int)
            } else {
                unrecorded_places(selected@, recorded@, selected.len() as int)
            }),
        },
{
    match answer {
        RecordAnswer::Cancel => None,
        RecordAnswer::RecordAgain => Some(selected_candidates(selected)),
        RecordAnswer::SkipRecorded => {
            let mut out: Vec<usize> = Vec::new();
            let mut i: usize = 0;
            assert(places(out@) =~= Seq::empty());
            while i < selected.len()
                invariant
                    i <= selected.len(),
                    places(out@) == unrecorded_places(selected@, recorded@, i as int),
                decreases selected.len() - i,
            {
                if selected[i] && !read_flag(recorded, i) {
                    let ghost before = places(out@);
                    out.push(i);
                    assert(places(out@) =~= before.push(i as int));
                }
                i += 1;
            }
            Some(out)
        },
    }
}

/// A candidate has a row where its score reaches the least one that is asked for and the
/// filters choose it; rows come in the order of the candidates.
pub proof fn law_rows_are_those_chosen(
    candidates: Seq<Candidate>,
    recorded: Seq<bool>,
    filters: CandidateUiFilters,
    minimum_score: int,
    upto: int,
    at: int,
)
    requires
        0 <= upto <= candidates.len(),
    ensures
        shown_rows(candidates, recorded, filters, minimum_score, upto).contains(at) <==> 0 <= at
            < upto && candidates[at].overall_score >= 100 * minimum_score && filters.chooses(
            candidates[at],
            at < recorded.len() && recorded[at],
        ),
        forall|j: int, k: int|
            0 <= j < k < shown_rows(candidates, recorded, filters, minimum_score, upto).len()
                ==> #[trigger] shown_rows(candidates, recorded, filters, minimum_score, upto)[j]
                < #[trigger] shown_rows(candidates, recorded, filters, minimum_score, upto)[k] < upto,
    decreases upto,
{
    let all = shown_rows(candidates, recorded, filters, minimum_score, upto);
    if upto > 0 {
        let known = shown_rows(candidates, recorded, filters, minimum_score, upto - 1);
        law_rows_are_those_chosen(candidates, recorded, filters, minimum_score, upto - 1, at);
        lemma_rows_below(candidates, recorded, filters, minimum_score, upto - 1);
        if all.contains(at) {
            let k = choose|k: int| 0 <= k < all.len() && all[k] == at;
            if k < known.len() {
                assert(known[k] == at);
            }
        }
        if known.contains(at) {
            let k = choose|k: int| 0 <= k < known.len() && known[k] == at;
            assert(all[k] == at);
        }
        if at == upto - 1 && all.len() > known.len() {
            assert(all[known.len() as int] == at);
        }
        assert forall|j: int, k: int| 0 <= j < k < all.len() implies #[trigger] all[j]
            < #[trigger] all[k] < upto by {
            assert(all[j] == known[j]);
            if k < known.len() {
                assert(all[k] == known[k]);
            }
        }
    }
}

proof fn lemma_rows_below(
    candidates: Seq<Candidate>,
    recorded: Seq<bool>,
    filters: CandidateUiFilters,
    minimum_score: int,
    upto: int,
)
    ensures
        forall|k: int|
            0 <= k < shown_rows(candidates, recorded, filters, minimum_score, upto).len() ==> 0
                <= #[trigger] shown_rows(candidates, recorded, filters, minimum_score, upto)[k]
                < upto,
    decreases upto,
{
    if upto > 0 {
        lemma_rows_below(candidates, recorded, filters, minimum_score, upto - 1);
        let known = shown_rows(candidates, recorded, filters, minimum_score, upto - 1);
        let all = shown_rows(candidates, recorded, filters, minimum_score, upto);
        assert forall|k: int| 0 <= k < all.len() implies 0 <= #[trigger] all[k] < upto by {
            if k < known.len() {
                assert(all[k] == known[k]);
            }
        }
    }
}

/// A candidate that is chosen has one of the maps, one of the classes and one of the kinds
/// of server that are asked for, is recorded or not as asked, and its tags hold every word
/// of the query; one that has all of these is chosen.
pub proof fn law_every_choice_must_be_met(
    filters: CandidateUiFilters,
    candidate: Candidate,
    recorded: bool,
)
    ensures
        filters.recorded == Some(!recorded) ==> !filters.chooses(candidate, recorded),
        filters.maps.len() > 0 && (forall|i: int|
            0 <= i < filters.maps.len() ==> !same_fold(
                candidate.map_name@,
                (#[trigger] filters.maps@[i])@,
            )) ==> !filters.chooses(candidate, recorded),
        filters.classes.len() > 0 && (forall|i: int|
            0 <= i < filters.classes.len() ==> plain_class(candidate.attacker_class@) != plain_class(
                (#[trigger] filters.classes@[i])@,
            )) ==> !filters.chooses(candidate, recorded),
        filters.server_types.len() > 0 && (forall|i: int|
            0 <= i < filters.server_types.len() ==> !same_fold(
                server_type(candidate),
                (#[trigger] filters.server_types@[i])@,
            )) ==> !filters.chooses(candidate, recorded),
        filters.chooses(candidate, recorded) && search_text(filters.tag_query@).len() > 0
            ==> forall|i: int|
            0 <= i < words(search_text(filters.tag_query@)).len() ==> has_text(
                search_text(joined(views(candidate.tags@), " "@)),
                #[trigger] words(search_text(filters.tag_query@))[i],
            ),
{
    assert forall|i: int| 0 <= i < filters.maps.len() implies views(filters.maps@)[i] == (
    #[trigger] filters.maps@[i])@ by {
    }
    assert forall|i: int| 0 <= i < filters.classes.len() implies views(filters.classes@)[i] == (
    #[trigger] filters.classes@[i])@ by {
    }
    assert forall|i: int| 0 <= i < filters.server_types.len() implies views(
        filters.server_types@,
    )[i] == (#[trigger] filters.server_types@[i])@ by {
    }
}

/// One map that a candidate has is enough of those asked for, and so for classes and kinds
/// of server.
pub proof fn law_one_of_each_choice_is_enough(
    filters: CandidateUiFilters,
    candidate: Candidate,
    recorded: bool,
    map: int,
    class: int,
    server: int,
)
    requires
        0 <= map < filters.maps.len(),
        same_fold(candidate.map_name@, filters.maps@[map]@),
        0 <= class < filters.classes.len(),
        plain_class(candidate.attacker_class@) == plain_class(filters.classes@[class]@),
        0 <= server < filters.server_types.len(),
        same_fold(server_type(candidate), filters.server_types@[server]@),
        filters.recorded is None,
        search_text(filters.tag_query@).len() == 0,
    ensures
        filters.chooses(candidate, recorded),
{
    assert(views(filters.maps@)[map] == filters.maps@[map]@);
    assert(views(filters.classes@)[class] == filters.classes@[class]@);
    assert(views(filters.server_types@)[server] == filters.server_types@[server]@);
}

/// The selected candidates are those whose flag is set, and those to record without asking
/// are the selected ones that are not recorded yet.
pub proof fn law_selected_are_those_flagged(
    selected: Seq<bool>,
    recorded: Seq<bool>,
    upto: int,
    at: int,
)
    requires
        0 <= upto <= selected.len(),
    ensures
        selected_places(selected, upto).contains(at) <==> 0 <= at < upto && selected[at],
        unrecorded_places(selected, recorded, upto).contains(at) <==> 0 <= at < upto && selected[at]
            && !(at < recorded.len() && recorded[at]),
    decreases upto,
{
    if upto > 0 {
        law_selected_are_those_flagged(selected, recorded, upto - 1, at);
        lemma_put_last(selected_places(selected, upto - 1), upto - 1, at);
        lemma_put_last(unrecorded_places(selected, recorded, upto - 1), upto - 1, at);
    }
}

proof fn lemma_put_last(list: Seq<int>, last: int, at: int)
    ensures
        list.push(last).contains(at) <==> list.contains(at) || at == last,
{
    let all = list.push(last);
    if all.contains(at) {
        let k = choose|k: int| 0 <= k < all.len() && all[k] == at;
        if k < list.len() {
            assert(list[k] == at);
        }
    }
    if list.contains(at) {
        let k = choose|k: int| 0 <= k < list.len() && list[k] == at;
        assert(all[k] == at);
    }
    assert(all[list.len() as int] == last);
}

/// The lines of a list that are searched for a text are those that hold it, in any case.
pub proof fn law_searched_lines_hold_the_text(
    values: Seq<Seq<char>>,
    search: Seq<char>,
    value: Seq<char>,
)
    ensures
        searched(values, search).contains(value) <==> values.contains(value) && (lower(
            trimmed(search),
        ).len() == 0 || has_text(lower(value), lower(trimmed(search)))),
    decreases values.len(),
{
    if values.len() > 0 {
        let rest = values.drop_last();
        law_searched_lines_hold_the_text(rest, search, value);
        let known = searched(rest, search);
        let all = searched(values, search);
        if values.contains(value) {
            let k = choose|k: int| 0 <= k < values.len() && values[k] == value;
            if k < rest.len() {
                assert(rest[k] == value);
                assert(rest.contains(value));
            }
        }
        if rest.contains(value) {
            let k = choose|k: int| 0 <= k < rest.len() && rest[k] == value;
            assert(values[k] == value);
        }
        assert(values[values.len() - 1] == values.last());
        if known.contains(value) {
            let k = choose|k: int| 0 <= k < known.len() && known[k] == value;
            assert(all[k] == value);
        }
        if all.contains(value) {
            let k = choose|k: int| 0 <= k < all.len() && all[k] == value;
            if k < known.len() {
                assert(known[k] == value);
            }
        }
        if all.len() > known.len() {
            assert(all[known.len() as int] == values.last());
        }
    } else {
        assert(searched(values, search) =~= Seq::empty());
    }
}

/// The classes are known by the numbers that the game gives them.
pub proof fn law_classes_are_numbered()
    ensures
        plain_class("1"@) == "scout"@,
        plain_class("2"@) == "sniper"@,
        plain_class("3"@) == "soldier"@,
        plain_class("4"@) == "demoman"@,
        plain_class("5"@) == "medic"@,
        plain_class("6"@) == "heavy"@,
        plain_class("7"@) == "pyro"@,
        plain_class("8"@) == "spy"@,
        plain_class("9"@) == "engineer"@,
{
    reveal_strlit("1");
    reveal_strlit("2");
    reveal_strlit("3");
    reveal_strlit("4");
    reveal_strlit("5");
    reveal_strlit("6");
    reveal_strlit("7");
    reveal_strlit("8");
    reveal_strlit("9");
    reveal_strlit("demo");
    reveal_strlit("heavyweapons");
    reveal_strlit("heavyweaponsguy");
    assert("demo"@.len() == 4 && "heavyweapons"@.len() == 12 && "heavyweaponsguy"@.len() == 15);
    lemma_digit_stays("1"@);
    lemma_digit_stays("2"@);
    lemma_digit_stays("3"@);
    lemma_digit_stays("4"@);
    lemma_digit_stays("5"@);
    lemma_digit_stays("6"@);
    lemma_digit_stays("7"@);
    lemma_digit_stays("8"@);
    lemma_digit_stays("9"@);
    assert("1"@[0] == '1' && "2"@[0] == '2' && "3"@[0] == '3' && "4"@[0] == '4' && "5"@[0] == '5'
        && "6"@[0] == '6' && "7"@[0] == '7' && "8"@[0] == '8' && "9"@[0] == '9');
}

proof fn lemma_digit_stays(text: Seq<char>)
    requires
        text.len() == 1,
        '0' <= text[0] <= '9',
    ensures
        lower(trimmed(text)) == text,
{
    assert(!is_space(text[0]));
    assert(trimmed(text) == text);
    assert(lower(text) =~= text);
}

} // verus!

//! The item schema of the game: the slot and the name of each item.
use vstd::prelude::*;
use crate::deaths::ItemInfo;
use crate::number::{int_of, parse_i64, ranged};
use crate::text::{
    chars_of, lemma_pieces_nonempty, lower, pieces, same_text, split, string_between, to_lower, trim,
    trim_end, trim_start, trimmed, views,
};

verus! {

// ---------------------------------------------------------------------------
// Lines
// ---------------------------------------------------------------------------

/// The texts between quotation marks: every second piece of a line.
pub open spec fn every_second(parts: Seq<Seq<char>>) -> Seq<Seq<char>>
    decreases parts.len(),
{
    if parts.len() == 0 {
        Seq::empty()
    } else {
        let before = every_second(parts.drop_last());
        if (parts.len() - 1) % 2 == 1 {
            before.push(parts.last())
        } else {
            before
        }
    }
}

/// The texts between quotation marks on a line.
pub open spec fn quoted(line: Seq<char>) -> Seq<Seq<char>> {
    every_second(pieces(line, '"'))
}

/// The texts between quotation marks on a line.
pub fn quoted_values(line: &str) -> (out: Vec<String>)
    ensures
        views(out@) == quoted(line@),
{
    let parts = split(line, '"');
    let ghost all = views(parts@);
    let mut out: Vec<String> = Vec::new();
    let mut i: usize = 0;
    assert(views(out@) =~= every_second(all.take(0)));
    while i < parts.len()
        invariant
            i <= parts.len(),
            all == views(parts@),
            views(out@) == every_second(all.take(i as int)),
        decreases parts.len() - i,
    {
        proof {
            assert(all.take(i + 1).drop_last() =~= all.take(i as int));
            assert(all.take(i + 1).last() == parts@[i as int]@);
        }
        if i % 2 == 1 {
            let ghost before = views(out@);
            out.push(parts[i].clone());
            assert(views(out@) =~= before.push(parts@[i as int]@));
        }
        i += 1;
    }
    assert(all.take(parts.len() as int) =~= all);
    out
}

/// How often a character occurs in a text.
pub open spec fn occurrences(text: Seq<char>, c: char) -> nat
    decreases text.len(),
{
    if text.len() == 0 {
        0
    } else {
        occurrences(text.drop_last(), c) + if text.last() == c {
            1nat
        } else {
            0
        }
    }
}

fn count_char(text: &str, c: char) -> (out: usize)
    ensures
        out == occurrences(text@, c),
        out <= text@.len(),
{
    let chars = chars_of(text);
    let mut count: usize = 0;
    let mut i: usize = 0;
    while i < chars.len()
        invariant
            i <= chars.len(),
            count <= i,
            count == occurrences(chars@.take(i as int), c),
        decreases chars.len() - i,
    {
        proof {
            assert(chars@.take(i + 1).drop_last() =~= chars@.take(i as int));
            assert(chars@.take(i + 1).last() == chars@[i as int]);
        }
        if chars[i] == c {
            count += 1;
        }
        i += 1;
    }
    assert(chars@.take(chars.len() as int) =~= chars@);
    count
}

/// A text without the number signs at its start.
pub open spec fn without_marks(text: Seq<char>) -> Seq<char>
    decreases text.len(),
{
    if text.len() > 0 && text[0] == '#' {
        without_marks(text.skip(1))
    } else {
        text
    }
}

fn strip_marks(text: &str) -> (out: String)
    ensures
        out@ == without_marks(text@),
{
    let chars = chars_of(text);
    let mut i: usize = 0;
    assert(chars@.skip(0) =~= chars@);
    while i < chars.len() && chars[i] == '#'
        invariant
            i <= chars.len(),
            without_marks(chars@) == without_marks(chars@.skip(i as int)),
        decreases chars.len() - i,
    {
        assert(chars@.skip(i as int)[0] == chars@[i as int]);
        assert(chars@.skip(i as int).skip(1) =~= chars@.skip(i + 1));
        i += 1;
    }
    assert(i < chars.len() ==> chars@.skip(i as int)[0] == chars@[i as int]);
    assert(chars@.skip(i as int) =~= chars@.subrange(i as int, chars.len() as int));
    string_between(&chars, i, chars.len())
}

// ---------------------------------------------------------------------------
// Items
// ---------------------------------------------------------------------------

/// How far the reading of a schema has come: the item that is open, how deep its
/// braces are nested, and what is known of it; and the items that are done.
pub struct SchemaState {
    pub current: Option<i64>,
    pub depth: int,
    pub slot: Seq<char>,
    pub log_name: Seq<char>,
    pub items: Seq<(i64, Seq<char>, Seq<char>)>,
}

/// The number of the item that a line opens, if any.
pub open spec fn opens(line: Seq<char>) -> Option<int> {
    if quoted(line).len() > 0 {
        ranged(int_of(quoted(line)[0]), i64::MIN as int, i64::MAX as int)
    } else {
        None
    }
}

/// Whether a line gives a key a value.
pub open spec fn gives(line: Seq<char>, key: Seq<char>) -> bool {
    quoted(line).len() >= 2 && quoted(line)[0] == key
}

/// An item put among others, in the place of one with its number.
pub open spec fn with_item(
    items: Seq<(i64, Seq<char>, Seq<char>)>,
    item: (i64, Seq<char>, Seq<char>),
) -> Seq<(i64, Seq<char>, Seq<char>)>
    decreases items.len(),
{
    if items.len() == 0 {
        seq![item]
    } else if items.last().0 == item.0 {
        items.drop_last().push(item)
    } else {
        with_item(items.drop_last(), item).push(items.last())
    }
}

impl SchemaState {
    /// Where an item is open, what a line adds to it; what stands behind the last
    /// brace of an item is not of it.
    pub open spec fn reading(self, line: Seq<char>) -> SchemaState {
        let slot = if gives(line, "item_slot"@) {
            lower(quoted(line)[1])
        } else {
            self.slot
        };
        let log_name = if !gives(line, "item_slot"@) && (gives(line, "item_logname"@) || gives(
            line,
            "name"@,
        )) && self.log_name.len() == 0 {
            lower(without_marks(quoted(line)[1]))
        } else {
            self.log_name
        };
        let depth = self.depth + occurrences(line, '{') - occurrences(line, '}');
        if depth <= 0 && occurrences(line, '}') > 0 {
            SchemaState {
                current: None,
                depth,
                slot,
                log_name,
                items: with_item(self.items, (self.current->0, slot, log_name)),
            }
        } else {
            SchemaState { depth, slot, log_name, ..self }
        }
    }

    /// What a line makes of the state.
    pub open spec fn after(self, line: Seq<char>) -> SchemaState {
        match self.current {
            Some(_) => self.reading(line),
            None => match opens(line) {
                Some(index) => SchemaState {
                    current: Some(index as i64),
                    depth: 0,
                    slot: Seq::empty(),
                    log_name: Seq::empty(),
                    items: self.items,
                }.reading(line),
                None => self,
            },
        }
    }
}

/// The state after lines.
pub open spec fn schema_after(lines: Seq<Seq<char>>) -> SchemaState
    decreases lines.len(),
{
    if lines.len() == 0 {
        SchemaState {
            current: None,
            depth: 0,
            slot: Seq::empty(),
            log_name: Seq::empty(),
            items: Seq::empty(),
        }
    } else {
        schema_after(lines.drop_last()).after(trimmed(lines.last()))
    }
}

/// The items that a list holds.
pub open spec fn item_models(items: Seq<ItemInfo>) -> Seq<(i64, Seq<char>, Seq<char>)> {
    Seq::new(items.len(), |i: int| (items[i].index, items[i].slot@, items[i].log_name@))
}

fn put_item(items: &mut Vec<ItemInfo>, item: ItemInfo)
    ensures
        item_models(final(items)@) == with_item(
            item_models(old(items)@),
            (item.index, item.slot@, item.log_name@),
        ),
{
    let ghost before = item_models(items@);
    let ghost model = (item.index, item.slot@, item.log_name@);
    let mut at: usize = items.len();
    assert(before.take(at as int) =~= before);
    assert(with_item(before, model) =~= with_item(before.take(at as int), model) + before.skip(
        at as int,
    ));
    while at > 0 && items[at - 1].index != item.index
        invariant
            at <= items.len(),
            items@ == old(items)@,
            before == item_models(items@),
            model.0 == item.index,
            with_item(before, model) == with_item(before.take(at as int), model) + before.skip(
                at as int,
            ),
        decreases at,
    {
        proof {
            let now = before.take(at as int);
            assert(now.last() == before[at - 1]);
            assert(now.drop_last() =~= before.take(at - 1));
            assert(with_item(now, model) + before.skip(at as int) =~= with_item(
                before.take(at - 1),
                model,
            ) + before.skip(at - 1));
        }
        at -= 1;
    }
    let ghost now = before.take(at as int);
    if at > 0 {
        items.set(at - 1, item);
        proof {
            assert(now.last() == before[at - 1]);
            assert(item_models(items@) =~= now.drop_last().push(model) + before.skip(at as int));
        }
    } else {
        items.insert(0, item);
        proof {
            assert(with_item(now, model) =~= seq![model]);
            assert(item_models(items@) =~= seq![model] + before.skip(0));
        }
    }
}

/// The length of texts together.
pub open spec fn total_len(parts: Seq<Seq<char>>) -> nat
    decreases parts.len(),
{
    if parts.len() == 0 {
        0
    } else {
        total_len(parts.drop_last()) + parts.last().len()
    }
}

proof fn lemma_pieces_len(text: Seq<char>, sep: char)
    ensures
        total_len(pieces(text, sep)) <= text.len(),
    decreases text.len(),
{
    reveal_with_fuel(total_len, 2);
    if text.len() == 0 {
        assert(pieces(text, sep).drop_last() =~= Seq::empty());
    } else {
        lemma_pieces_len(text.drop_last(), sep);
        lemma_pieces_nonempty(text.drop_last(), sep);
        let before = pieces(text.drop_last(), sep);
        let now = pieces(text, sep);
        if text.last() == sep {
            assert(now.drop_last() =~= before);
        } else {
            assert(now.drop_last() =~= before.drop_last());
        }
    }
}

proof fn lemma_total_len_grows(parts: Seq<Seq<char>>, n: int)
    requires
        0 <= n <= parts.len(),
    ensures
        total_len(parts.take(n)) <= total_len(parts),
    decreases parts.len() - n,
{
    if n < parts.len() {
        lemma_total_len_grows(parts, n + 1);
        assert(parts.take(n + 1).drop_last() =~= parts.take(n));
    } else {
        assert(parts.take(n) =~= parts);
    }
}

proof fn lemma_trim_start_len(text: Seq<char>)
    ensures
        trim_start(text).len() <= text.len(),
    decreases text.len(),
{
    if text.len() > 0 {
        lemma_trim_start_len(text.skip(1));
    }
}

proof fn lemma_trim_end_len(text: Seq<char>)
    ensures
        trim_end(text).len() <= text.len(),
    decreases text.len(),
{
    if text.len() > 0 {
        lemma_trim_end_len(text.drop_last());
    }
}

proof fn lemma_trimmed_len(text: Seq<char>)
    ensures
        trimmed(text).len() <= text.len(),
{
    lemma_trim_start_len(text);
    lemma_trim_end_len(text);
    lemma_trim_start_len(trim_end(text));
    lemma_trim_end_len(trim_start(text));
}

/// The items that the text of a schema tells of.
pub fn parse_item_schema(text: &str) -> (out: Vec<ItemInfo>)
    ensures
        item_models(out@) == schema_after(pieces(text@, '\n')).items,
{
    let length: usize = chars_of(text).len();
    let lines = split(text, '\n');
    let ghost all = views(lines@);
    let mut items: Vec<ItemInfo> = Vec::new();
    let mut current: Option<i64> = None;
    let mut depth: i128 = 0;
    let mut slot = String::new();
    let mut log_name = String::new();
    let mut i: usize = 0;
    proof {
        lemma_pieces_len(text@, '\n');
        assert(item_models(items@) =~= Seq::empty());
        assert(slot@ =~= Seq::empty());
        assert(log_name@ =~= Seq::empty());
    }
    while i < lines.len()
        invariant
            i <= lines.len(),
            all == views(lines@),
            length == text@.len(),
            total_len(all) <= length,
            -total_len(all.take(i as int)) <= depth <= total_len(all.take(i as int)),
            schema_after(all.take(i as int)) == (SchemaState {
                current,
                depth: depth as int,
                slot: slot@,
                log_name: log_name@,
                items: item_models(items@),
            }),
        decreases lines.len() - i,
    {
        let line = trim(lines[i].as_str());
        proof {
            let next = all.take(i + 1);
            assert(next.drop_last() =~= all.take(i as int));
            assert(next.last() == lines@[i as int]@);
            lemma_total_len_grows(all, i + 1);
            lemma_trimmed_len(lines@[i as int]@);
        }
        let values = quoted_values(line.as_str());
        assert(values.len() == views(values@).len());
        if current.is_none() && values.len() > 0 {
            assert(views(values@)[0] == values@[0]@);
            if let Some(index) = parse_i64(values[0].as_str()) {
                current = Some(index);
                slot = String::new();
                log_name = String::new();
                depth = 0;
                assert(slot@ =~= Seq::empty());
                assert(log_name@ =~= Seq::empty());
            }
        }
        if let Some(index) = current {
            let opened: usize = count_char(line.as_str(), '{');
            let closed: usize = count_char(line.as_str(), '}');
            if values.len() >= 2 {
                assert(views(values@)[0] == values@[0]@);
                assert(views(values@)[1] == values@[1]@);
                let key = values[0].as_str();
                if same_text(key, "item_slot") {
                    slot = to_lower(values[1].as_str());
                } else if (same_text(key, "item_logname") || same_text(key, "name"))
                    && log_name.as_str().is_empty() {
                    log_name = to_lower(strip_marks(values[1].as_str()).as_str());
                }
            }
            proof {
                lemma_braces(line@);
            }
            depth = depth + opened as i128 - closed as i128;
            if depth <= 0 && closed > 0 {
                put_item(
                    &mut items,
                    ItemInfo { index, slot: slot.clone(), log_name: log_name.clone() },
                );
                current = None;
            }
        }
        i += 1;
    }
    assert(all.take(lines.len() as int) =~= all);
    items
}

proof fn lemma_braces(line: Seq<char>)
    ensures
        occurrences(line, '{') + occurrences(line, '}') <= line.len(),
    decreases line.len(),
{
    if line.len() > 0 {
        lemma_braces(line.drop_last());
    }
}

/// Of two items with one number the later counts, and the other items stay as they are.
pub proof fn law_latest_item_counts(
    items: Seq<(i64, Seq<char>, Seq<char>)>,
    item: (i64, Seq<char>, Seq<char>),
    other: (i64, Seq<char>, Seq<char>),
)
    ensures
        with_item(items, item).contains(item),
        items.contains(other) && other.0 != item.0 ==> with_item(items, item).contains(other),
        with_item(items, item).len() <= items.len() + 1,
    decreases items.len(),
{
    let out = with_item(items, item);
    if items.len() == 0 {
        assert(out[0] == item);
    } else {
        let rest = items.drop_last();
        law_latest_item_counts(rest, item, other);
        assert(out[out.len() - 1] == out.last());
        if items.last().0 == item.0 {
            if items.contains(other) && other.0 != item.0 {
                let k = choose|k: int| 0 <= k < items.len() && items[k] == other;
                assert(out[k] == other);
            }
        } else {
            let before = with_item(rest, item);
            let k = choose|k: int| 0 <= k < before.len() && before[k] == item;
            assert(out[k] == item);
            if items.contains(other) && other.0 != item.0 {
                let j = choose|j: int| 0 <= j < items.len() && items[j] == other;
                if j < rest.len() {
                    assert(rest[j] == other);
                    let m = choose|m: int| 0 <= m < before.len() && before[m] == other;
                    assert(out[m] == other);
                }
            }
        }
    }
}

/// Within an item a line gives its slot, or its name where it has none yet; braces tell
/// where the item ends.
pub proof fn law_items_are_read(state: SchemaState, line: Seq<char>)
    requires
        state.current is Some,
    ensures
        ({
            let after = state.after(line);
            let pair = quoted(line).len() >= 2;
            let key = quoted(line)[0];
            let depth = state.depth + occurrences(line, '{') - occurrences(line, '}');
            &&& pair && key == "item_slot"@ ==> after.slot == lower(quoted(line)[1])
                && after.log_name == state.log_name
            &&& pair && (key == "name"@ || key == "item_logname"@) ==> after.slot == state.slot
            &&& pair && (key == "name"@ || key == "item_logname"@) && state.log_name.len() == 0
                ==> after.log_name == lower(without_marks(quoted(line)[1]))
            &&& state.log_name.len() > 0 ==> after.log_name == state.log_name
            &&& after.depth == depth
            &&& depth <= 0 && occurrences(line, '}') > 0 ==> after.current is None
                && after.items.contains((state.current->0, after.slot, after.log_name))
            &&& !(depth <= 0 && occurrences(line, '}') > 0) ==> after.current == state.current
                && after.items == state.items
        }),
{
    reveal_strlit("item_slot");
    reveal_strlit("item_logname");
    reveal_strlit("name");
    assert("item_slot"@.len() == 9 && "item_logname"@.len() == 12 && "name"@.len() == 4);
    let after = state.after(line);
    let item = (state.current->0, after.slot, after.log_name);
    law_latest_item_counts(state.items, item, item);
}

} // verus!

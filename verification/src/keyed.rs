//! Lists of values under keys, in the order in which the keys were first seen.
use vstd::prelude::*;
use crate::record::{Record, RecordModel};

verus! {

/// Values with a mathematical model.
pub trait Modeled: Sized {
    type Model;

    /// What the value stands for.
    spec fn modeled(&self) -> Self::Model;
}

/// A value under a key.
#[derive(Debug)]
pub struct Keyed<V> {
    pub key: i64,
    pub value: V,
}

/// A record at a tick.
#[derive(Debug)]
pub struct Sample {
    pub tick: i64,
    pub state: Record,
}

/// The samples that a list holds.
pub open spec fn sample_models(samples: Seq<Sample>) -> Seq<(i64, RecordModel)> {
    Seq::new(samples.len(), |i: int| (samples[i].tick, samples[i].state.model()))
}

impl Modeled for Record {
    type Model = RecordModel;

    open spec fn modeled(&self) -> RecordModel {
        self.model()
    }
}

impl Modeled for Vec<Sample> {
    type Model = Seq<(i64, RecordModel)>;

    open spec fn modeled(&self) -> Seq<(i64, RecordModel)> {
        sample_models(self@)
    }
}

impl Modeled for Vec<i64> {
    type Model = Seq<i64>;

    open spec fn modeled(&self) -> Seq<i64> {
        self@
    }
}

/// What a list of values under keys stands for.
pub open spec fn entries<V: Modeled>(list: Seq<Keyed<V>>) -> Seq<(i64, V::Model)> {
    Seq::new(list.len(), |i: int| (list[i].key, list[i].value.modeled()))
}

/// The value under a key.
pub open spec fn entry_of<M>(list: Seq<(i64, M)>, key: i64) -> Option<M>
    decreases list.len(),
{
    if list.len() == 0 {
        None
    } else if list[0].0 == key {
        Some(list[0].1)
    } else {
        entry_of(list.skip(1), key)
    }
}

/// A list with a value under a key: in the place of the one that is there, else
/// at the end.
pub open spec fn with_entry<M>(list: Seq<(i64, M)>, key: i64, value: M) -> Seq<(i64, M)>
    decreases list.len(),
{
    if list.len() == 0 {
        seq![(key, value)]
    } else if list[0].0 == key {
        seq![(key, value)] + list.skip(1)
    } else {
        seq![list[0]] + with_entry(list.skip(1), key, value)
    }
}

/// A list without the value under a key.
pub open spec fn without_entry<M>(list: Seq<(i64, M)>, key: i64) -> Seq<(i64, M)>
    decreases list.len(),
{
    if list.len() == 0 {
        Seq::empty()
    } else if list[0].0 == key {
        list.skip(1)
    } else {
        seq![list[0]] + without_entry(list.skip(1), key)
    }
}

/// What is put under a key is found under it, and nothing else changes.
pub proof fn law_entry_found<M>(list: Seq<(i64, M)>, key: i64, value: M, other: i64)
    ensures
        entry_of(with_entry(list, key, value), other) == (if other == key {
            Some(value)
        } else {
            entry_of(list, other)
        }),
    decreases list.len(),
{
    reveal_with_fuel(entry_of, 3);
    let out = with_entry(list, key, value);
    if list.len() == 0 {
        assert(out.skip(1) =~= Seq::empty());
    } else if list[0].0 == key {
        assert(out.skip(1) =~= list.skip(1));
    } else {
        assert(out.skip(1) =~= with_entry(list.skip(1), key, value));
        law_entry_found(list.skip(1), key, value, other);
    }
}

/// Where a key stands first in a list, and what that means for the list.
pub proof fn lemma_entry_at<M>(list: Seq<(i64, M)>, key: i64, at: int)
    requires
        0 <= at < list.len(),
        list[at].0 == key,
        forall|j: int| 0 <= j < at ==> (#[trigger] list[j]).0 != key,
    ensures
        entry_of(list, key) == Some(list[at].1),
        forall|value: M| #[trigger] with_entry(list, key, value) == list.update(at, (key, value)),
        without_entry(list, key) == list.remove(at),
    decreases list.len(),
{
    if at == 0 {
        assert forall|value: M| #[trigger]
            with_entry(list, key, value) == list.update(at, (key, value)) by {
            assert(seq![(key, value)] + list.skip(1) =~= list.update(0, (key, value)));
        }
        assert(list.skip(1) =~= list.remove(0));
    } else {
        let rest = list.skip(1);
        assert(forall|j: int| 0 <= j < rest.len() ==> #[trigger] rest[j] == list[j + 1]);
        assert(list[0].0 != key);
        lemma_entry_at(rest, key, at - 1);
        assert forall|value: M| #[trigger]
            with_entry(list, key, value) == list.update(at, (key, value)) by {
            assert(with_entry(rest, key, value) == rest.update(at - 1, (key, value)));
            assert(seq![list[0]] + rest.update(at - 1, (key, value)) =~= list.update(
                at,
                (key, value),
            ));
        }
        assert(seq![list[0]] + rest.remove(at - 1) =~= list.remove(at));
    }
}

/// Where a key does not stand in a list, and what that means for the list.
pub proof fn lemma_entry_absent<M>(list: Seq<(i64, M)>, key: i64)
    requires
        forall|j: int| 0 <= j < list.len() ==> (#[trigger] list[j]).0 != key,
    ensures
        entry_of(list, key) is None,
        forall|value: M| #[trigger] with_entry(list, key, value) == list.push((key, value)),
        without_entry(list, key) == list,
    decreases list.len(),
{
    if list.len() == 0 {
        assert forall|value: M| #[trigger]
            with_entry(list, key, value) == list.push((key, value)) by {
            assert(seq![(key, value)] =~= list.push((key, value)));
        }
        assert(without_entry(list, key) =~= list);
    } else {
        let rest = list.skip(1);
        assert(forall|j: int| 0 <= j < rest.len() ==> #[trigger] rest[j] == list[j + 1]);
        assert(list[0].0 != key);
        lemma_entry_absent(rest, key);
        assert forall|value: M| #[trigger]
            with_entry(list, key, value) == list.push((key, value)) by {
            assert(with_entry(rest, key, value) == rest.push((key, value)));
            assert(seq![list[0]] + rest.push((key, value)) =~= list.push((key, value)));
        }
        assert(seq![list[0]] + rest =~= list);
    }
}

/// Where a key stands in a list, and what the list would be with a value put
/// under it or taken away.
pub fn find_key<V: Modeled>(list: &Vec<Keyed<V>>, key: i64) -> (out: Option<usize>)
    ensures
        match out {
            Some(at) => {
                &&& at < list.len()
                &&& list@[at as int].key == key
                &&& entry_of(entries(list@), key) == Some(list@[at as int].value.modeled())
                &&& forall|value: V::Model| #[trigger]
                    with_entry(entries(list@), key, value) == entries(list@).update(
                        at as int,
                        (key, value),
                    )
                &&& without_entry(entries(list@), key) == entries(list@).remove(at as int)
            },
            None => {
                &&& entry_of(entries(list@), key) is None
                &&& forall|value: V::Model| #[trigger]
                    with_entry(entries(list@), key, value) == entries(list@).push((key, value))
                &&& without_entry(entries(list@), key) == entries(list@)
            },
        },
{
    let mut i: usize = 0;
    while i < list.len()
        invariant
            i <= list.len(),
            forall|j: int| 0 <= j < i ==> (#[trigger] list@[j]).key != key,
        decreases list.len() - i,
    {
        if list[i].key == key {
            proof {
                let all = entries(list@);
                assert forall|j: int| 0 <= j < i implies (#[trigger] all[j]).0 != key by {
                    assert(list@[j].key != key);
                }
                lemma_entry_at(all, key, i as int);
            }
            return Some(i);
        }
        i += 1;
    }
    proof {
        let all = entries(list@);
        assert forall|j: int| 0 <= j < all.len() implies (#[trigger] all[j]).0 != key by {
            assert(list@[j].key != key);
        }
        lemma_entry_absent(all, key);
    }
    None
}

/// The value under a key.
pub fn find_value<V: Modeled>(list: &Vec<Keyed<V>>, key: i64) -> (out: Option<&V>)
    ensures
        match out {
            Some(value) => entry_of(entries(list@), key) == Some(value.modeled()),
            None => entry_of(entries(list@), key) is None,
        },
{
    match find_key(list, key) {
        Some(at) => Some(&list[at].value),
        None => None,
    }
}

/// Takes away the value under a key.
pub fn remove_key<V: Modeled>(list: &mut Vec<Keyed<V>>, key: i64)
    ensures
        entries(final(list)@) == without_entry(entries(old(list)@), key),
{
    let found = find_key(list, key);
    if let Some(at) = found {
        let ghost before = list@;
        list.remove(at);
        assert(entries(list@) =~= entries(before).remove(at as int));
    }
}

} // verus!

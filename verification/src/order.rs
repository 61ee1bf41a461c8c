//! The dictionary order of texts, and lists kept in that order without
//! repetition.
use vstd::prelude::*;
use crate::text::{chars_of, same_text, views};

verus! {

/// Dictionary order by code point: whether `a` stands strictly before `b`.
pub open spec fn lex_less(a: Seq<char>, b: Seq<char>) -> bool
    decreases a.len(),
{
    if b.len() == 0 {
        false
    } else if a.len() == 0 {
        true
    } else if a[0] != b[0] {
        a[0] < b[0]
    } else {
        lex_less(a.skip(1), b.skip(1))
    }
}

/// No text stands before itself.
pub proof fn lemma_lex_irreflexive(a: Seq<char>)
    ensures
        !lex_less(a, a),
    decreases a.len(),
{
    if a.len() > 0 {
        lemma_lex_irreflexive(a.skip(1));
    }
}

/// Of two different texts one stands before the other.
pub proof fn lemma_lex_total(a: Seq<char>, b: Seq<char>)
    ensures
        a == b || lex_less(a, b) || lex_less(b, a),
        !(lex_less(a, b) && lex_less(b, a)),
    decreases a.len(),
{
    if a.len() == 0 {
        if b.len() == 0 {
            assert(a =~= b);
        }
    } else if b.len() > 0 && a[0] == b[0] {
        lemma_lex_total(a.skip(1), b.skip(1));
        if a.skip(1) == b.skip(1) {
            assert(a =~= seq![a[0]] + a.skip(1));
            assert(b =~= seq![b[0]] + b.skip(1));
        }
    }
}

/// The order is transitive.
pub proof fn lemma_lex_transitive(a: Seq<char>, b: Seq<char>, c: Seq<char>)
    requires
        lex_less(a, b),
        lex_less(b, c),
    ensures
        lex_less(a, c),
    decreases a.len(),
{
    if a.len() > 0 && a[0] == b[0] && b[0] == c[0] {
        lemma_lex_transitive(a.skip(1), b.skip(1), c.skip(1));
    }
}

/// Whether one string stands strictly before another.
pub fn text_less(a: &str, b: &str) -> (r: bool)
    ensures
        r == lex_less(a@, b@),
{
    let x = chars_of(a);
    let y = chars_of(b);
    let mut i: usize = 0;
    assert(x@.skip(0) =~= x@);
    assert(y@.skip(0) =~= y@);
    while i < x.len() && i < y.len()
        invariant
            i <= x.len(),
            i <= y.len(),
            x@ == a@,
            y@ == b@,
            lex_less(x@, y@) == lex_less(x@.skip(i as int), y@.skip(i as int)),
        decreases x.len() - i,
    {
        if x[i] != y[i] {
            return x[i] < y[i];
        }
        proof {
            assert(x@.skip(i as int).skip(1) =~= x@.skip(i + 1));
            assert(y@.skip(i as int).skip(1) =~= y@.skip(i + 1));
        }
        i += 1;
    }
    i < y.len()
}

/// Whether a list of texts is in strictly ascending order.
pub open spec fn ascending(list: Seq<Seq<char>>) -> bool {
    forall|i: int, j: int|
        0 <= i < j < list.len() ==> lex_less(#[trigger] list[i], #[trigger] list[j])
}

/// An ascending list is fixed by the set of its members.
pub proof fn law_ascending_is_unique(a: Seq<Seq<char>>, b: Seq<Seq<char>>)
    requires
        ascending(a),
        ascending(b),
        a.to_set() == b.to_set(),
    ensures
        a == b,
    decreases a.len(),
{
    if a.len() == 0 {
        if b.len() > 0 {
            assert(b.to_set().contains(b[0]));
            assert(a.to_set().contains(b[0]));
        }
        assert(a =~= b);
    } else {
        assert(a.to_set().contains(a.last()));
        assert(b.to_set().contains(a.last()));
        assert(b.len() > 0);
        assert(b.to_set().contains(b.last()));
        assert(a.to_set().contains(b.last()));
        let i = choose|i: int| 0 <= i < a.len() && a[i] == b.last();
        let j = choose|j: int| 0 <= j < b.len() && b[j] == a.last();
        lemma_lex_total(a.last(), b.last());
        if a.last() != b.last() {
            assert(i < a.len() - 1);
            assert(j < b.len() - 1);
            assert(lex_less(a[i], a.last()));
            assert(lex_less(b[j], b.last()));
        }
        let x = a.drop_last();
        let y = b.drop_last();
        assert forall|t: Seq<char>| x.to_set().contains(t) implies y.to_set().contains(t) by {
            let k = choose|k: int| 0 <= k < x.len() && x[k] == t;
            assert(a[k] == t);
            assert(a.to_set().contains(t));
            assert(b.to_set().contains(t));
            let m = choose|m: int| 0 <= m < b.len() && b[m] == t;
            lemma_lex_irreflexive(t);
            assert(lex_less(a[k], a.last()));
            assert(m < b.len() - 1);
            assert(y[m] == t);
        }
        assert forall|t: Seq<char>| y.to_set().contains(t) implies x.to_set().contains(t) by {
            let k = choose|k: int| 0 <= k < y.len() && y[k] == t;
            assert(b[k] == t);
            assert(b.to_set().contains(t));
            assert(a.to_set().contains(t));
            let m = choose|m: int| 0 <= m < a.len() && a[m] == t;
            lemma_lex_irreflexive(t);
            assert(lex_less(b[k], b.last()));
            assert(m < a.len() - 1);
            assert(x[m] == t);
        }
        assert(x.to_set() =~= y.to_set());
        law_ascending_is_unique(x, y);
        assert(a =~= x.push(a.last()));
        assert(b =~= y.push(b.last()));
    }
}

/// The texts that a list of strings holds.
pub open spec fn members(list: Seq<String>) -> Set<Seq<char>> {
    views(list).to_set()
}

/// Puts a text into an ascending list, where it is not there already.
pub fn insert_text(list: &mut Vec<String>, text: &str)
    requires
        ascending(views(old(list)@)),
    ensures
        ascending(views(final(list)@)),
        members(final(list)@) == members(old(list)@).insert(text@),
{
    let ghost before = views(list@);
    let mut i: usize = 0;
    while i < list.len() && text_less(list[i].as_str(), text)
        invariant
            i <= list.len(),
            list@ == old(list)@,
            before == views(list@),
            ascending(before),
            forall|j: int| 0 <= j < i ==> lex_less(#[trigger] before[j], text@),
        decreases list.len() - i,
    {
        i += 1;
    }
    if i < list.len() && same_text(list[i].as_str(), text) {
        proof {
            assert(before[i as int] == text@);
            assert(before.to_set().contains(text@));
            assert(before.to_set().insert(text@) =~= before.to_set());
        }
        return;
    }
    list.insert(i, text.to_owned());
    proof {
        let after = views(list@);
        assert(after =~= before.insert(i as int, text@));
        assert forall|p: int, q: int| 0 <= p < q < after.len() implies lex_less(
            #[trigger] after[p],
            #[trigger] after[q],
        ) by {
            if i < before.len() {
                lemma_lex_total(before[i as int], text@);
            }
            if q < i {
                assert(lex_less(before[p], before[q]));
            } else if q == i {
                assert(lex_less(before[p], text@));
            } else if p < i {
                assert(lex_less(before[p], before[q - 1]));
            } else if p == i {
                if q - 1 > i {
                    lemma_lex_transitive(text@, before[i as int], before[q - 1]);
                }
            } else {
                assert(lex_less(before[p - 1], before[q - 1]));
            }
        }
        assert forall|t: Seq<char>| after.to_set().contains(t) <==> before.to_set().insert(
            text@,
        ).contains(t) by {
            if after.to_set().contains(t) {
                let k = choose|k: int| 0 <= k < after.len() && after[k] == t;
                if k < i {
                    assert(before[k] == t);
                } else if k > i {
                    assert(before[k - 1] == t);
                }
            }
            if before.to_set().contains(t) {
                let k = choose|k: int| 0 <= k < before.len() && before[k] == t;
                if k < i {
                    assert(after[k] == t);
                } else {
                    assert(after[k + 1] == t);
                }
            }
            assert(after[i as int] == text@);
        }
        assert(after.to_set() =~= before.to_set().insert(text@));
    }
}

/// The texts of a list in ascending order, each once.
pub fn sorted_distinct(list: &Vec<String>) -> (out: Vec<String>)
    ensures
        ascending(views(out@)),
        members(out@) == members(list@),
{
    let mut out: Vec<String> = Vec::new();
    let mut i: usize = 0;
    proof {
        assert(members(out@) =~= Set::empty());
        assert(views(list@).take(0).to_set() =~= Set::empty());
    }
    while i < list.len()
        invariant
            i <= list.len(),
            ascending(views(out@)),
            members(out@) == views(list@).take(i as int).to_set(),
        decreases list.len() - i,
    {
        insert_text(&mut out, list[i].as_str());
        proof {
            let now = views(list@).take(i as int);
            let next = views(list@).take(i + 1);
            assert(next =~= now.push(list@[i as int]@));
            assert forall|t: Seq<char>| next.to_set().contains(t) <==> now.to_set().insert(
                list@[i as int]@,
            ).contains(t) by {
                if next.to_set().contains(t) {
                    let k = choose|k: int| 0 <= k < next.len() && next[k] == t;
                    if k < i {
                        assert(now[k] == t);
                    }
                }
                if now.to_set().contains(t) {
                    let k = choose|k: int| 0 <= k < now.len() && now[k] == t;
                    assert(next[k] == t);
                }
                assert(next[i as int] == list@[i as int]@);
            }
            assert(next.to_set() =~= now.to_set().insert(list@[i as int]@));
        }
        i += 1;
    }
    assert(views(list@).take(list.len() as int) =~= views(list@));
    out
}

/// Whether numbers rise, so that none occurs twice.
pub open spec fn rising(list: Seq<i64>) -> bool {
    forall|i: int, j: int| 0 <= i < j < list.len() ==> #[trigger] list[i] < #[trigger] list[j]
}

/// Two rising lists of the same numbers are one list.
pub proof fn law_rising_is_unique(a: Seq<i64>, b: Seq<i64>)
    requires
        rising(a),
        rising(b),
        a.to_set() == b.to_set(),
    ensures
        a == b,
    decreases a.len(),
{
    if a.len() == 0 {
        if b.len() > 0 {
            assert(b.to_set().contains(b[0]));
            assert(a.to_set().contains(b[0]));
        }
        assert(a =~= b);
    } else {
        assert(a.to_set().contains(a.last()));
        assert(b.to_set().contains(a.last()));
        let k = choose|k: int| 0 <= k < b.len() && b[k] == a.last();
        assert(b.to_set().contains(b.last()));
        assert(a.to_set().contains(b.last()));
        let m = choose|m: int| 0 <= m < a.len() && a[m] == b.last();
        assert(a.last() == b.last()) by {
            if k < b.len() - 1 {
                assert(b[k] < b[b.len() - 1]);
            }
            if m < a.len() - 1 {
                assert(a[m] < a[a.len() - 1]);
            }
        }
        let c = a.drop_last();
        let d = b.drop_last();
        assert forall|v: i64| c.to_set().contains(v) <==> d.to_set().contains(v) by {
            if c.to_set().contains(v) {
                let i = choose|i: int| 0 <= i < c.len() && c[i] == v;
                assert(a[i] == v && a[i] < a[a.len() - 1]);
                assert(a.to_set().contains(v));
                assert(b.to_set().contains(v));
                let j = choose|j: int| 0 <= j < b.len() && b[j] == v;
                assert(d[j] == v);
            }
            if d.to_set().contains(v) {
                let i = choose|i: int| 0 <= i < d.len() && d[i] == v;
                assert(b[i] == v && b[i] < b[b.len() - 1]);
                assert(b.to_set().contains(v));
                assert(a.to_set().contains(v));
                let j = choose|j: int| 0 <= j < a.len() && a[j] == v;
                assert(c[j] == v);
            }
        }
        assert(c.to_set() =~= d.to_set());
        law_rising_is_unique(c, d);
        assert(a =~= c.push(a.last()));
        assert(b =~= d.push(b.last()));
    }
}

/// Puts a number into a rising list, where it is not there already.
pub fn insert_number(list: &mut Vec<i64>, number: i64)
    requires
        rising(old(list)@),
    ensures
        rising(final(list)@),
        final(list)@.to_set() == old(list)@.to_set().insert(number),
{
    let ghost before = list@;
    let mut i: usize = 0;
    while i < list.len() && list[i] < number
        invariant
            i <= list.len(),
            list@ == before,
            rising(before),
            forall|j: int| 0 <= j < i ==> #[trigger] before[j] < number,
        decreases list.len() - i,
    {
        i += 1;
    }
    if i < list.len() && list[i] == number {
        assert(before[i as int] == number);
        assert(before.to_set().insert(number) =~= before.to_set());
        return;
    }
    list.insert(i, number);
    proof {
        let after = list@;
        assert(after =~= before.insert(i as int, number));
        assert forall|p: int, q: int| 0 <= p < q < after.len() implies #[trigger] after[p]
            < #[trigger] after[q] by {
            if i < before.len() {
                assert(before[i as int] > number);
            }
            if q < i {
                assert(before[p] < before[q]);
            } else if q == i {
                assert(before[p] < number);
            } else if p < i {
                assert(before[p] < before[q - 1]);
            } else if p == i {
                assert(before[i as int] <= before[q - 1]);
            } else {
                assert(before[p - 1] < before[q - 1]);
            }
        }
        assert forall|v: i64| after.to_set().contains(v) <==> before.to_set().insert(
            number,
        ).contains(v) by {
            if after.to_set().contains(v) {
                let k = choose|k: int| 0 <= k < after.len() && after[k] == v;
                if k < i {
                    assert(before[k] == v);
                } else if k > i {
                    assert(before[k - 1] == v);
                }
            }
            if before.to_set().contains(v) {
                let k = choose|k: int| 0 <= k < before.len() && before[k] == v;
                if k < i {
                    assert(after[k] == v);
                } else {
                    assert(after[k + 1] == v);
                }
            }
            assert(after[i as int] == number);
        }
        assert(after.to_set() =~= before.to_set().insert(number));
    }
}

} // verus!

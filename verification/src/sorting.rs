//! Putting things in order.

use crate::text::{chars_of, same};
use vstd::prelude::*;

verus! {

/// Whether place `a` comes before place `b`: its key is smaller, or they are
/// equal and it stood first.
pub open spec fn comes_first(keys: Seq<i128>, a: int, b: int) -> bool {
    keys[a] < keys[b] || (keys[a] == keys[b] && a < b)
}

/// Whether `order` holds every place of `keys` once.
pub open spec fn rearranges(order: Seq<usize>, n: nat) -> bool {
    &&& order.len() == n
    &&& forall|i: int| 0 <= i < n ==> (#[trigger] order[i]) < n
    &&& forall|i: int, j: int| 0 <= i < j < n ==> #[trigger] order[i] != #[trigger] order[j]
}

/// Whether `order` holds every place of `keys` once, by key, equal keys in the
/// order in which they stand. There is one such order.
pub open spec fn is_stable_order(order: Seq<usize>, keys: Seq<i128>) -> bool {
    &&& rearranges(order, keys.len())
    &&& forall|i: int, j: int|
        0 <= i < j < keys.len() ==> comes_first(keys, #[trigger] order[i] as int, #[trigger] order[j] as int)
}

/// The places of `keys` from the smallest key to the largest, equal keys in the
/// order in which they stand.
pub fn stable_order(keys: &Vec<i128>) -> (order: Vec<usize>)
    ensures
        is_stable_order(order@, keys@),
{
    let mut order: Vec<usize> = Vec::new();
    let mut n: usize = 0;
    while n < keys.len()
        invariant
            n <= keys@.len(),
            rearranges(order@, n as nat),
            forall|i: int, j: int|
                0 <= i < j < n ==> comes_first(
                    keys@,
                    #[trigger] order@[i] as int,
                    #[trigger] order@[j] as int,
                ),
        decreases keys@.len() - n,
    {
        let mut at: usize = 0;
        while at < order.len() && keys[order[at]] <= keys[n]
            invariant
                at <= order@.len(),
                n < keys@.len(),
                rearranges(order@, n as nat),
                forall|i: int| 0 <= i < at ==> keys@[(#[trigger] order@[i]) as int] <= keys@[n as int],
            decreases order@.len() - at,
        {
            at = at + 1;
        }
        let ghost before = order@;
        order.insert(at, n);
        proof {
            assert(order@ =~= before.insert(at as int, n));
            assert forall|i: int, j: int| 0 <= i < j < n + 1 implies #[trigger] order@[i] != #[trigger] order@[j]
                && comes_first(keys@, order@[i] as int, order@[j] as int) by {
                let bi = if i < at {
                    i
                } else {
                    i - 1
                };
                let bj = if j < at {
                    j
                } else {
                    j - 1
                };
                if i == at {
                    assert(order@[j] == before[bj]);
                    assert(keys@[n as int] < keys@[before[at as int] as int]);
                    if bj != at {
                        assert(comes_first(keys@, before[at as int] as int, before[bj] as int));
                    }
                } else if j == at {
                    assert(order@[i] == before[bi]);
                } else {
                    assert(order@[i] == before[bi]);
                    assert(order@[j] == before[bj]);
                    assert(comes_first(keys@, before[bi] as int, before[bj] as int));
                }
            }
        }
        n = n + 1;
    }
    order
}

/// There is only one order of the places by their keys.
pub proof fn lemma_order_is_unique(a: Seq<usize>, b: Seq<usize>, keys: Seq<i128>)
    requires
        is_stable_order(a, keys),
        is_stable_order(b, keys),
    ensures
        a == b,
{
    assert forall|k: int| 0 <= k < keys.len() implies a[k] == b[k] by {
        lemma_same_at(a, b, keys, k);
    }
    assert(a =~= b);
}

proof fn lemma_same_at(a: Seq<usize>, b: Seq<usize>, keys: Seq<i128>, k: int)
    requires
        is_stable_order(a, keys),
        is_stable_order(b, keys),
        0 <= k < keys.len(),
    ensures
        a[k] == b[k],
    decreases k,
{
    assert forall|i: int| 0 <= i < k implies a[i] == b[i] by {
        lemma_same_at(a, b, keys, i);
    }
    if a[k] != b[k] {
        let j = lemma_contains(b, keys.len(), a[k]);
        let i = lemma_contains(a, keys.len(), b[k]);
        if j < k {
            assert(a[j] == b[j]);
        }
        if i < k {
            assert(a[i] == b[i]);
        }
        assert(comes_first(keys, b[k] as int, b[j] as int));
        assert(comes_first(keys, a[k] as int, a[i] as int));
    }
}

/// A rearrangement holds every place.
pub proof fn lemma_contains(order: Seq<usize>, n: nat, place: usize) -> (i: int)
    requires
        rearranges(order, n),
        place < n,
    ensures
        0 <= i < n,
        order[i] == place,
{
    let ints = order.map(|i: int, x: usize| x as int);
    assert(ints.no_duplicates()) by {
        assert forall|i: int, j: int| 0 <= i < ints.len() && 0 <= j < ints.len() && i != j implies ints[i]
            != ints[j] by {
            if i < j {
                assert(order[i] != order[j]);
            } else {
                assert(order[j] != order[i]);
            }
        }
    }
    let all = vstd::set_lib::set_int_range(0, n as int);
    vstd::set_lib::lemma_int_range(0, n as int);
    ints.unique_seq_to_set();
    vstd::seq_lib::seq_to_set_is_finite(ints);
    assert(ints.to_set().subset_of(all)) by {
        assert forall|x: int| ints.to_set().contains(x) implies all.contains(x) by {
            let k = choose|k: int| 0 <= k < ints.len() && ints[k] == x;
            assert(order[k] < n);
        }
    }
    vstd::set_lib::lemma_subset_equality(ints.to_set(), all);
    assert(all.contains(place as int));
    let i = choose|i: int| 0 <= i < ints.len() && ints[i] == place as int;
    i
}

/// Whether a text comes before another: by the first character in which they
/// differ, or because it is a beginning of it.
pub open spec fn precedes(a: Seq<char>, b: Seq<char>) -> bool
    decreases a.len(),
{
    if b.len() == 0 {
        false
    } else if a.len() == 0 {
        true
    } else if a[0] != b[0] {
        a[0] < b[0]
    } else {
        precedes(a.drop_first(), b.drop_first())
    }
}

proof fn lemma_precedes_total(a: Seq<char>, b: Seq<char>)
    ensures
        precedes(a, b) || a == b || precedes(b, a),
    decreases a.len(),
{
    if a.len() > 0 && b.len() > 0 {
        if a[0] == b[0] {
            lemma_precedes_total(a.drop_first(), b.drop_first());
            if a.drop_first() == b.drop_first() {
                assert(a =~= seq![a[0]] + a.drop_first());
                assert(b =~= seq![b[0]] + b.drop_first());
            }
        }
    } else if a.len() == 0 && b.len() == 0 {
        assert(a =~= b);
    }
}

proof fn lemma_precedes_transitive(a: Seq<char>, b: Seq<char>, c: Seq<char>)
    requires
        precedes(a, b),
        precedes(b, c),
    ensures
        precedes(a, c),
    decreases a.len(),
{
    if a.len() > 0 {
        if a[0] == b[0] && b[0] == c[0] {
            lemma_precedes_transitive(a.drop_first(), b.drop_first(), c.drop_first());
        }
    }
}

/// Whether a text comes before another.
pub fn text_precedes(a: &str, b: &str) -> (r: bool)
    ensures
        r == precedes(a@, b@),
{
    let x = chars_of(a);
    let y = chars_of(b);
    let mut i: usize = 0;
    proof {
        assert(x@.skip(0) =~= x@);
        assert(y@.skip(0) =~= y@);
    }
    while i < x.len() && i < y.len()
        invariant
            i <= x@.len(),
            i <= y@.len(),
            x@ == a@,
            y@ == b@,
            precedes(a@, b@) == precedes(x@.skip(i as int), y@.skip(i as int)),
        decreases x@.len() - i,
    {
        proof {
            assert(x@.skip(i as int)[0] == x@[i as int]);
            assert(y@.skip(i as int)[0] == y@[i as int]);
            assert(x@.skip(i as int).drop_first() =~= x@.skip(i as int + 1));
            assert(y@.skip(i as int).drop_first() =~= y@.skip(i as int + 1));
        }
        if x[i] != y[i] {
            return x[i] < y[i];
        }
        i = i + 1;
    }
    i < y.len()
}

/// Whether texts stand in order, none of them twice.
pub open spec fn ascending(list: Seq<String>) -> bool {
    forall|i: int, j: int| 0 <= i < j < list.len() ==> precedes((#[trigger] list[i])@, (#[trigger] list[j])@)
}

/// Whether a text is among others.
pub open spec fn occurs_among(list: Seq<String>, text: Seq<char>) -> bool {
    exists|i: int| 0 <= i < list.len() && (#[trigger] list[i])@ == text
}

/// Puts a text at its place, unless it is there.
fn insert_sorted(list: &mut Vec<String>, text: String)
    requires
        ascending(old(list)@),
    ensures
        ascending(final(list)@),
        forall|t: Seq<char>| #[trigger]
            occurs_among(final(list)@, t) <==> occurs_among(old(list)@, t) || t == text@,
{
    let ghost before = list@;
    let mut at: usize = 0;
    while at < list.len() && text_precedes(list[at].as_str(), text.as_str())
        invariant
            at <= list@.len(),
            list@ == before,
            forall|i: int| 0 <= i < at ==> precedes((#[trigger] list@[i])@, text@),
        decreases list@.len() - at,
    {
        at = at + 1;
    }
    if at < list.len() && same(list[at].as_str(), text.as_str()) {
        proof {
            assert(list@[at as int]@ == text@);
        }
        return;
    }
    proof {
        assert forall|i: int| at <= i < before.len() implies precedes(text@, (#[trigger] before[i])@) by {
            lemma_precedes_total(before[at as int]@, text@);
            if i > at {
                lemma_precedes_transitive(text@, before[at as int]@, before[i]@);
            }
        }
    }
    let ghost added = text@;
    list.insert(at, text);
    proof {
        assert forall|i: int, j: int| 0 <= i < j < list@.len() implies precedes(
            (#[trigger] list@[i])@,
            (#[trigger] list@[j])@,
        ) by {
            let bi = if i < at {
                i
            } else {
                i - 1
            };
            let bj = if j < at {
                j
            } else {
                j - 1
            };
            if i != at && j != at {
                assert(list@[i] == before[bi]);
                assert(list@[j] == before[bj]);
            } else if i == at {
                assert(list@[j] == before[bj]);
            } else {
                assert(list@[i] == before[bi]);
            }
        }
        assert forall|t: Seq<char>| #[trigger] occurs_among(list@, t) <==> occurs_among(before, t) || t
            == added by {
            if occurs_among(list@, t) {
                let i = choose|i: int| 0 <= i < list@.len() && (#[trigger] list@[i])@ == t;
                if i < at {
                    assert(before[i]@ == t);
                } else if i > at {
                    assert(before[i - 1]@ == t);
                }
            }
            if occurs_among(before, t) {
                let i = choose|i: int| 0 <= i < before.len() && (#[trigger] before[i])@ == t;
                if i < at {
                    assert(list@[i]@ == t);
                } else {
                    assert(list@[i + 1]@ == t);
                }
            }
            if t == added {
                assert(list@[at as int]@ == t);
            }
        }
    }
}

/// The texts of a list in order, each of them once.
pub fn sorted_texts(list: &Vec<String>) -> (r: Vec<String>)
    ensures
        ascending(r@),
        forall|t: Seq<char>| #[trigger] occurs_among(r@, t) <==> occurs_among(list@, t),
{
    let mut r: Vec<String> = Vec::new();
    let mut i: usize = 0;
    while i < list.len()
        invariant
            i <= list@.len(),
            ascending(r@),
            forall|t: Seq<char>| #[trigger] occurs_among(r@, t) <==> occurs_among(list@.take(i as int), t),
        decreases list@.len() - i,
    {
        let ghost prefix = list@.take(i as int);
        let ghost next = list@.take(i as int + 1);
        let ghost before = r@;
        insert_sorted(&mut r, list[i].clone());
        proof {
            assert forall|t: Seq<char>| #[trigger] occurs_among(r@, t) <==> occurs_among(next, t) by {
                assert(occurs_among(before, t) <==> occurs_among(prefix, t));
                if occurs_among(prefix, t) {
                    let k = choose|k: int| 0 <= k < prefix.len() && (#[trigger] prefix[k])@ == t;
                    assert(next[k]@ == t);
                }
                if occurs_among(next, t) {
                    let k = choose|k: int| 0 <= k < next.len() && (#[trigger] next[k])@ == t;
                    if k < i {
                        assert(prefix[k]@ == t);
                    }
                }
                assert(next[i as int] == list@[i as int]);
            }
        }
        i = i + 1;
    }
    proof {
        assert(list@.take(list@.len() as int) =~= list@);
    }
    r
}

} // verus!

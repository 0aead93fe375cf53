//! Stable descending order.
use vstd::prelude::*;

verus! {

/// Whether one place of a list comes before another in descending order: by a larger key, and
/// by its place among equal keys.
pub open spec fn precedes(keys: Seq<i128>, a: int, b: int) -> bool {
    keys[a] > keys[b] || (keys[a] == keys[b] && a < b)
}

/// Whether a list of places holds each place once.
pub open spec fn rearranges(n: nat, places: Seq<int>) -> bool {
    &&& places.len() == n
    &&& forall|i: int| 0 <= i < places.len() ==> 0 <= #[trigger] places[i] < n
    &&& places.no_duplicates()
}

/// Whether a list of places goes through a list of keys in descending order.
pub open spec fn descends(keys: Seq<i128>, places: Seq<int>) -> bool {
    &&& rearranges(keys.len(), places)
    &&& forall|i: int, j: int| 0 <= i < j < places.len() ==> precedes(keys, #[trigger] places[i], #[trigger] places[j])
}

/// The places of a list of keys in descending order.
pub open spec fn descending(keys: Seq<i128>) -> Seq<int> {
    choose|places: Seq<int>| descends(keys, places)
}

/// The items at some places of a list.
pub open spec fn picked<A>(items: Seq<A>, places: Seq<int>) -> Seq<A> {
    Seq::new(places.len(), |i: int| items[places[i]])
}

/// A list that holds each place once holds every place.
pub proof fn lemma_every_place_occurs(n: nat, places: Seq<int>, k: int)
    requires
        rearranges(n, places),
        0 <= k < n,
    ensures
        places.contains(k),
{
    let all = Set::new(|i: int| 0 <= i < n);
    vstd::set_lib::lemma_int_range(0, n as int);
    assert(all =~= vstd::set_lib::set_int_range(0, n as int));
    places.unique_seq_to_set();
    assert(places.to_set().subset_of(all));
    vstd::set_lib::lemma_subset_equality(places.to_set(), all);
    assert(places.to_set().contains(k));
}

/// There is one descending order: two lists of places that descend are the same.
pub proof fn law_one_descending_order(keys: Seq<i128>, a: Seq<int>, b: Seq<int>)
    requires
        descends(keys, a),
        descends(keys, b),
    ensures
        a == b,
{
    lemma_same_up_to(keys, a, b, keys.len() as int);
    assert(a =~= b) by {
        assert(a.take(keys.len() as int) =~= a);
        assert(b.take(keys.len() as int) =~= b);
    }
}

proof fn lemma_same_up_to(keys: Seq<i128>, a: Seq<int>, b: Seq<int>, n: int)
    requires
        descends(keys, a),
        descends(keys, b),
        0 <= n <= keys.len(),
    ensures
        a.take(n) == b.take(n),
    decreases n,
{
    if n > 0 {
        let m = n - 1;
        lemma_same_up_to(keys, a, b, m);
        assert forall|i: int| 0 <= i < m implies a[i] == b[i] by {
            assert(a.take(m)[i] == b.take(m)[i]);
        }
        let x = a[m];
        let y = b[m];
        if x != y {
            lemma_every_place_occurs(keys.len(), b, x);
            lemma_every_place_occurs(keys.len(), a, y);
            let i = choose|i: int| 0 <= i < b.len() && b[i] == x;
            let j = choose|j: int| 0 <= j < a.len() && a[j] == y;
            assert(i > m) by {
                if i < m {
                    assert(a[i] == b[i] && a[i] == a[m]);
                }
            }
            assert(j > m) by {
                if j < m {
                    assert(a[j] == b[j] && b[j] == b[m]);
                }
            }
            assert(precedes(keys, b[m], b[i]));
            assert(precedes(keys, a[m], a[j]));
            assert(false);
        }
        assert(a.take(n) =~= a.take(m).push(x));
        assert(b.take(n) =~= b.take(m).push(y));
    }
}

/// A descending order exists.
pub proof fn law_descending_order_exists(keys: Seq<i128>)
    ensures
        descends(keys, descending(keys)),
{
    let places = lemma_some_order(keys, keys.len() as int);
    assert(descends(keys, places));
}

proof fn lemma_some_order(keys: Seq<i128>, n: int) -> (places: Seq<int>)
    requires
        0 <= n <= keys.len(),
    ensures
        rearranges(n as nat, places),
        sorted_so_far(keys, places),
    decreases n,
{
    if n == 0 {
        Seq::empty()
    } else {
        let before = lemma_some_order(keys, n - 1);
        let at = lemma_slot(keys, before, before.len() as int, n - 1);
        lemma_inserted(keys, before, at, n - 1, true);
        before.insert(at, n - 1)
    }
}

proof fn lemma_slot(keys: Seq<i128>, before: Seq<int>, top: int, i: int) -> (at: int)
    requires
        0 <= top <= before.len(),
        forall|k: int| top <= k < before.len() ==> keys[#[trigger] before[k]] < keys[i],
    ensures
        0 <= at <= before.len(),
        forall|k: int| at <= k < before.len() ==> keys[#[trigger] before[k]] < keys[i],
        at > 0 ==> keys[before[at - 1]] >= keys[i],
    decreases top,
{
    if top > 0 && keys[before[top - 1]] < keys[i] {
        lemma_slot(keys, before, top - 1, i)
    } else {
        top
    }
}

/// A key that has no number is never compared as larger or smaller.
pub open spec fn key_below(a: Option<i128>, b: Option<i128>) -> bool {
    a is Some && b is Some && a->Some_0 < b->Some_0
}

/// Whether each key has a number.
pub open spec fn all_known(keys: Seq<Option<i128>>) -> bool {
    forall|i: int| 0 <= i < keys.len() ==> (#[trigger] keys[i]) is Some
}

/// The numbers of some keys.
pub open spec fn known(keys: Seq<Option<i128>>) -> Seq<i128> {
    Seq::new(keys.len(), |i: int| keys[i]->Some_0)
}

/// Places as integers.
pub open spec fn as_places(places: Seq<usize>) -> Seq<int> {
    Seq::new(places.len(), |i: int| places[i] as int)
}

/// The places of a list of keys, by insertion from the front: in descending order where each
/// key has a number, and each place once in any case.
pub(crate) fn order_descending(keys: &Vec<Option<i128>>) -> (r: Vec<usize>)
    ensures
        rearranges(keys@.len(), as_places(r@)),
        all_known(keys@) ==> as_places(r@) == descending(known(keys@)),
{
    let mut r: Vec<usize> = Vec::new();
    let mut i: usize = 0;
    while i < keys.len()
        invariant
            i <= keys@.len(),
            rearranges(i as nat, as_places(r@)),
            all_known(keys@) ==> sorted_so_far(known(keys@), as_places(r@)),
        decreases keys.len() - i,
    {
        let ghost before = as_places(r@);
        let mut at: usize = r.len();
        while at > 0 && is_key_below(&keys[r[at - 1]], &keys[i])
            invariant
                i < keys@.len(),
                at <= r@.len(),
                before == as_places(r@),
                rearranges(i as nat, before),
                forall|k: int| 0 <= k < r@.len() ==> #[trigger] r@[k] == before[k] && r@[k] < keys@.len(),
                all_known(keys@) ==> forall|k: int|
                    at <= k < before.len() ==> known(keys@)[#[trigger] before[k]] < known(keys@)[i as int],
            decreases at,
        {
            assert(before[at - 1] < i);
            at = at - 1;
        }
        assert(at > 0 ==> before[at - 1] < i);
        r.insert(at, i);
        proof {
            lemma_inserted(known(keys@), before, at as int, i as int, all_known(keys@));
            assert(as_places(r@) =~= before.insert(at as int, i as int));
        }
        i = i + 1;
    }
    proof {
        if all_known(keys@) {
            let ks = known(keys@);
            assert(descends(ks, as_places(r@)));
            law_one_descending_order(ks, as_places(r@), descending(ks));
        }
    }
    r
}

fn is_key_below(a: &Option<i128>, b: &Option<i128>) -> (r: bool)
    ensures
        r == key_below(*a, *b),
{
    match (a, b) {
        (Some(x), Some(y)) => *x < *y,
        _ => false,
    }
}

spec fn sorted_so_far(keys: Seq<i128>, places: Seq<int>) -> bool {
    forall|i: int, j: int| 0 <= i < j < places.len() ==> precedes(keys, #[trigger] places[i], #[trigger] places[j])
}

proof fn lemma_inserted(keys: Seq<i128>, before: Seq<int>, at: int, i: int, sorted: bool)
    requires
        0 <= i < keys.len(),
        rearranges(i as nat, before),
        0 <= at <= before.len(),
        sorted ==> sorted_so_far(keys, before),
        sorted ==> forall|k: int| at <= k < before.len() ==> keys[#[trigger] before[k]] < keys[i],
        sorted && at > 0 ==> keys[before[at - 1]] >= keys[i],
    ensures
        rearranges((i + 1) as nat, before.insert(at, i)),
        sorted ==> sorted_so_far(keys, before.insert(at, i)),
{
    let after = before.insert(at, i);
    assert forall|a: int| 0 <= a < after.len() implies #[trigger] after[a] == (if a < at {
        before[a]
    } else if a == at {
        i
    } else {
        before[a - 1]
    }) by {}
    assert forall|a: int, b: int| 0 <= a < after.len() && 0 <= b < after.len() && a != b implies after[a] != after[b] by {
        let a2 = if a > at { a - 1 } else { a };
        let b2 = if b > at { b - 1 } else { b };
        if a != at && b != at {
            assert(before[a2] != before[b2]);
        } else if a == at {
            assert(before[b2] < i);
        } else {
            assert(before[a2] < i);
        }
    }
    if sorted {
        assert forall|a: int, b: int| 0 <= a < b < after.len() implies precedes(keys, #[trigger] after[a], #[trigger] after[b]) by {
            let a2 = if a > at { a - 1 } else { a };
            let b2 = if b > at { b - 1 } else { b };
            if a != at && b != at {
                assert(precedes(keys, before[a2], before[b2]));
            } else if b == at {
                assert(before[a] < i);
                if a < at - 1 {
                    assert(precedes(keys, before[a], before[at - 1]));
                }
            } else {
                assert(keys[before[b2]] < keys[i]);
            }
        }
    }
}

} // verus!

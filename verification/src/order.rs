//! Sorting by text keys.

use crate::text::{precedes, text_before, text_eq, texts};
use vstd::prelude::*;
use vstd::string::*;

verus! {

pub(crate) proof fn lemma_precedes_irreflexive(a: Seq<char>)
    ensures
        !precedes(a, a),
    decreases a.len(),
{
    if a.len() > 0 {
        lemma_precedes_irreflexive(a.skip(1));
    }
}

proof fn lemma_precedes_transitive(a: Seq<char>, b: Seq<char>, c: Seq<char>)
    requires
        precedes(a, b),
        precedes(b, c),
    ensures
        precedes(a, c),
    decreases a.len(),
{
    if a.len() > 0 && a[0] == b[0] && b[0] == c[0] {
        lemma_precedes_transitive(a.skip(1), b.skip(1), c.skip(1));
    }
}

proof fn lemma_precedes_total(a: Seq<char>, b: Seq<char>)
    ensures
        precedes(a, b) || precedes(b, a) || a == b,
    decreases a.len(),
{
    if a.len() == 0 || b.len() == 0 {
        if a.len() == b.len() {
            assert(a =~= b);
        }
    } else if a[0] == b[0] {
        lemma_precedes_total(a.skip(1), b.skip(1));
        if a.skip(1) == b.skip(1) {
            assert(a =~= seq![a[0]] + a.skip(1));
            assert(b =~= seq![b[0]] + b.skip(1));
        }
    }
}

/// `order` with the position `at` put behind those whose keys do not come after its key.
pub open spec fn placed(order: Seq<int>, keys: Seq<Seq<char>>, at: int) -> Seq<int>
    decreases order.len(),
{
    if order.len() == 0 || !precedes(keys[at], keys[order.last()]) {
        order.push(at)
    } else {
        placed(order.drop_last(), keys, at).push(order.last())
    }
}

/// The positions of the first `n` keys in the order of the keys; of equal keys the one that came
/// first stays first.
pub open spec fn stable_order(keys: Seq<Seq<char>>, n: int) -> Seq<int>
    decreases n,
{
    if n <= 0 {
        Seq::empty()
    } else {
        placed(stable_order(keys, n - 1), keys, n - 1)
    }
}

/// Whether keys stand in order at these positions, and equal keys in the order of their positions.
pub open spec fn in_order(order: Seq<int>, keys: Seq<Seq<char>>) -> bool {
    forall|i: int, j: int|
        0 <= i < j < order.len() ==> precedes(keys[order[i]], keys[order[j]]) || (keys[order[i]]
            == keys[order[j]] && order[i] < order[j])
}

/// Whether `order` holds every position below `n` once.
pub open spec fn is_permutation(order: Seq<int>, n: int) -> bool {
    &&& order.len() == n
    &&& forall|i: int| 0 <= i < n ==> 0 <= #[trigger] order[i] < n
    &&& forall|at: int| 0 <= at < n ==> #[trigger] order.contains(at)
    &&& forall|i: int, j: int| 0 <= i < j < n ==> order[i] != order[j]
}

proof fn lemma_placed(order: Seq<int>, keys: Seq<Seq<char>>, at: int)
    requires
        in_order(order, keys),
        forall|i: int| 0 <= i < order.len() ==> #[trigger] order[i] < at,
    ensures
        in_order(placed(order, keys, at), keys),
        placed(order, keys, at).len() == order.len() + 1,
        forall|x: int| #[trigger]
            placed(order, keys, at).contains(x) <==> x == at || order.contains(x),
        order.no_duplicates() ==> placed(order, keys, at).no_duplicates(),
    decreases order.len(),
{
    let result = placed(order, keys, at);
    if order.len() == 0 || !precedes(keys[at], keys[order.last()]) {
        assert forall|i: int, j: int| 0 <= i < j < result.len() implies precedes(
            keys[result[i]],
            keys[result[j]],
        ) || (keys[result[i]] == keys[result[j]] && result[i] < result[j]) by {
            if j == order.len() {
                let last = order.last();
                lemma_precedes_total(keys[at], keys[last]);
                if i < order.len() - 1 {
                    assert(precedes(keys[order[i]], keys[last]) || keys[order[i]] == keys[last]);
                    if precedes(keys[order[i]], keys[last]) && precedes(keys[last], keys[at]) {
                        lemma_precedes_transitive(keys[order[i]], keys[last], keys[at]);
                    }
                }
                assert(order[i] < at);
            }
        }
        assert forall|x: int| #[trigger] result.contains(x) <==> x == at || order.contains(x) by {
            if order.contains(x) {
                let i = choose|i: int| 0 <= i < order.len() && order[i] == x;
                assert(result[i] == x);
            }
            assert(result[order.len() as int] == at);
        }
        if order.no_duplicates() {
            assert forall|i: int, j: int| 0 <= i < result.len() && 0 <= j < result.len() && i
                != j implies result[i] != result[j] by {
                if i < order.len() {
                    assert(order[i] < at);
                }
                if j < order.len() {
                    assert(order[j] < at);
                }
            }
        }
    } else {
        let short = order.drop_last();
        let last = order.last();
        lemma_placed(short, keys, at);
        let inner = placed(short, keys, at);
        assert forall|i: int, j: int| 0 <= i < j < result.len() implies precedes(
            keys[result[i]],
            keys[result[j]],
        ) || (keys[result[i]] == keys[result[j]] && result[i] < result[j]) by {
            if j == inner.len() {
                assert(inner.contains(inner[i]));
                if inner[i] != at {
                    let k = choose|k: int| 0 <= k < short.len() && short[k] == inner[i];
                    assert(order[k] == inner[i]);
                }
            }
        }
        assert forall|x: int| #[trigger] result.contains(x) <==> x == at || order.contains(x) by {
            if result.contains(x) {
                let i = choose|i: int| 0 <= i < result.len() && result[i] == x;
                if i < inner.len() {
                    assert(inner.contains(x));
                    if x != at {
                        let k = choose|k: int| 0 <= k < short.len() && short[k] == x;
                        assert(order[k] == x);
                    }
                } else {
                    assert(order[order.len() - 1] == x);
                }
            }
            if x == at || order.contains(x) {
                if order.contains(x) {
                    let k = choose|k: int| 0 <= k < order.len() && order[k] == x;
                    if k < short.len() {
                        assert(short[k] == x);
                    }
                }
                if x == at || short.contains(x) {
                    assert(inner.contains(x));
                    let i = choose|i: int| 0 <= i < inner.len() && inner[i] == x;
                    assert(result[i] == x);
                } else {
                    assert(result[inner.len() as int] == x);
                }
            }
        }
        if order.no_duplicates() {
            assert(short.no_duplicates());
            assert(!short.contains(last));
            assert(last < at);
            assert(!inner.contains(last));
            assert forall|i: int, j: int| 0 <= i < result.len() && 0 <= j < result.len() && i
                != j implies result[i] != result[j] by {
                if i < inner.len() {
                    assert(inner.contains(inner[i]));
                }
                if j < inner.len() {
                    assert(inner.contains(inner[j]));
                }
            }
        }
    }
}

proof fn lemma_stable_order(keys: Seq<Seq<char>>, n: int)
    requires
        0 <= n <= keys.len(),
    ensures
        in_order(stable_order(keys, n), keys),
        stable_order(keys, n).len() == n,
        stable_order(keys, n).no_duplicates(),
        forall|x: int| #[trigger] stable_order(keys, n).contains(x) <==> 0 <= x < n,
    decreases n,
{
    if n > 0 {
        lemma_stable_order(keys, n - 1);
        let order = stable_order(keys, n - 1);
        assert forall|i: int| 0 <= i < order.len() implies #[trigger] order[i] < n - 1 by {
            assert(order.contains(order[i]));
        }
        lemma_placed(order, keys, n - 1);
    }
}

/// Sorting moves keys into their order and neither loses nor repeats one; equal keys keep the order
/// in which they came.
pub proof fn law_sorting(keys: Seq<Seq<char>>)
    ensures
        in_order(stable_order(keys, keys.len() as int), keys),
        is_permutation(stable_order(keys, keys.len() as int), keys.len() as int),
{
    let n = keys.len() as int;
    let order = stable_order(keys, n);
    lemma_stable_order(keys, n);
    assert forall|i: int| 0 <= i < n implies 0 <= #[trigger] order[i] < n by {
        assert(order.contains(order[i]));
    }
}

/// Positions as numbers.
pub open spec fn positions(list: Seq<usize>) -> Seq<int> {
    list.map_values(|at: usize| at as int)
}

/// The positions of keys in the order of the keys; of equal keys the one that came first stays
/// first.
pub fn sorted_positions(keys: &Vec<String>) -> (order: Vec<usize>)
    ensures
        positions(order@) == stable_order(texts(keys@), keys@.len() as int),
        order@.len() == keys@.len(),
        forall|i: int| 0 <= i < order@.len() ==> #[trigger] order@[i] < keys@.len(),
{
    let ghost all = texts(keys@);
    let mut order: Vec<usize> = Vec::new();
    let mut n: usize = 0;
    assert(positions(order@) =~= Seq::<int>::empty());
    while n < keys.len()
        invariant
            n <= keys@.len(),
            all == texts(keys@),
            positions(order@) == stable_order(all, n as int),
            order@.len() == n,
            forall|i: int| 0 <= i < order@.len() ==> #[trigger] order@[i] < keys@.len(),
        decreases keys@.len() - n,
    {
        let ghost before = order@;
        let mut p: usize = order.len();
        let ghost mut tail: Seq<int> = Seq::empty();
        proof {
            assert(before.take(p as int) =~= before);
            assert(placed(positions(before), all, n as int) + tail =~= placed(
                positions(before),
                all,
                n as int,
            ));
        }
        while p > 0 && text_before(keys[n].as_str(), keys[order[p - 1]].as_str())
            invariant
                n < keys@.len(),
                all == texts(keys@),
                p <= order@.len(),
                order@ == before,
                forall|i: int| 0 <= i < order@.len() ==> #[trigger] order@[i] < keys@.len(),
                tail == positions(before.skip(p as int)),
                placed(positions(before), all, n as int) == placed(
                    positions(before.take(p as int)),
                    all,
                    n as int,
                ) + tail,
            decreases p,
        {
            proof {
                let here = positions(before.take(p as int));
                assert(here.drop_last() =~= positions(before.take(p - 1)));
                assert(here.last() == before[p - 1] as int);
                let longer = positions(before.skip(p - 1));
                assert(placed(here.drop_last(), all, n as int).push(here.last()) + tail =~= placed(
                    here.drop_last(),
                    all,
                    n as int,
                ) + longer);
                tail = longer;
            }
            p = p - 1;
        }
        order.insert(p, n);
        proof {
            let here = positions(before.take(p as int));
            if p > 0 {
                assert(here.last() == before[p - 1] as int);
            }
            assert(placed(here, all, n as int) == here.push(n as int));
            assert(positions(order@) =~= here.push(n as int) + tail);
            assert forall|i: int| 0 <= i < order@.len() implies #[trigger] order@[i]
                < keys@.len() by {
                if i < p {
                    assert(order@[i] == before[i]);
                } else if i > p {
                    assert(order@[i] == before[i - 1]);
                }
            }
        }
        n = n + 1;
    }
    order
}

/// Texts in their order.
pub open spec fn sorted_texts(list: Seq<Seq<char>>) -> Seq<Seq<char>> {
    stable_order(list, list.len() as int).map_values(|at: int| list[at])
}

/// `list` without the texts that are equal to the one before them.
pub open spec fn deduplicated(list: Seq<Seq<char>>) -> Seq<Seq<char>>
    decreases list.len(),
{
    if list.len() == 0 {
        Seq::empty()
    } else {
        let before = deduplicated(list.drop_last());
        if before.len() > 0 && before.last() == list.last() {
            before
        } else {
            before.push(list.last())
        }
    }
}

/// The different texts of a list, in their order.
pub fn sort_and_dedup(list: &Vec<String>) -> (result: Vec<String>)
    ensures
        texts(result@) == deduplicated(sorted_texts(texts(list@))),
{
    let order = sorted_positions(list);
    let ghost sorted = sorted_texts(texts(list@));
    let mut result: Vec<String> = Vec::new();
    let mut i: usize = 0;
    proof {
        assert(sorted.take(0) =~= Seq::<Seq<char>>::empty());
        assert(texts(result@) =~= Seq::<Seq<char>>::empty());
    }
    while i < order.len()
        invariant
            i <= order@.len(),
            order@.len() == list@.len(),
            positions(order@) == stable_order(texts(list@), list@.len() as int),
            forall|i: int| 0 <= i < order@.len() ==> #[trigger] order@[i] < list@.len(),
            sorted == sorted_texts(texts(list@)),
            texts(result@) == deduplicated(sorted.take(i as int)),
        decreases order@.len() - i,
    {
        let text = &list[order[i]];
        proof {
            assert(positions(order@)[i as int] == order@[i as int] as int);
            assert(sorted[i as int] == text@);
            assert(sorted.take(i + 1).drop_last() =~= sorted.take(i as int));
            assert(sorted.take(i + 1).last() == text@);
        }
        let n = result.len();
        let repeated = n > 0 && text_eq(result[n - 1].as_str(), text.as_str());
        proof {
            if n > 0 {
                assert(texts(result@).last() == result@[n - 1]@);
            }
        }
        if !repeated {
            let ghost before = result@;
            result.push(text.clone());
            assert(texts(result@) =~= texts(before).push(text@));
        }
        i = i + 1;
    }
    assert(sorted.take(order@.len() as int) =~= sorted);
    result
}

proof fn lemma_deduplicated(list: Seq<Seq<char>>)
    requires
        forall|i: int, j: int|
            0 <= i < j < list.len() ==> precedes(list[i], list[j]) || list[i] == list[j],
    ensures
        forall|i: int, j: int|
            0 <= i < j < deduplicated(list).len() ==> precedes(
                #[trigger] deduplicated(list)[i],
                #[trigger] deduplicated(list)[j],
            ),
        list.len() > 0 ==> deduplicated(list).len() > 0 && deduplicated(list).last() == list.last(),
        forall|text: Seq<char>| #[trigger] deduplicated(list).contains(text) <==> list.contains(text),
    decreases list.len(),
{
    if list.len() > 0 {
        let short = list.drop_last();
        lemma_deduplicated(short);
        let before = deduplicated(short);
        let result = deduplicated(list);
        assert forall|text: Seq<char>| #[trigger] result.contains(text) <==> list.contains(text) by {
            if list.contains(text) {
                let k = choose|k: int| 0 <= k < list.len() && list[k] == text;
                if k < short.len() {
                    assert(short[k] == text);
                    assert(before.contains(text));
                    let m = choose|m: int| 0 <= m < before.len() && before[m] == text;
                    assert(result[m] == text);
                } else {
                    assert(result[result.len() - 1] == text);
                }
            }
            if result.contains(text) {
                let m = choose|m: int| 0 <= m < result.len() && result[m] == text;
                if m < before.len() {
                    assert(before.contains(text));
                    let k = choose|k: int| 0 <= k < short.len() && short[k] == text;
                    assert(list[k] == text);
                } else {
                    assert(list[list.len() - 1] == text);
                }
            }
        }
        assert forall|i: int, j: int| 0 <= i < j < result.len() implies precedes(
            #[trigger] result[i],
            #[trigger] result[j],
        ) by {
            if j == before.len() {
                assert(before.last() == short.last());
                let last = list.last();
                assert(list[short.len() - 1] == short.last());
                assert(precedes(short.last(), last));
                if i < before.len() - 1 {
                    assert(precedes(before[i], before[before.len() - 1]));
                    lemma_precedes_transitive(before[i], before.last(), last);
                }
            }
        }
    }
}

/// Sorting without repetition gives every text of a list once, in order.
pub proof fn law_sorted_without_repetition(list: Seq<Seq<char>>)
    ensures
        forall|i: int, j: int|
            0 <= i < j < deduplicated(sorted_texts(list)).len() ==> precedes(
                #[trigger] deduplicated(sorted_texts(list))[i],
                #[trigger] deduplicated(sorted_texts(list))[j],
            ),
        forall|text: Seq<char>| #[trigger]
            deduplicated(sorted_texts(list)).contains(text) <==> list.contains(text),
{
    law_sorting(list);
    let order = stable_order(list, list.len() as int);
    let sorted = sorted_texts(list);
    assert forall|i: int, j: int| 0 <= i < j < sorted.len() implies precedes(sorted[i], sorted[j])
        || sorted[i] == sorted[j] by {
        assert(sorted[i] == list[order[i]]);
        assert(sorted[j] == list[order[j]]);
    }
    lemma_deduplicated(sorted);
    assert forall|text: Seq<char>| #[trigger] deduplicated(sorted).contains(text) <==> list.contains(
        text,
    ) by {
        if list.contains(text) {
            let k = choose|k: int| 0 <= k < list.len() && list[k] == text;
            assert(order.contains(k));
            let i = choose|i: int| 0 <= i < order.len() && order[i] == k;
            assert(sorted[i] == text);
        }
        if sorted.contains(text) {
            let i = choose|i: int| 0 <= i < sorted.len() && sorted[i] == text;
            assert(list[order[i]] == text);
        }
    }
}

/// The order of texts is strict and total: no text comes before itself, of two different texts one
/// comes before the other and not the other way round, and what comes before a text comes before all
/// behind it.
pub proof fn law_texts_are_ordered(a: Seq<char>, b: Seq<char>, c: Seq<char>)
    ensures
        !precedes(a, a),
        a != b ==> precedes(a, b) != precedes(b, a),
        precedes(a, b) && precedes(b, c) ==> precedes(a, c),
{
    lemma_precedes_irreflexive(a);
    lemma_precedes_total(a, b);
    if precedes(a, b) && precedes(b, a) {
        lemma_precedes_transitive(a, b, a);
    }
    if precedes(a, b) && precedes(b, c) {
        lemma_precedes_transitive(a, b, c);
    }
}

}

//! Sorting by keys. A key is a row of numbers, compared one by one.

use vstd::prelude::*;

verus! {

/// Whether one key stands before another, from index `i` on.
pub open spec fn less_from(a: Seq<u32>, b: Seq<u32>, i: int) -> bool
    decreases a.len() - i,
{
    if i < 0 || i >= b.len() {
        false
    } else if i >= a.len() {
        true
    } else if a[i] != b[i] {
        a[i] < b[i]
    } else {
        less_from(a, b, i + 1)
    }
}

/// Whether one key stands before another.
pub open spec fn is_less(a: Seq<u32>, b: Seq<u32>) -> bool {
    less_from(a, b, 0)
}

/// Whether the item at `x` comes before the item at `y`: by its key, and where
/// the keys are the same by where it stands.
pub open spec fn comes_before(keys: Seq<Seq<u32>>, x: int, y: int) -> bool {
    is_less(keys[x], keys[y]) || (keys[x] == keys[y] && x < y)
}

/// Whether `order` holds the index of every item once, in the order of the
/// keys. Items with the same key keep their order.
pub open spec fn is_order(keys: Seq<Seq<u32>>, order: Seq<usize>) -> bool {
    &&& order.len() == keys.len()
    &&& forall|i: int| 0 <= i < order.len() ==> (#[trigger] order[i]) < keys.len()
    &&& forall|x: usize| x < keys.len() ==> #[trigger] order.contains(x)
    &&& forall|i: int, j: int|
        0 <= i < j < order.len() ==> comes_before(
            keys,
            (#[trigger] order[i]) as int,
            (#[trigger] order[j]) as int,
        )
}

proof fn lemma_less_irreflexive(a: Seq<u32>, i: int)
    ensures
        !less_from(a, a, i),
    decreases a.len() - i,
{
    if 0 <= i < a.len() {
        lemma_less_irreflexive(a, i + 1);
    }
}

proof fn lemma_less_transitive(a: Seq<u32>, b: Seq<u32>, c: Seq<u32>, i: int)
    requires
        0 <= i,
        less_from(a, b, i),
        less_from(b, c, i),
    ensures
        less_from(a, c, i),
    decreases a.len() - i,
{
    if i < a.len() && i < b.len() && i < c.len() && a[i] == b[i] && b[i] == c[i] {
        lemma_less_transitive(a, b, c, i + 1);
    }
}

proof fn lemma_less_total(a: Seq<u32>, b: Seq<u32>, i: int)
    requires
        0 <= i <= a.len(),
        i <= b.len(),
        forall|k: int| 0 <= k < i ==> a[k] == b[k],
        !less_from(a, b, i),
    ensures
        a == b || less_from(b, a, i),
    decreases a.len() - i,
{
    if i < a.len() && i < b.len() && a[i] == b[i] {
        lemma_less_total(a, b, i + 1);
    } else if i == a.len() && i == b.len() {
        assert(a =~= b);
    }
}

/// An order comes before itself nowhere.
pub proof fn lemma_before_irreflexive(keys: Seq<Seq<u32>>, x: int)
    ensures
        !comes_before(keys, x, x),
{
    lemma_less_irreflexive(keys[x], 0);
}

pub proof fn lemma_before_transitive(keys: Seq<Seq<u32>>, x: int, y: int, z: int)
    requires
        comes_before(keys, x, y),
        comes_before(keys, y, z),
    ensures
        comes_before(keys, x, z),
{
    if is_less(keys[x], keys[y]) && is_less(keys[y], keys[z]) {
        lemma_less_transitive(keys[x], keys[y], keys[z], 0);
    }
}

proof fn lemma_same_start(keys: Seq<Seq<u32>>, a: Seq<usize>, b: Seq<usize>, n: int)
    requires
        is_order(keys, a),
        is_order(keys, b),
        0 <= n <= keys.len(),
    ensures
        a.take(n) == b.take(n),
    decreases n,
{
    if n > 0 {
        lemma_same_start(keys, a, b, n - 1);
        let x = a[n - 1];
        let y = b[n - 1];
        if x != y {
            assert(b.contains(x) && a.contains(y));
            let i = choose|i: int| 0 <= i < b.len() && b[i] == x;
            let j = choose|j: int| 0 <= j < a.len() && a[j] == y;
            assert(i >= n) by {
                if i < n - 1 {
                    assert(a.take(n - 1)[i] == b.take(n - 1)[i]);
                    assert(a[i] == x);
                    assert(comes_before(keys, a[i] as int, a[n - 1] as int));
                    lemma_before_irreflexive(keys, x as int);
                }
            }
            assert(j >= n) by {
                if j < n - 1 {
                    assert(a.take(n - 1)[j] == b.take(n - 1)[j]);
                    assert(b[j] == y);
                    assert(comes_before(keys, b[j] as int, b[n - 1] as int));
                    lemma_before_irreflexive(keys, y as int);
                }
            }
            assert(comes_before(keys, b[n - 1] as int, b[i] as int));
            assert(comes_before(keys, a[n - 1] as int, a[j] as int));
            lemma_before_transitive(keys, x as int, y as int, x as int);
            lemma_before_irreflexive(keys, x as int);
        }
        assert(a.take(n) =~= a.take(n - 1).push(x));
        assert(b.take(n) =~= b.take(n - 1).push(y));
    }
}

/// There is one order only.
pub proof fn law_order_is_unique(keys: Seq<Seq<u32>>, a: Seq<usize>, b: Seq<usize>)
    requires
        is_order(keys, a),
        is_order(keys, b),
    ensures
        a == b,
{
    let n = keys.len() as int;
    lemma_same_start(keys, a, b, n);
    assert(a.take(n) =~= a);
    assert(b.take(n) =~= b);
}

/// Where an item goes among the first `n` of an order: behind the last one that
/// it does not stand before.
spec fn place_of(keys: Seq<Seq<u32>>, order: Seq<usize>, next: int, n: int) -> int
    decreases n,
{
    if n > 0 && is_less(keys[next], keys[order[n - 1] as int]) {
        place_of(keys, order, next, n - 1)
    } else {
        n
    }
}

proof fn lemma_place(keys: Seq<Seq<u32>>, order: Seq<usize>, next: int, n: int)
    requires
        0 <= next < keys.len(),
        is_order(keys.take(next), order),
        0 <= n <= order.len(),
        forall|i: int|
            n <= i < order.len() ==> is_less(keys[next], keys[(#[trigger] order[i]) as int]),
    ensures
        0 <= place_of(keys, order, next, n) <= n,
        forall|i: int|
            place_of(keys, order, next, n) <= i < order.len() ==> is_less(
                keys[next],
                keys[(#[trigger] order[i]) as int],
            ),
        forall|i: int|
            0 <= i < place_of(keys, order, next, n) ==> comes_before(
                keys,
                (#[trigger] order[i]) as int,
                next,
            ),
    decreases n,
{
    if n > 0 && is_less(keys[next], keys[order[n - 1] as int]) {
        lemma_place(keys, order, next, n - 1);
    } else if n > 0 {
        let last = order[n - 1] as int;
        lemma_less_total(keys[next], keys[last], 0);
        assert(comes_before(keys, last, next));
        assert forall|i: int| 0 <= i < n implies comes_before(
            keys,
            (#[trigger] order[i]) as int,
            next,
        ) by {
            if i < n - 1 {
                assert(comes_before(keys.take(next), order[i] as int, order[n - 1] as int));
                lemma_before_transitive(keys, order[i] as int, last, next);
            }
        }
    }
}

/// There is an order of the first `n` items.
proof fn lemma_order_of_first(keys: Seq<Seq<u32>>, n: int) -> (order: Seq<usize>)
    requires
        0 <= n <= keys.len() <= usize::MAX,
    ensures
        is_order(keys.take(n), order),
    decreases n,
{
    if n == 0 {
        seq![]
    } else {
        let next = n - 1;
        let before = lemma_order_of_first(keys, next);
        lemma_place(keys, before, next, next);
        let at = place_of(keys, before, next, next);
        let after = before.insert(at, next as usize);
        assert forall|x: usize| x < keys.take(n).len() implies #[trigger] after.contains(x) by {
            if x == next {
                assert(after[at] == x);
            } else {
                assert(before.contains(x));
                let k = choose|k: int| 0 <= k < before.len() && before[k] == x;
                if k < at {
                    assert(after[k] == x);
                } else {
                    assert(after[k + 1] == x);
                }
            }
        }
        assert forall|i: int, j: int| 0 <= i < j < after.len() implies comes_before(
            keys.take(n),
            (#[trigger] after[i]) as int,
            (#[trigger] after[j]) as int,
        ) by {
            let i0 = if i < at { i } else { i - 1 };
            let j0 = if j < at { j } else { j - 1 };
            if i == at {
                assert(after[j] == before[j0]);
            } else if j == at {
                assert(after[i] == before[i0]);
            } else {
                assert(after[i] == before[i0] && after[j] == before[j0]);
                assert(comes_before(keys.take(next), before[i0] as int, before[j0] as int));
            }
        }
        after
    }
}

/// There is an order of any items.
pub proof fn law_order_exists(keys: Seq<Seq<u32>>)
    requires
        keys.len() <= usize::MAX,
    ensures
        is_order(keys, order_of(keys)),
{
    let order = lemma_order_of_first(keys, keys.len() as int);
    assert(keys.take(keys.len() as int) =~= keys);
    assert(is_order(keys, order));
}

/// The order of items with the given keys.
pub open spec fn order_of(keys: Seq<Seq<u32>>) -> Seq<usize> {
    choose|order: Seq<usize>| is_order(keys, order)
}

fn key_less(a: &Vec<u32>, b: &Vec<u32>) -> (less: bool)
    ensures
        less == is_less(a@, b@),
{
    let mut i: usize = 0;
    while i < a.len() && i < b.len() && a[i] == b[i]
        invariant
            i <= a@.len(),
            i <= b@.len(),
            less_from(a@, b@, 0) == less_from(a@, b@, i as int),
        decreases a@.len() - i,
    {
        i += 1;
    }
    if i >= b.len() {
        false
    } else if i >= a.len() {
        true
    } else {
        a[i] < b[i]
    }
}

pub open spec fn key_views(keys: Seq<Vec<u32>>) -> Seq<Seq<u32>> {
    Seq::new(keys.len(), |i: int| keys[i]@)
}

/// The order of items with the given keys.
pub fn sorted_by_keys(keys: &Vec<Vec<u32>>) -> (order: Vec<usize>)
    ensures
        is_order(key_views(keys@), order@),
        order@ == order_of(key_views(keys@)),
{
    let ghost views = key_views(keys@);
    let mut order: Vec<usize> = Vec::new();
    let mut next: usize = 0;
    while next < keys.len()
        invariant
            next <= keys@.len(),
            views == key_views(keys@),
            order@.len() == next,
            forall|i: int| 0 <= i < order@.len() ==> (#[trigger] order@[i]) < next,
            forall|x: usize| x < next ==> #[trigger] order@.contains(x),
            forall|i: int, j: int|
                0 <= i < j < order@.len() ==> comes_before(
                    views,
                    (#[trigger] order@[i]) as int,
                    (#[trigger] order@[j]) as int,
                ),
        decreases keys@.len() - next,
    {
        let ghost before = order@;
        let mut at: usize = order.len();
        while at > 0 && key_less(&keys[next], &keys[order[at - 1]])
            invariant
                at <= order@.len(),
                order@ == before,
                order@.len() == next,
                next < keys@.len(),
                views == key_views(keys@),
                forall|i: int| 0 <= i < order@.len() ==> (#[trigger] order@[i]) < next,
                forall|i: int|
                    at <= i < order@.len() ==> is_less(
                        views[next as int],
                        views[(#[trigger] order@[i]) as int],
                    ),
            decreases at,
        {
            assert(views[next as int] == keys@[next as int]@);
            assert(views[order@[at - 1] as int] == keys@[order@[at - 1] as int]@);
            at -= 1;
        }
        proof {
            if at > 0 {
                let last = before[at - 1] as int;
                assert(views[next as int] == keys@[next as int]@);
                assert(views[last] == keys@[last]@);
                lemma_less_total(views[next as int], views[last], 0);
                assert(comes_before(views, last, next as int));
                assert forall|i: int| 0 <= i < at implies comes_before(
                    views,
                    (#[trigger] before[i]) as int,
                    next as int,
                ) by {
                    if i < at - 1 {
                        assert(comes_before(views, before[i] as int, before[at - 1] as int));
                        lemma_before_transitive(views, before[i] as int, last, next as int);
                    }
                }
            }
        }
        order.insert(at, next);
        proof {
            let after = order@;
            assert forall|x: usize| x < next + 1 implies #[trigger] after.contains(x) by {
                if x == next {
                    assert(after[at as int] == x);
                } else {
                    assert(before.contains(x));
                    let k = choose|k: int| 0 <= k < before.len() && before[k] == x;
                    if k < at {
                        assert(after[k] == x);
                    } else {
                        assert(after[k + 1] == x);
                    }
                }
            }
            assert forall|i: int, j: int| 0 <= i < j < after.len() implies comes_before(
                views,
                (#[trigger] after[i]) as int,
                (#[trigger] after[j]) as int,
            ) by {
                let i0 = if i < at { i } else { i - 1 };
                let j0 = if j < at { j } else { j - 1 };
                if i == at {
                    assert(after[j] == before[j0]);
                } else if j == at {
                    assert(after[i] == before[i0]);
                } else {
                    assert(after[i] == before[i0] && after[j] == before[j0]);
                }
            }
        }
        next += 1;
    }
    proof {
        law_order_is_unique(views, order@, order_of(views));
    }
    order
}

/// The numbers of the characters of a text.
pub open spec fn code_points(text: Seq<char>) -> Seq<u32> {
    Seq::new(text.len(), |i: int| text[i] as u32)
}

/// Puts a text behind a key. Texts are compared by the numbers of their
/// characters.
pub fn extend_key(key: &mut Vec<u32>, text: &[char])
    ensures
        final(key)@ == old(key)@ + code_points(text@),
{
    let mut i: usize = 0;
    while i < text.len()
        invariant
            i <= text@.len(),
            key@ =~= old(key)@ + code_points(text@).take(i as int),
        decreases text@.len() - i,
    {
        let ghost before = key@;
        let c: char = text[i];
        key.push(c as u32);
        assert(key@ =~= before.push(code_points(text@)[i as int]));
        i += 1;
    }
    assert(code_points(text@).take(text@.len() as int) =~= code_points(text@));
}

} // verus!

//! Fixed-size combinations of a list, in lexicographic order of positions.
use vstd::prelude::*;

verus! {

/// The increasing position sequences of length `k` drawn from `start..n`,
/// in lexicographic order: first those that begin with `start`, then those
/// that begin later.
pub open spec fn index_combinations(n: int, start: int, k: nat) -> Seq<Seq<int>>
    decreases n - start,
{
    if k == 0 {
        seq![Seq::<int>::empty()]
    } else if start >= n {
        Seq::<Seq<int>>::empty()
    } else {
        index_combinations(n, start + 1, (k - 1) as nat).map_values(
            |c: Seq<int>| seq![start] + c,
        ) + index_combinations(n, start + 1, k)
    }
}

/// `b` was obtained from `a` by cloning it, and cloning the clone.
pub open spec fn clone_of_clone<T: Clone>(a: T, b: T) -> bool {
    exists|m: T| cloned(a, m) && cloned(m, b)
}

/// `r` is `current` (cloned element by element) followed by clones of clones of
/// the items at the positions `idx`.
pub open spec fn extends_with<T: Clone>(
    items: Seq<T>,
    current: Seq<T>,
    idx: Seq<int>,
    r: Seq<T>,
) -> bool {
    &&& r.len() == current.len() + idx.len()
    &&& forall|j: int| 0 <= j < current.len() ==> cloned(#[trigger] current[j], r[j])
    &&& forall|j: int|
        0 <= j < idx.len() ==> clone_of_clone(items[#[trigger] idx[j]], r[current.len() + j])
}

/// `result` lists, one for one and in order, the combinations of `items` at the
/// position sequences `combos`.
pub open spec fn combinations_of<T: Clone>(
    items: Seq<T>,
    combos: Seq<Seq<int>>,
    result: Seq<Vec<T>>,
) -> bool {
    &&& result.len() == combos.len()
    &&& forall|i: int|
        0 <= i < combos.len() ==> extends_with(
            items,
            Seq::<T>::empty(),
            #[trigger] combos[i],
            result[i]@,
        )
}

/// Returns every combination of `size` items of `items`, each keeping the
/// items' order, in lexicographic order of positions. A `size` of zero gives
/// no combination at all.
pub fn combine<T: Clone>(items: &[T], size: usize) -> (result: Vec<Vec<T>>)
    ensures
        size == 0 ==> result@.len() == 0,
        size > 0 ==> combinations_of(
            items@,
            index_combinations(items@.len() as int, 0, size as nat),
            result@,
        ),
{
    if size == 0 {
        return Vec::new();
    }
    let mut result = Vec::new();
    let mut current = Vec::with_capacity(size);

    generate_combinations(items, size, 0, &mut current, &mut result);

    proof {
        let combos = index_combinations(items@.len() as int, 0, size as nat);
        assert forall|i: int| 0 <= i < combos.len() implies extends_with(
            items@,
            Seq::<T>::empty(),
            #[trigger] combos[i],
            result@[i]@,
        ) by {
            assert(extends_with(items@, current@, combos[i], result@[0 + i]@));
        }
    }
    result
}

/// Appends to `result` every extension of `current` by `size - current.len()`
/// items taken, in order, at positions from `start` on; appends nothing where
/// `current` is already longer than `size`.
fn generate_combinations<T: Clone>(
    items: &[T],
    size: usize,
    start: usize,
    current: &mut Vec<T>,
    result: &mut Vec<Vec<T>>,
)
    ensures
        old(current)@.len() > size ==> final(result)@ == old(result)@,
        old(current)@.len() <= size ==> ({
            let combos = index_combinations(
                items@.len() as int,
                start as int,
                (size - old(current)@.len()) as nat,
            );
            &&& final(result)@.len() == old(result)@.len() + combos.len()
            &&& forall|i: int|
                0 <= i < old(result)@.len() ==> #[trigger] final(result)@[i] == old(result)@[i]
            &&& forall|i: int|
                0 <= i < combos.len() ==> extends_with(
                    items@,
                    old(current)@,
                    #[trigger] combos[i],
                    final(result)@[old(result)@.len() + i]@,
                )
        }),
        final(current)@ == old(current)@,
    decreases items@.len() - start,
{
    if current.len() == size {
        result.push(current.clone());
        return;
    }
    let ghost n = items@.len() as int;
    let ghost long = current@.len() > size;
    let ghost k = (size - current@.len()) as nat;
    let ghost cur = current@;
    let ghost old_result = result@;
    let ghost all = index_combinations(n, start as int, k);
    let ghost old_len = old_result.len() as int;

    let mut index = start;
    while index < items.len()
        invariant
            start <= index,
            index <= items@.len() || index == start,
            n == items@.len(),
            cur == old(current)@,
            cur.len() != size,
            long == (cur.len() > size),
            current@ == cur,
            old_len == old_result.len(),
            long ==> result@ == old_result,
            !long ==> {
                &&& k == size - cur.len()
                &&& k >= 1
                &&& all == index_combinations(n, start as int, k)
                &&& result@.len() >= old_len
                &&& all.len() == (result@.len() - old_len) + index_combinations(
                    n,
                    index as int,
                    k,
                ).len()
                &&& all.skip(result@.len() - old_len) == index_combinations(n, index as int, k)
                &&& forall|i: int| 0 <= i < old_len ==> #[trigger] result@[i] == old_result[i]
                &&& forall|i: int|
                    0 <= i < result@.len() - old_len ==> extends_with(
                        items@,
                        cur,
                        #[trigger] all[i],
                        result@[old_len + i]@,
                    )
            },
        decreases items@.len() - index,
    {
        let ghost before = result@;
        let ghost done = before.len() - old_len;
        let ghost rest = index_combinations(n, index as int, k);
        let ghost firsts = index_combinations(n, index + 1, (k - 1) as nat);
        let ghost prefixed = firsts.map_values(|c: Seq<int>| seq![index as int] + c);
        proof {
            if !long {
                assert(rest == prefixed + index_combinations(n, index + 1, k));
            }
        }

        let item = items[index].clone();
        current.push(item);

        // Only consider later items, preventing reordered duplicates.
        generate_combinations(items, size, index + 1, current, result);

        // Undo the choice before trying the next item.
        current.pop();

        proof {
            assert(current@ =~= cur);
            if !long {
                let ext = cur.push(item);
                assert forall|i: int| 0 <= i < result@.len() - old_len implies extends_with(
                    items@,
                    cur,
                    #[trigger] all[i],
                    result@[old_len + i]@,
                ) by {
                    if i >= done {
                        let m = i - done;
                        assert(all[i] == all.skip(done)[m]);
                        assert(all[i] == prefixed[m]);
                        assert(extends_with(items@, ext, firsts[m], result@[before.len() + m]@));
                        let r = result@[old_len + i]@;
                        assert(r == result@[before.len() + m]@);
                        assert(cloned(ext[cur.len() as int], r[cur.len() as int]));
                        assert(cloned(items@[index as int], item));
                        assert forall|j: int| 0 <= j < all[i].len() implies clone_of_clone(
                            items@[#[trigger] all[i][j]],
                            r[cur.len() + j],
                        ) by {
                            if j == 0 {
                                assert(all[i][j] == index);
                                assert(cloned(item, r[cur.len() as int]));
                            } else {
                                assert(all[i][j] == firsts[m][j - 1]);
                                assert(ext.len() + (j - 1) == cur.len() + j);
                            }
                        }
                        assert forall|j: int| 0 <= j < cur.len() implies cloned(
                            #[trigger] cur[j],
                            r[j],
                        ) by {
                            assert(cur[j] == ext[j]);
                        }
                    } else {
                        assert(result@[old_len + i] == before[old_len + i]);
                    }
                }
                let next = index_combinations(n, index + 1, k);
                assert(result@.len() - old_len == done + prefixed.len());
                assert(all.skip(done) == rest);
                assert forall|m: int| 0 <= m < next.len() implies #[trigger] all.skip(
                    done + prefixed.len(),
                )[m] == next[m] by {
                    assert(all.skip(done + prefixed.len())[m] == all[done + prefixed.len() + m]);
                    assert(all[done + prefixed.len() + m] == all.skip(done)[prefixed.len() + m]);
                    assert(rest[prefixed.len() + m] == next[m]);
                }
                assert(all.skip(done + prefixed.len()) =~= next);
            }
        }
        index = index + 1;
    }
    proof {
        if !long {
            assert(index_combinations(n, index as int, k).len() == 0);
        }
    }
}


/// The number of ways to choose `k` things out of `n`.
pub open spec fn binomial(n: nat, k: nat) -> nat
    decreases n,
{
    if k == 0 {
        1
    } else if n == 0 {
        0
    } else {
        binomial((n - 1) as nat, (k - 1) as nat) + binomial((n - 1) as nat, k)
    }
}

/// `c` is strictly increasing and all its entries lie in `lo..hi`.
pub open spec fn increasing_within(c: Seq<int>, lo: int, hi: int) -> bool {
    &&& forall|j: int| 0 <= j < c.len() ==> lo <= #[trigger] c[j] < hi
    &&& forall|a: int, b: int| 0 <= a < b < c.len() ==> #[trigger] c[a] < #[trigger] c[b]
}

/// Every position sequence that `index_combinations` lists has length `k`,
/// is strictly increasing and stays within `start..n`.
pub proof fn lemma_combinations_shape(n: int, start: int, k: nat)
    ensures
        forall|i: int|
            0 <= i < index_combinations(n, start, k).len() ==> {
                &&& (#[trigger] index_combinations(n, start, k)[i]).len() == k
                &&& increasing_within(index_combinations(n, start, k)[i], start, n)
            },
    decreases n - start,
{
    if k != 0 && start < n {
        let firsts = index_combinations(n, start + 1, (k - 1) as nat);
        let prefixed = firsts.map_values(|c: Seq<int>| seq![start] + c);
        let rest = index_combinations(n, start + 1, k);
        lemma_combinations_shape(n, start + 1, (k - 1) as nat);
        lemma_combinations_shape(n, start + 1, k);
        let all = index_combinations(n, start, k);
        assert(all == prefixed + rest);
        assert forall|i: int| 0 <= i < all.len() implies {
            &&& (#[trigger] all[i]).len() == k
            &&& increasing_within(all[i], start, n)
        } by {
            if i < prefixed.len() {
                let c = firsts[i];
                assert(all[i] == seq![start] + c);
                assert(increasing_within(c, start + 1, n));
                assert forall|a: int, b: int| 0 <= a < b < all[i].len() implies #[trigger] all[i][a]
                    < #[trigger] all[i][b] by {
                    if a > 0 {
                        assert(all[i][a] == c[a - 1]);
                    }
                    assert(all[i][b] == c[b - 1]);
                }
            } else {
                assert(all[i] == rest[i - prefixed.len()]);
            }
        }
    }
}

/// `index_combinations` lists no position sequence twice.
pub proof fn lemma_combinations_distinct(n: int, start: int, k: nat)
    ensures
        forall|i: int, j: int|
            0 <= i < j < index_combinations(n, start, k).len() ==> #[trigger] index_combinations(
                n,
                start,
                k,
            )[i] != #[trigger] index_combinations(n, start, k)[j],
    decreases n - start,
{
    if k != 0 && start < n {
        let firsts = index_combinations(n, start + 1, (k - 1) as nat);
        let prefixed = firsts.map_values(|c: Seq<int>| seq![start] + c);
        let rest = index_combinations(n, start + 1, k);
        lemma_combinations_distinct(n, start + 1, (k - 1) as nat);
        lemma_combinations_distinct(n, start + 1, k);
        lemma_combinations_shape(n, start + 1, k);
        let all = index_combinations(n, start, k);
        assert(all == prefixed + rest);
        assert forall|i: int, j: int| 0 <= i < j < all.len() implies #[trigger] all[i]
            != #[trigger] all[j] by {
            if j < prefixed.len() {
                assert(all[i] == seq![start] + firsts[i]);
                assert(all[j] == seq![start] + firsts[j]);
                if all[i] == all[j] {
                    assert(firsts[i] =~= all[i].drop_first());
                    assert(firsts[j] =~= all[j].drop_first());
                }
            } else if i < prefixed.len() {
                assert(all[i] == seq![start] + firsts[i]);
                let r = rest[j - prefixed.len()];
                assert(all[j] == r);
                assert(r.len() == k);
                assert(increasing_within(r, start + 1, n));
                assert(r[0] != start);
                assert(all[i][0] == start);
            } else {
                assert(all[i] == rest[i - prefixed.len()]);
                assert(all[j] == rest[j - prefixed.len()]);
            }
        }
    }
}

/// Every strictly increasing position sequence of length `k` within
/// `start..n` is one that `index_combinations` lists.
pub proof fn lemma_combinations_complete(n: int, start: int, k: nat, c: Seq<int>)
    requires
        c.len() == k,
        increasing_within(c, start, n),
    ensures
        index_combinations(n, start, k).contains(c),
    decreases n - start,
{
    let all = index_combinations(n, start, k);
    if k == 0 {
        assert(c =~= Seq::<int>::empty());
        assert(all[0] == c);
    } else {
        assert(start <= c[0] < n);
        let firsts = index_combinations(n, start + 1, (k - 1) as nat);
        let prefixed = firsts.map_values(|d: Seq<int>| seq![start] + d);
        let rest = index_combinations(n, start + 1, k);
        assert(all == prefixed + rest);
        if c[0] == start {
            let tail = c.drop_first();
            assert forall|a: int, b: int| 0 <= a < b < tail.len() implies #[trigger] tail[a]
                < #[trigger] tail[b] by {
                assert(c[a + 1] < c[b + 1]);
            }
            assert forall|j: int| 0 <= j < tail.len() implies start + 1 <= #[trigger] tail[j] < n by {
                assert(c[0] < c[j + 1]);
            }
            lemma_combinations_complete(n, start + 1, (k - 1) as nat, tail);
            let m = choose|m: int| 0 <= m < firsts.len() && firsts[m] == tail;
            assert(prefixed[m] =~= c);
            assert(all[m] == c);
        } else {
            assert forall|j: int| 0 <= j < c.len() implies start + 1 <= #[trigger] c[j] < n by {
                if j > 0 {
                    assert(c[0] < c[j]);
                }
            }
            lemma_combinations_complete(n, start + 1, k, c);
            let m = choose|m: int| 0 <= m < rest.len() && rest[m] == c;
            assert(all[prefixed.len() + m] == c);
        }
    }
}

/// `index_combinations` lists as many position sequences as there are ways
/// to choose `k` of the `n - start` positions.
pub proof fn lemma_combinations_count(n: int, start: int, k: nat)
    requires
        start <= n,
    ensures
        index_combinations(n, start, k).len() == binomial((n - start) as nat, k),
    decreases n - start,
{
    if k != 0 && start < n {
        lemma_combinations_count(n, start + 1, (k - 1) as nat);
        lemma_combinations_count(n, start + 1, k);
    }
}

/// There are no position sequences of length `k` within `start..n` when `k`
/// exceeds the number of positions.
pub proof fn lemma_combinations_need_room(n: int, start: int, k: nat)
    requires
        index_combinations(n, start, k).len() > 0,
    ensures
        k == 0 || k <= n - start,
    decreases n - start,
{
    if k != 0 && start < n {
        let firsts = index_combinations(n, start + 1, (k - 1) as nat);
        if firsts.len() > 0 {
            lemma_combinations_need_room(n, start + 1, (k - 1) as nat);
        } else {
            lemma_combinations_need_room(n, start + 1, k);
        }
    }
}

/// `a` comes strictly before `b` in lexicographic order, at a position both
/// reach.
pub open spec fn lex_less(a: Seq<int>, b: Seq<int>) -> bool {
    exists|t: int|
        #![trigger a[t], b[t]]
        0 <= t < a.len() && t < b.len() && a.subrange(0, t) == b.subrange(0, t) && a[t] < b[t]
}

/// `index_combinations` lists its position sequences in strictly increasing
/// lexicographic order.
pub proof fn lemma_combinations_sorted(n: int, start: int, k: nat)
    ensures
        forall|i: int, j: int|
            0 <= i < j < index_combinations(n, start, k).len() ==> lex_less(
                #[trigger] index_combinations(n, start, k)[i],
                #[trigger] index_combinations(n, start, k)[j],
            ),
    decreases n - start,
{
    if k != 0 && start < n {
        let firsts = index_combinations(n, start + 1, (k - 1) as nat);
        let prefixed = firsts.map_values(|c: Seq<int>| seq![start] + c);
        let rest = index_combinations(n, start + 1, k);
        lemma_combinations_sorted(n, start + 1, (k - 1) as nat);
        lemma_combinations_sorted(n, start + 1, k);
        lemma_combinations_shape(n, start + 1, k);
        let all = index_combinations(n, start, k);
        assert(all == prefixed + rest);
        assert forall|i: int, j: int| 0 <= i < j < all.len() implies lex_less(
            #[trigger] all[i],
            #[trigger] all[j],
        ) by {
            if j < prefixed.len() {
                let a = firsts[i];
                let b = firsts[j];
                assert(lex_less(a, b));
                let t = choose|t: int|
                    #![trigger a[t], b[t]]
                    0 <= t < a.len() && t < b.len() && a.subrange(0, t) == b.subrange(0, t) && a[t]
                        < b[t];
                assert(all[i] == seq![start] + a);
                assert(all[j] == seq![start] + b);
                assert(all[i].subrange(0, t + 1) =~= seq![start] + a.subrange(0, t));
                assert(all[j].subrange(0, t + 1) =~= seq![start] + b.subrange(0, t));
                assert(all[i][t + 1] == a[t] && all[j][t + 1] == b[t]);
            } else if i < prefixed.len() {
                let r = rest[j - prefixed.len()];
                assert(all[j] == r);
                assert(all[i] == seq![start] + firsts[i]);
                assert(r.len() == k);
                assert(increasing_within(r, start + 1, n));
                assert(all[i].subrange(0, 0) =~= all[j].subrange(0, 0));
                assert(all[i][0] < all[j][0]);
            } else {
                assert(all[i] == rest[i - prefixed.len()]);
                assert(all[j] == rest[j - prefixed.len()]);
            }
        }
    }
}

/// `combine` depends on positions only: where cloning keeps values,
/// combining the images of the items under `f` gives the images under `f` of
/// the combinations of the items.
pub proof fn law_combine_maps<T: Clone, U: Clone>(
    items: Seq<T>,
    f: spec_fn(T) -> U,
    size: nat,
    r1: Seq<Vec<T>>,
    r2: Seq<Vec<U>>,
)
    requires
        forall|a: T, b: T| #[trigger] cloned(a, b) ==> a == b,
        forall|a: U, b: U| #[trigger] cloned(a, b) ==> a == b,
        size == 0 ==> r1.len() == 0 && r2.len() == 0,
        size > 0 ==> combinations_of(items, index_combinations(items.len() as int, 0, size), r1),
        size > 0 ==> combinations_of(
            items.map_values(f),
            index_combinations(items.len() as int, 0, size),
            r2,
        ),
    ensures
        r2.len() == r1.len(),
        forall|i: int| 0 <= i < r1.len() ==> #[trigger] r2[i]@ == r1[i]@.map_values(f),
{
    if size > 0 {
        let idx = index_combinations(items.len() as int, 0, size);
        let ys = items.map_values(f);
        lemma_combinations_shape(items.len() as int, 0, size);
        assert forall|i: int| 0 <= i < r1.len() implies #[trigger] r2[i]@ == r1[i]@.map_values(
            f,
        ) by {
            assert(extends_with(items, Seq::<T>::empty(), idx[i], r1[i]@));
            assert(extends_with(ys, Seq::<U>::empty(), idx[i], r2[i]@));
            assert forall|j: int| 0 <= j < r1[i]@.len() implies r2[i]@[j] == f(r1[i]@[j]) by {
                let p = idx[i][j];
                assert(clone_of_clone(items[p], r1[i]@[0 + j]));
                assert(clone_of_clone(ys[p], r2[i]@[0 + j]));
                let m1 = choose|m: T| cloned(items[p], m) && cloned(m, r1[i]@[j]);
                let m2 = choose|m: U| cloned(ys[p], m) && cloned(m, r2[i]@[j]);
                assert(0 <= p < items.len());
            }
            assert(r2[i]@ =~= r1[i]@.map_values(f));
        }
    }
}

} // verus!

//! Ordering of per-atom arrays by an integer key, by counting.

use vstd::prelude::*;

verus! {

/// How many of the first `n` keys are below `v`.
pub open spec fn spec_count_below(keys: Seq<usize>, v: int, n: int) -> int
    decreases n,
{
    if n <= 0 {
        0
    } else {
        spec_count_below(keys, v, n - 1) + if keys[n - 1] < v {
            1int
        } else {
            0int
        }
    }
}

/// The place of key `i` in the sorted order: after every smaller key, and
/// after the equal keys that come before it.
pub open spec fn spec_rank(keys: Seq<usize>, i: int) -> int {
    spec_count_below(keys, keys[i] as int, keys.len() as int) + spec_count_below(
        keys,
        keys[i] + 1,
        i,
    ) - spec_count_below(keys, keys[i] as int, i)
}

/// Whether `order` lists the positions of `keys` sorted by key, positions
/// with equal keys in the order in which they stand: every entry is a position, none
/// occurs twice, keys do not decrease along `order`, and among equal keys the
/// positions increase.
pub open spec fn spec_is_stable_order(keys: Seq<usize>, order: Seq<usize>) -> bool {
    &&& order.len() == keys.len()
    &&& forall|a: int| 0 <= a < order.len() ==> #[trigger] order[a] < keys.len()
    &&& forall|a: int, b: int|
        0 <= a < b < order.len() ==> #[trigger] order[a] != #[trigger] order[b]
    &&& forall|a: int, b: int|
        0 <= a < b < order.len() ==> keys[#[trigger] order[a] as int] <= keys[#[trigger] order[b] as int]
    &&& forall|a: int, b: int|
        0 <= a < b < order.len() && keys[#[trigger] order[a] as int] == keys[#[trigger] order[b] as int]
            ==> order[a] < order[b]
}

proof fn lemma_count_bounds(keys: Seq<usize>, v: int, n: int)
    requires
        0 <= n,
    ensures
        0 <= spec_count_below(keys, v, n) <= n,
    decreases n,
{
    if n > 0 {
        lemma_count_bounds(keys, v, n - 1);
    }
}

/// Raising the bound or lengthening the prefix never lowers a count, and the
/// keys equal to `v` in a prefix are among those in a longer one.
proof fn lemma_count_monotone(keys: Seq<usize>, v: int, w: int, n: int, m: int)
    requires
        v <= w,
        0 <= n <= m,
    ensures
        spec_count_below(keys, v, n) <= spec_count_below(keys, w, n),
        spec_count_below(keys, v, n) <= spec_count_below(keys, v, m),
        spec_count_below(keys, w, n) - spec_count_below(keys, v, n) <= spec_count_below(
            keys,
            w,
            m,
        ) - spec_count_below(keys, v, m),
    decreases m,
{
    if m > 0 {
        if n < m {
            lemma_count_monotone(keys, v, w, n, m - 1);
        } else {
            lemma_count_monotone(keys, v, w, n - 1, m - 1);
        }
    }
}

/// With every key below `v`, all of them are counted; with `v` zero, none.
proof fn lemma_count_extremes(keys: Seq<usize>, v: int, n: int)
    requires
        0 <= n <= keys.len(),
    ensures
        (forall|k: int| 0 <= k < n ==> keys[k] < v) ==> spec_count_below(keys, v, n) == n,
        v <= 0 ==> spec_count_below(keys, v, n) == 0,
    decreases n,
{
    if n > 0 {
        lemma_count_extremes(keys, v, n - 1);
    }
}

/// The rank of a position is a place of the order, inside the block of its
/// key.
proof fn lemma_rank_block(keys: Seq<usize>, i: int)
    requires
        0 <= i < keys.len(),
    ensures
        spec_count_below(keys, keys[i] as int, keys.len() as int) <= spec_rank(keys, i),
        spec_rank(keys, i) < spec_count_below(keys, keys[i] + 1, keys.len() as int),
        spec_count_below(keys, keys[i] + 1, keys.len() as int) <= keys.len(),
{
    let v = keys[i] as int;
    let len = keys.len() as int;
    lemma_count_monotone(keys, v, v + 1, i, i + 1);
    lemma_count_monotone(keys, v, v + 1, i + 1, len);
    lemma_count_bounds(keys, v + 1, len);
    assert(spec_count_below(keys, v + 1, i + 1) == spec_count_below(keys, v + 1, i) + 1);
    assert(spec_count_below(keys, v, i + 1) == spec_count_below(keys, v, i));
}

/// A lower rank means a smaller key, or an equal key at an earlier position.
proof fn lemma_rank_order(keys: Seq<usize>, i: int, k: int)
    requires
        0 <= i < keys.len(),
        0 <= k < keys.len(),
        spec_rank(keys, i) <= spec_rank(keys, k),
    ensures
        keys[i] <= keys[k],
        keys[i] == keys[k] ==> i <= k,
        spec_rank(keys, i) == spec_rank(keys, k) ==> i == k,
{
    let len = keys.len() as int;
    let v = keys[i] as int;
    let w = keys[k] as int;
    lemma_rank_block(keys, i);
    lemma_rank_block(keys, k);
    if w < v {
        lemma_count_monotone(keys, w + 1, v, len, len);
    } else if v == w {
        if k < i {
            lemma_count_monotone(keys, v, v + 1, k + 1, i);
            assert(spec_count_below(keys, v + 1, k + 1) == spec_count_below(keys, v + 1, k) + 1);
            assert(spec_count_below(keys, v, k + 1) == spec_count_below(keys, v, k));
        } else if i < k {
            lemma_count_monotone(keys, v, v + 1, i + 1, k);
            assert(spec_count_below(keys, v + 1, i + 1) == spec_count_below(keys, v + 1, i) + 1);
            assert(spec_count_below(keys, v, i + 1) == spec_count_below(keys, v, i));
        }
    } else {
        lemma_count_monotone(keys, v + 1, w, len, len);
    }
}

/// An order that puts every position at its rank is the stable order.
proof fn lemma_ranked_is_stable(keys: Seq<usize>, order: Seq<usize>)
    requires
        order.len() == keys.len(),
        forall|q: int|
            0 <= q < order.len() ==> #[trigger] order[q] < keys.len() && spec_rank(
                keys,
                order[q] as int,
            ) == q,
    ensures
        spec_is_stable_order(keys, order),
{
    assert forall|a: int, b: int| 0 <= a < b < order.len() implies #[trigger] order[a]
        != #[trigger] order[b] && keys[order[a] as int] <= keys[order[b] as int] && (keys[order[a] as int]
        == keys[order[b] as int] ==> order[a] < order[b]) by {
        lemma_rank_order(keys, order[a] as int, order[b] as int);
    }
}

/// Every place of the order lies in the block of some key value below
/// `limit`, provided all keys are below `limit`.
proof fn lemma_block_cover(keys: Seq<usize>, q: int, limit: int) -> (v: int)
    requires
        0 <= q < spec_count_below(keys, limit, keys.len() as int),
        0 <= limit,
    ensures
        0 <= v < limit,
        spec_count_below(keys, v, keys.len() as int) <= q < spec_count_below(
            keys,
            v + 1,
            keys.len() as int,
        ),
    decreases limit,
{
    let len = keys.len() as int;
    lemma_count_extremes(keys, 0, len);
    if limit == 0 {
        0
    } else if spec_count_below(keys, limit - 1, len) <= q {
        limit - 1
    } else {
        lemma_block_cover(keys, q, limit - 1)
    }
}

/// The positions of `input_vec` in the order that sorts it: the result lists
/// every position once, keys ascending, equal keys in the order in which they stand.
///
/// The keys have to stay below `usize::MAX`, since one counter is kept for
/// every value up to the largest key.
pub fn get_sort_indices(input_vec: &Vec<usize>) -> (output: Vec<usize>)
    requires
        forall|i: int| 0 <= i < input_vec@.len() ==> input_vec@[i] < usize::MAX,
    ensures
        spec_is_stable_order(input_vec@, output@),
{
    let len: usize = input_vec.len();
    let ghost keys = input_vec@;
    if len == 0 {
        return Vec::new();
    }
    let mut max_value: usize = input_vec[0];
    let mut i: usize = 1;
    while i < len
        invariant
            1 <= i <= len,
            len == keys.len(),
            keys == input_vec@,
            max_value < usize::MAX,
            forall|k: int| 0 <= k < len ==> keys[k] < usize::MAX,
            forall|k: int| 0 <= k < i ==> keys[k] <= max_value,
        decreases len - i,
    {
        if input_vec[i] > max_value {
            max_value = input_vec[i];
        }
        i += 1;
    }
    let new_len: usize = max_value + 1;
    let mut counts: Vec<usize> = Vec::new();
    counts.resize(new_len, 0);

    let mut i: usize = 0;
    while i < len
        invariant
            i <= len,
            len == keys.len(),
            keys == input_vec@,
            counts@.len() == new_len,
            forall|k: int| 0 <= k < len ==> keys[k] < new_len,
            forall|v: int|
                0 <= v < new_len ==> #[trigger] counts@[v] == spec_count_below(keys, v + 1, i as int)
                    - spec_count_below(keys, v, i as int),
        decreases len - i,
    {
        let b: usize = input_vec[i];
        proof {
            lemma_count_bounds(keys, b + 1, i as int);
            lemma_count_bounds(keys, b as int, i as int);
        }
        counts.set(b, counts[b] + 1);
        i += 1;
    }

    proof {
        lemma_count_extremes(keys, 0, len as int);
    }
    let mut i: usize = 1;
    while i < new_len
        invariant
            1 <= i <= new_len,
            len == keys.len(),
            counts@.len() == new_len,
            forall|v: int|
                0 <= v < i ==> #[trigger] counts@[v] == spec_count_below(keys, v + 1, len as int),
            forall|v: int|
                i <= v < new_len ==> #[trigger] counts@[v] == spec_count_below(
                    keys,
                    v + 1,
                    len as int,
                ) - spec_count_below(keys, v, len as int),
        decreases new_len - i,
    {
        proof {
            lemma_count_bounds(keys, i + 1, len as int);
        }
        counts.set(i, counts[i] + counts[i - 1]);
        i += 1;
    }
    let mut output: Vec<usize> = Vec::new();
    output.resize(len, 0);
    let mut t: usize = len;
    while t > 0
        invariant
            t <= len,
            len == keys.len(),
            keys == input_vec@,
            new_len == max_value + 1,
            counts@.len() == new_len,
            output@.len() == len,
            forall|k: int| 0 <= k < len ==> keys[k] < new_len,
            forall|v: int|
                0 <= v < new_len ==> #[trigger] counts@[v] == spec_count_below(keys, v, len as int)
                    + spec_count_below(keys, v + 1, t as int) - spec_count_below(keys, v, t as int),
            forall|v: int, q: int|
                #![trigger counts@[v], output@[q]]
                0 <= v < new_len && 0 <= q < len && counts@[v] <= q < spec_count_below(
                    keys,
                    v + 1,
                    len as int,
                ) ==> output@[q] < len && keys[output@[q] as int] == v && spec_rank(
                    keys,
                    output@[q] as int,
                ) == q,
        decreases t,
    {
        let i: usize = t - 1;
        let j: usize = input_vec[i];
        proof {
            lemma_rank_block(keys, i as int);
            lemma_count_bounds(keys, j as int, len as int);
            assert(spec_count_below(keys, j + 1, t as int) == spec_count_below(keys, j + 1, i as int) + 1);
            assert(spec_count_below(keys, j as int, t as int) == spec_count_below(
                keys,
                j as int,
                i as int,
            ));
        }
        let ghost before = counts@;
        let ghost filled = output@;
        let place: usize = counts[j] - 1;
        counts.set(j, place);
        output.set(place, i);
        proof {
            assert(place == spec_rank(keys, i as int));
            assert forall|v: int| 0 <= v < new_len implies #[trigger] counts@[v]
                == spec_count_below(keys, v, len as int) + spec_count_below(keys, v + 1, i as int)
                - spec_count_below(keys, v, i as int) by {
                if v != j {
                    assert(counts@[v] == before[v]);
                    assert(spec_count_below(keys, v + 1, t as int) == spec_count_below(
                        keys,
                        v + 1,
                        i as int,
                    ) + if keys[i as int] < v + 1 {
                        1int
                    } else {
                        0int
                    });
                    assert(spec_count_below(keys, v, t as int) == spec_count_below(
                        keys,
                        v,
                        i as int,
                    ) + if keys[i as int] < v {
                        1int
                    } else {
                        0int
                    });
                }
            }
            assert forall|v: int, q: int|
                #![trigger counts@[v], output@[q]]
                0 <= v < new_len && 0 <= q < len && counts@[v] <= q < spec_count_below(
                    keys,
                    v + 1,
                    len as int,
                ) implies output@[q] < len && keys[output@[q] as int] == v && spec_rank(
                keys,
                output@[q] as int,
            ) == q by {
                if q != place {
                    assert(output@[q] == filled[q]);
                    if v == j {
                        assert(before[v] <= q);
                    } else {
                        assert(before[v] == counts@[v]);
                    }
                } else {
                    if v < j {
                        lemma_count_monotone(keys, v + 1, j as int, len as int, len as int);
                    } else if v > j {
                        lemma_count_monotone(keys, j + 1, v, len as int, len as int);
                        lemma_count_monotone(keys, v, v + 1, t as int, len as int);
                        lemma_count_monotone(keys, v, v + 1, 0, t as int);
                    }
                }
            }
        }
        t = i;
    }
    proof {
        lemma_count_extremes(keys, new_len as int, len as int);
        assert forall|q: int| 0 <= q < output@.len() implies #[trigger] output@[q] < keys.len()
            && spec_rank(keys, output@[q] as int) == q by {
            let v = lemma_block_cover(keys, q, new_len as int);
            assert(counts@[v] == spec_count_below(keys, v, len as int));
        }
        lemma_ranked_is_stable(keys, output@);
    }
    output
}

/// Rearranges `unsorted_vec` by `sort_indices`: afterwards place `k` holds
/// what place `sort_indices[k]` held before.
pub fn sort_atoms<T: Copy>(sort_indices: &Vec<usize>, unsorted_vec: &mut Vec<T>)
    requires
        sort_indices@.len() == old(unsorted_vec)@.len(),
        forall|k: int| 0 <= k < sort_indices@.len() ==> sort_indices@[k] < old(unsorted_vec)@.len(),
    ensures
        final(unsorted_vec)@.len() == old(unsorted_vec)@.len(),
        forall|k: int|
            0 <= k < sort_indices@.len() ==> #[trigger] final(unsorted_vec)@[k] == old(
                unsorted_vec,
            )@[sort_indices@[k] as int],
{
    let len: usize = sort_indices.len();
    let mut output: Vec<T> = Vec::with_capacity(len);
    let mut k: usize = 0;
    while k < len
        invariant
            k <= len,
            len == sort_indices@.len(),
            len == unsorted_vec@.len(),
            *unsorted_vec == *old(unsorted_vec),
            output@.len() == k,
            forall|p: int| 0 <= p < len ==> sort_indices@[p] < len,
            forall|p: int| 0 <= p < k ==> #[trigger] output@[p] == unsorted_vec@[sort_indices@[p] as int],
        decreases len - k,
    {
        output.push(unsorted_vec[sort_indices[k]]);
        k += 1;
    }
    *unsorted_vec = output;
}

} // verus!

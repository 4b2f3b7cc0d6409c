//! Picking the positions of a list by a flag per position.

use vstd::prelude::*;

verus! {

/// The positions from `lo` up to `hi` whose flag equals `want`, in ascending
/// order.
pub open spec fn spec_picked(flags: Seq<bool>, want: bool, lo: int, hi: int) -> Seq<usize>
    decreases hi - lo,
{
    if hi <= lo {
        Seq::empty()
    } else {
        let rest = spec_picked(flags, want, lo, hi - 1);
        if flags[hi - 1] == want {
            rest.push((hi - 1) as usize)
        } else {
            rest
        }
    }
}

/// What `spec_picked` holds: every entry is a position in range whose flag
/// is as wanted, the entries ascend, and no such position is missing.
pub proof fn lemma_picked(flags: Seq<bool>, want: bool, lo: int, hi: int)
    requires
        0 <= lo,
        hi <= flags.len() <= usize::MAX,
    ensures
        spec_picked(flags, want, lo, hi).len() <= if hi <= lo {
            0
        } else {
            hi - lo
        },
        forall|a: int|
            0 <= a < spec_picked(flags, want, lo, hi).len() ==> {
                let k = #[trigger] spec_picked(flags, want, lo, hi)[a];
                lo <= k < hi && flags[k as int] == want
            },
        forall|a: int, b: int|
            0 <= a < b < spec_picked(flags, want, lo, hi).len() ==> spec_picked(
                flags,
                want,
                lo,
                hi,
            )[a] < spec_picked(flags, want, lo, hi)[b],
        forall|k: int|
            lo <= k < hi && flags[k] == want ==> #[trigger] spec_picked(
                flags,
                want,
                lo,
                hi,
            ).contains(k as usize),
    decreases hi - lo,
{
    if hi > lo {
        lemma_picked(flags, want, lo, hi - 1);
        let rest = spec_picked(flags, want, lo, hi - 1);
        let all = spec_picked(flags, want, lo, hi);
        assert forall|k: int| lo <= k < hi && flags[k] == want implies #[trigger] all.contains(
            k as usize,
        ) by {
            if k == hi - 1 {
                assert(all[rest.len() as int] == k as usize);
            } else {
                assert(rest.contains(k as usize));
                let p = choose|p: int| 0 <= p < rest.len() && rest[p] == k as usize;
                assert(all[p] == k as usize);
            }
        }
    }
}

/// The positions from `lo` up to `hi` whose flag equals `want`, in ascending
/// order.
pub fn pick(flags: &Vec<bool>, want: bool, lo: usize, hi: usize) -> (picked: Vec<usize>)
    requires
        hi <= flags@.len(),
    ensures
        picked@ == spec_picked(flags@, want, lo as int, hi as int),
{
    let mut picked: Vec<usize> = Vec::new();
    if hi <= lo {
        return picked;
    }
    let mut k: usize = lo;
    while k < hi
        invariant
            hi <= flags@.len(),
            lo <= k <= hi,
            picked@ == spec_picked(flags@, want, lo as int, k as int),
        decreases hi - k,
    {
        let ghost rest = picked@;
        if flags[k] == want {
            picked.push(k);
        }
        assert(spec_picked(flags@, want, lo as int, k + 1) == if flags@[k as int] == want {
            rest.push(k)
        } else {
            rest
        });
        k += 1;
    }
    picked
}

/// A shorter range picks a prefix of what a longer range picks.
pub proof fn lemma_picked_prefix(flags: Seq<bool>, want: bool, lo: int, mid: int, hi: int)
    requires
        lo <= mid <= hi,
    ensures
        spec_picked(flags, want, lo, mid).len() <= spec_picked(flags, want, lo, hi).len(),
        spec_picked(flags, want, lo, hi).take(spec_picked(flags, want, lo, mid).len() as int)
            == spec_picked(flags, want, lo, mid),
    decreases hi - mid,
{
    let short = spec_picked(flags, want, lo, mid);
    if mid == hi {
        assert(short.take(short.len() as int) =~= short);
    } else {
        lemma_picked_prefix(flags, want, lo, mid, hi - 1);
        let rest = spec_picked(flags, want, lo, hi - 1);
        assert(rest.push((hi - 1) as usize).take(short.len() as int) =~= rest.take(
            short.len() as int,
        ));
    }
}

/// The entries of `src` at the positions `picks`, in the order of `picks`.
pub open spec fn spec_gathered<A>(src: Seq<A>, picks: Seq<usize>) -> Seq<A> {
    Seq::new(picks.len(), |a: int| src[picks[a] as int])
}

/// The entries of `src` at the positions `picks`, in the order of `picks`.
pub fn gather<A: Copy>(src: &Vec<A>, picks: &Vec<usize>) -> (out: Vec<A>)
    requires
        forall|a: int| 0 <= a < picks@.len() ==> picks@[a] < src@.len(),
    ensures
        out@ == spec_gathered(src@, picks@),
{
    let mut out: Vec<A> = Vec::new();
    let mut a: usize = 0;
    while a < picks.len()
        invariant
            a <= picks@.len(),
            forall|p: int| 0 <= p < picks@.len() ==> picks@[p] < src@.len(),
            out@.len() == a,
            forall|p: int| 0 <= p < a ==> #[trigger] out@[p] == src@[picks@[p] as int],
        decreases picks@.len() - a,
    {
        out.push(src[picks[a]]);
        a += 1;
    }
    assert(out@ =~= spec_gathered(src@, picks@));
    out
}

/// For every position below `len`, whether `idxs` names it.
pub open spec fn spec_marked(idxs: Seq<usize>, len: int) -> Seq<bool> {
    Seq::new(len as nat, |k: int| idxs.contains(k as usize))
}

/// What is left when one position is taken out: with only position `i`
/// marked, the first `n` positions without the marked one are the positions
/// before `i` and, one place down each, those after it.
pub proof fn lemma_picked_without_one(i: usize, len: int, n: int)
    requires
        0 <= n <= len <= usize::MAX,
        i < len,
    ensures
        spec_picked(spec_marked(seq![i], len), false, 0, n) == Seq::new(
            (if n > i {
                n - 1
            } else {
                n
            }) as nat,
            |k: int|
                (if k < i {
                    k
                } else {
                    k + 1
                }) as usize,
        ),
    decreases n,
{
    let flags = spec_marked(seq![i], len);
    let target = Seq::new(
        (if n > i {
            n - 1
        } else {
            n
        }) as nat,
        |k: int|
            (if k < i {
                k
            } else {
                k + 1
            }) as usize,
    );
    if n > 0 {
        lemma_picked_without_one(i, len, n - 1);
        assert(seq![i][0] == i);
        assert(flags[n - 1] == seq![i].contains((n - 1) as usize));
        assert(flags[n - 1] == (n - 1 == i));
        assert(spec_picked(flags, false, 0, n) =~= target);
    } else {
        assert(spec_picked(flags, false, 0, n) =~= target);
    }
}

/// For every position below `len`, whether `idxs` names it. Every entry of
/// `idxs` has to be below `len`.
pub fn mark(idxs: &Vec<usize>, len: usize) -> (flags: Vec<bool>)
    requires
        forall|a: int| 0 <= a < idxs@.len() ==> idxs@[a] < len,
    ensures
        flags@ == spec_marked(idxs@, len as int),
{
    let mut flags: Vec<bool> = Vec::new();
    let mut k: usize = 0;
    while k < len
        invariant
            k <= len,
            flags@.len() == k,
            forall|p: int| 0 <= p < k ==> !#[trigger] flags@[p],
        decreases len - k,
    {
        flags.push(false);
        k += 1;
    }
    let mut a: usize = 0;
    while a < idxs.len()
        invariant
            a <= idxs@.len(),
            flags@.len() == len,
            forall|p: int| 0 <= p < idxs@.len() ==> idxs@[p] < len,
            forall|p: int|
                0 <= p < len ==> (#[trigger] flags@[p] <==> idxs@.take(a as int).contains(p as usize)),
        decreases idxs@.len() - a,
    {
        let ghost before = flags@;
        let ghost seen = idxs@.take(a as int);
        let ghost next = idxs@.take(a + 1);
        flags.set(idxs[a], true);
        proof {
            assert(next.drop_last() =~= seen);
            assert(next[a as int] == idxs@[a as int]);
            assert forall|p: int| 0 <= p < len implies (#[trigger] flags@[p] <==> next.contains(
                p as usize,
            )) by {
                if seen.contains(p as usize) {
                    let q = choose|q: int| 0 <= q < seen.len() && seen[q] == p as usize;
                    assert(next[q] == p as usize);
                }
                if next.contains(p as usize) && p != idxs@[a as int] {
                    let q = choose|q: int| 0 <= q < next.len() && next[q] == p as usize;
                    assert(seen[q] == p as usize);
                }
            }
        }
        a += 1;
    }
    proof {
        assert(idxs@.take(idxs@.len() as int) =~= idxs@);
        assert(flags@ =~= spec_marked(idxs@, len as int));
    }
    flags
}

} // verus!

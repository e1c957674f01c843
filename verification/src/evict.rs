//! Which entries of a full table have to go: the least recently used.
use vstd::prelude::*;

verus! {

/// How many of the times lie before `c`.
pub open spec fn count_below(times: Seq<u64>, c: int) -> nat
    decreases times.len(),
{
    if times.len() == 0 {
        0
    } else {
        count_below(times.drop_last(), c) + if times.last() < c {
            1nat
        } else {
            0nat
        }
    }
}

/// How many of the times are `c`.
pub open spec fn count_at(times: Seq<u64>, c: int) -> nat
    decreases times.len(),
{
    if times.len() == 0 {
        0
    } else {
        count_at(times.drop_last(), c) + if times.last() == c {
            1nat
        } else {
            0nat
        }
    }
}

/// How many entries were used less recently than entry `i`. Of entries with one
/// time those count that stand before it.
pub open spec fn rank(times: Seq<u64>, i: int) -> nat {
    count_below(times, times[i] as int) + count_at(times.take(i), times[i] as int)
}

/// Those of the first `k` entries that stay when the `n` least recently used go.
pub open spec fn survivors<T>(s: Seq<T>, times: Seq<u64>, n: int, k: int) -> Seq<T>
    decreases k,
{
    if k <= 0 {
        Seq::empty()
    } else {
        let init = survivors(s, times, n, k - 1);
        if rank(times, k - 1) >= n {
            init.push(s[k - 1])
        } else {
            init
        }
    }
}

/// `c` is the time at position `n` when the times are put in order, counted
/// from 0.
pub open spec fn is_nth(times: Seq<u64>, n: int, c: u64) -> bool {
    times.contains(c) && count_below(times, c as int) <= n < count_below(times, c + 1)
}

/// `slice::select_nth_unstable`, and the element that it puts in place: the
/// one at position `n` of the sorted times.
#[verifier::external_body]
pub(crate) fn nth_smallest(times: Vec<u64>, n: usize) -> (r: u64)
    requires
        n < times.len(),
    ensures
        is_nth(times@, n as int, r),
{
    let mut times = times;
    *times.select_nth_unstable(n).1
}

/// Says of each entry whether it stays when the `n` least recently used go.
pub(crate) fn staying(times: Vec<u64>, n: usize) -> (r: Vec<bool>)
    requires
        n < times.len(),
    ensures
        r@.len() == times@.len(),
        forall|i: int| 0 <= i < r@.len() ==> #[trigger] r@[i] == (rank(times@, i) >= n),
{
    let ghost all = times@;
    let mut copy: Vec<u64> = Vec::new();
    let mut i: usize = 0;
    while i < times.len()
        invariant
            i <= times.len(),
            copy@ == times@.take(i as int),
        decreases times.len() - i,
    {
        proof {
            assert(times@.take(i + 1) =~= times@.take(i as int).push(times@[i as int]));
        }
        copy.push(times[i]);
        i += 1;
    }
    proof {
        assert(times@.take(i as int) =~= times@);
    }
    let cutoff = nth_smallest(copy, n);
    let mut below: usize = 0;
    let mut i: usize = 0;
    proof {
        assert(all.take(0) =~= Seq::empty());
    }
    while i < times.len()
        invariant
            i <= times.len(),
            all == times@,
            below <= i,
            below == count_below(all.take(i as int), cutoff as int),
        decreases times.len() - i,
    {
        proof {
            assert(all.take(i + 1).drop_last() =~= all.take(i as int));
        }
        if times[i] < cutoff {
            below += 1;
        }
        i += 1;
    }
    proof {
        assert(all.take(i as int) =~= all);
    }
    let mut out: Vec<bool> = Vec::new();
    let mut ties: usize = 0;
    let mut i: usize = 0;
    while i < times.len()
        invariant
            i <= times.len(),
            all == times@,
            n < all.len(),
            is_nth(all, n as int, cutoff),
            below == count_below(all, cutoff as int),
            below <= n,
            ties <= i,
            ties == count_at(all.take(i as int), cutoff as int),
            out@.len() == i,
            forall|j: int| 0 <= j < i ==> #[trigger] out@[j] == (rank(all, j) >= n),
        decreases times.len() - i,
    {
        proof {
            lemma_rank(all, n as int, cutoff, i as int);
            assert(all.take(i + 1).drop_last() =~= all.take(i as int));
        }
        out.push(times[i] > cutoff || (times[i] == cutoff && ties >= n - below));
        if times[i] == cutoff {
            ties += 1;
        }
        i += 1;
    }
    out
}

proof fn lemma_count_monotone(times: Seq<u64>, a: int, b: int)
    requires
        a <= b,
    ensures
        count_below(times, a) <= count_below(times, b),
    decreases times.len(),
{
    if times.len() > 0 {
        lemma_count_monotone(times.drop_last(), a, b);
    }
}

proof fn lemma_count_split(times: Seq<u64>, c: int)
    ensures
        count_below(times, c + 1) == count_below(times, c) + count_at(times, c),
    decreases times.len(),
{
    if times.len() > 0 {
        lemma_count_split(times.drop_last(), c);
    }
}

/// An entry is counted among those with its time, but not before its place.
proof fn lemma_counted(times: Seq<u64>, i: int)
    requires
        0 <= i < times.len(),
    ensures
        count_at(times.take(i), times[i] as int) < count_at(times, times[i] as int),
    decreases times.len(),
{
    if i < times.len() - 1 {
        lemma_counted(times.drop_last(), i);
        assert(times.drop_last().take(i) =~= times.take(i));
    } else {
        assert(times.take(i) =~= times.drop_last());
    }
}

/// An entry stays where it was used after the time at position `n`, or at that
/// time with enough others before it.
proof fn lemma_rank(times: Seq<u64>, n: int, c: u64, i: int)
    requires
        is_nth(times, n, c),
        0 <= i < times.len(),
    ensures
        rank(times, i) >= n <==> times[i] > c || (times[i] == c && count_below(times, c as int)
            + count_at(times.take(i), c as int) >= n),
{
    let t = times[i];
    if t > c {
        lemma_count_monotone(times, c + 1, t as int);
    } else if t < c {
        lemma_counted(times, i);
        lemma_count_split(times, t as int);
        lemma_count_monotone(times, t + 1, c as int);
    }
}

/// A time is at each position of the order.
proof fn lemma_some_nth(times: Seq<u64>, n: int, from: u64) -> (c: u64)
    requires
        0 <= n < times.len(),
        count_below(times, from as int) <= n,
    ensures
        is_nth(times, n, c),
    decreases u64::MAX - from,
{
    lemma_count_split(times, from as int);
    if count_below(times, from + 1) > n {
        lemma_at_is_there(times, from);
        from
    } else {
        lemma_all_below(times);
        lemma_some_nth(times, n, (from + 1) as u64)
    }
}

proof fn lemma_at_is_there(times: Seq<u64>, c: u64)
    requires
        count_at(times, c as int) > 0,
    ensures
        times.contains(c),
    decreases times.len(),
{
    if times.last() == c {
        assert(times[times.len() - 1] == c);
    } else {
        lemma_at_is_there(times.drop_last(), c);
        let i = choose|i: int| 0 <= i < times.drop_last().len() && times.drop_last()[i] == c;
        assert(times[i] == c);
    }
}

proof fn lemma_all_below(times: Seq<u64>)
    ensures
        count_below(times, u64::MAX + 1) == times.len(),
    decreases times.len(),
{
    if times.len() > 0 {
        lemma_all_below(times.drop_last());
    }
}

proof fn lemma_none_below(times: Seq<u64>)
    ensures
        count_below(times, 0) == 0,
    decreases times.len(),
{
    if times.len() > 0 {
        lemma_none_below(times.drop_last());
    }
}

proof fn lemma_survivors_so_far<T>(s: Seq<T>, times: Seq<u64>, n: int, c: u64, k: int)
    requires
        s.len() == times.len(),
        is_nth(times, n, c),
        0 <= k <= s.len(),
    ensures
        ({
            let short = n - count_below(times, c as int);
            let ties = count_at(times.take(k), c as int);
            survivors(s, times, n, k).len() + count_below(times.take(k), c as int) + if ties
                < short {
                ties as int
            } else {
                short
            } == k
        }),
    decreases k,
{
    if k > 0 {
        lemma_survivors_so_far(s, times, n, c, k - 1);
        lemma_rank(times, n, c, k - 1);
        assert(times.take(k).drop_last() =~= times.take(k - 1));
    } else {
        assert(times.take(0) =~= Seq::empty());
    }
}

/// Exactly `n` entries go, however many have one time.
pub proof fn law_exactly_so_many_go<T>(s: Seq<T>, times: Seq<u64>, n: int)
    requires
        s.len() == times.len(),
        0 <= n < times.len(),
    ensures
        survivors(s, times, n, s.len() as int).len() == s.len() - n,
{
    lemma_none_below(times);
    let c = lemma_some_nth(times, n, 0);
    lemma_survivors_so_far(s, times, n, c, s.len() as int);
    lemma_count_split(times, c as int);
    assert(times.take(times.len() as int) =~= times);
}

/// No entry goes that was used later than one that stays.
pub proof fn law_the_oldest_go(times: Seq<u64>, n: int, gone: int, kept: int)
    requires
        0 <= gone < times.len(),
        0 <= kept < times.len(),
        rank(times, gone) < n <= rank(times, kept),
    ensures
        times[gone] <= times[kept],
{
    if times[gone] > times[kept] {
        lemma_counted(times, kept);
        lemma_count_split(times, times[kept] as int);
        lemma_count_monotone(times, times[kept] + 1, times[gone] as int);
    }
}

/// The last entry stays where nothing was used after it.
pub proof fn law_the_newest_stays(times: Seq<u64>, n: int)
    requires
        0 <= n < times.len(),
        forall|i: int| 0 <= i < times.len() ==> times[i] <= times.last(),
    ensures
        rank(times, times.len() - 1) >= n,
{
    let t = times.last();
    lemma_within(times, t);
    lemma_count_split(times, t as int);
    assert(times.take(times.len() - 1) =~= times.drop_last());
}

proof fn lemma_within(times: Seq<u64>, t: u64)
    requires
        forall|i: int| 0 <= i < times.len() ==> times[i] <= t,
    ensures
        count_below(times, t + 1) == times.len(),
    decreases times.len(),
{
    if times.len() > 0 {
        assert(times.last() <= t);
        assert forall|i: int| 0 <= i < times.drop_last().len() implies times.drop_last()[i]
            <= t by {
            assert(times[i] <= t);
        }
        lemma_within(times.drop_last(), t);
    }
}

/// What stays was there.
pub proof fn lemma_survivors_were_there<T>(s: Seq<T>, times: Seq<u64>, n: int, k: int)
    requires
        0 <= k <= s.len(),
    ensures
        forall|i: int|
            0 <= i < survivors(s, times, n, k).len() ==> exists|j: int|
                0 <= j < k && s[j] == #[trigger] survivors(s, times, n, k)[i],
    decreases k,
{
    if k > 0 {
        lemma_survivors_were_there(s, times, n, k - 1);
        let out = survivors(s, times, n, k);
        let init = survivors(s, times, n, k - 1);
        assert forall|i: int| 0 <= i < out.len() implies exists|j: int|
            0 <= j < k && s[j] == #[trigger] out[i] by {
            if i < init.len() {
                assert(out[i] == init[i]);
                let j = choose|j: int| 0 <= j < k - 1 && s[j] == init[i];
                assert(s[j] == out[i]);
            } else {
                assert(s[k - 1] == out[i]);
            }
        }
    }
}

} // verus!

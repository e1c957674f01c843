//! The table of token buckets behind the rate limits. A bucket's tokens are
//! carried here as an opaque number; whoever refills it knows what they mean.
//! Times are counted by a clock that never runs backwards.
use crate::evict::{
    law_exactly_so_many_go, lemma_survivors_were_there, rank, staying, survivors,
};
use crate::order::{
    is_before, lemma_before_is_transitive, lemma_before_or_behind, lemma_not_before_itself,
    text_before,
};
use crate::text::same_text;
use vstd::prelude::*;

verus! {

/// The limited endpoint classes; part of the bucket key so classes don't share
/// budgets.
#[derive(Clone, Copy, Debug, PartialEq, Eq, Structural)]
pub enum Kind {
    Login,
    Registration,
    Message,
}

/// Soft mark: an eviction leaves this many buckets.
pub const PRUNE_ABOVE: usize = 10_000;

/// Hard cap: the table never exceeds this. A table of this size is compacted
/// before another bucket is opened.
pub const MAX_BUCKETS: usize = 100_000;

#[derive(Debug)]
pub struct Bucket {
    pub kind: Kind,
    pub key: String,
    pub tokens: u64,
    pub last: u64,
}

pub struct BucketV {
    pub kind: Kind,
    pub key: Seq<char>,
    pub tokens: u64,
    pub last: u64,
}

impl View for Bucket {
    type V = BucketV;

    open spec fn view(&self) -> BucketV {
        BucketV { kind: self.kind, key: self.key@, tokens: self.tokens, last: self.last }
    }
}

pub open spec fn bucket_views(s: Seq<Bucket>) -> Seq<BucketV> {
    s.map_values(|b: Bucket| b@)
}

/// The times of last use.
pub open spec fn last_times(s: Seq<BucketV>) -> Seq<u64> {
    s.map_values(|b: BucketV| b.last)
}

/// The buckets that are not idle.
pub open spec fn draining(s: Seq<BucketV>, idle: Seq<bool>) -> Seq<BucketV>
    decreases s.len(),
{
    if s.len() == 0 {
        Seq::empty()
    } else {
        let init = draining(s.drop_last(), idle);
        if idle[s.len() - 1] {
            init
        } else {
            init.push(s.last())
        }
    }
}

/// The table after compaction: the idle buckets are gone, and where more than the
/// soft mark are left, so are the least recently used, down to the mark.
pub open spec fn compacted(s: Seq<BucketV>, idle: Seq<bool>) -> Seq<BucketV> {
    let kept = draining(s, idle);
    if kept.len() <= PRUNE_ABOVE {
        kept
    } else {
        survivors(kept, last_times(kept), kept.len() - PRUNE_ABOVE, kept.len() as int)
    }
}

/// Where the bucket of a key stands, from position `from` on.
pub open spec fn bucket_index(s: Seq<BucketV>, kind: Kind, key: Seq<char>, from: int) -> Option<int>
    decreases s.len() - from,
{
    if from < 0 || from >= s.len() {
        None
    } else if s[from].kind == kind && s[from].key == key {
        Some(from)
    } else {
        bucket_index(s, kind, key, from + 1)
    }
}

/// No two buckets have one key.
pub open spec fn keys_differ(s: Seq<BucketV>) -> bool {
    forall|i: int, j: int|
        #![trigger s[i], s[j]]
        0 <= i < j < s.len() ==> !(s[i].kind == s[j].kind && s[i].key == s[j].key)
}

spec fn kind_place(kind: Kind) -> int {
    match kind {
        Kind::Login => 0,
        Kind::Registration => 1,
        Kind::Message => 2,
    }
}

/// Does the bucket stand before the place of a key?
spec fn stands_before(b: BucketV, kind: Kind, key: Seq<char>) -> bool {
    kind_place(b.kind) < kind_place(kind) || (b.kind == kind && text_before(b.key, key))
}

/// The places in `index` are places of the table, in the order of their keys.
spec fn in_key_order(s: Seq<BucketV>, index: Seq<usize>) -> bool {
    &&& forall|a: int| 0 <= a < index.len() ==> (#[trigger] index[a]) < s.len()
    &&& forall|a: int, b: int|
        #![trigger index[a], index[b]]
        0 <= a < b < index.len() ==> stands_before(
            s[index[a] as int],
            s[index[b] as int].kind,
            s[index[b] as int].key,
        )
}

/// `index` holds each of the first `n` places of the table.
spec fn reaches(index: Seq<usize>, n: int) -> bool {
    forall|i: int| 0 <= i < n ==> index.contains(#[trigger] (i as usize))
}

/// The buckets of one node, and an index of their places by key.
#[derive(Debug)]
pub struct Buckets {
    entries: Vec<Bucket>,
    index: Vec<usize>,
}

impl View for Buckets {
    type V = Seq<BucketV>;

    closed spec fn view(&self) -> Seq<BucketV> {
        bucket_views(self.entries@)
    }
}

fn is_before_key(b: &Bucket, kind: Kind, key: &str) -> (r: bool)
    ensures
        r == stands_before(b@, kind, key@),
{
    match (b.kind, kind) {
        (Kind::Login, Kind::Login) => is_before(b.key.as_str(), key),
        (Kind::Registration, Kind::Registration) => is_before(b.key.as_str(), key),
        (Kind::Message, Kind::Message) => is_before(b.key.as_str(), key),
        (Kind::Login, _) => true,
        (Kind::Registration, Kind::Message) => true,
        _ => false,
    }
}

proof fn lemma_stands_before(a: BucketV, b: BucketV, kind: Kind, key: Seq<char>)
    ensures
        !stands_before(a, a.kind, a.key),
        stands_before(a, b.kind, b.key) && stands_before(b, kind, key) ==> stands_before(
            a,
            kind,
            key,
        ),
        stands_before(a, b.kind, b.key) || stands_before(b, a.kind, a.key) || (a.kind == b.kind
            && a.key == b.key),
{
    lemma_not_before_itself(a.key);
    lemma_before_or_behind(a.key, b.key);
    if text_before(a.key, b.key) && text_before(b.key, key) {
        lemma_before_is_transitive(a.key, b.key, key);
    }
}

/// Where a key belongs in the index: behind all that stand before it.
fn place_of(entries: &Vec<Bucket>, index: &Vec<usize>, kind: Kind, key: &str) -> (r: usize)
    requires
        in_key_order(bucket_views(entries@), index@),
    ensures
        r <= index@.len(),
        forall|a: int|
            0 <= a < r ==> stands_before(
                entries@[(#[trigger] index@[a]) as int]@,
                kind,
                key@,
            ),
        forall|a: int|
            r <= a < index@.len() ==> !stands_before(
                entries@[(#[trigger] index@[a]) as int]@,
                kind,
                key@,
            ),
{
    let ghost s = bucket_views(entries@);
    let mut lo: usize = 0;
    let mut hi: usize = index.len();
    while lo < hi
        invariant
            lo <= hi <= index@.len(),
            s == bucket_views(entries@),
            in_key_order(s, index@),
            forall|a: int| 0 <= a < lo ==> stands_before(s[(#[trigger] index@[a]) as int], kind, key@),
            forall|a: int|
                hi <= a < index@.len() ==> !stands_before(
                    s[(#[trigger] index@[a]) as int],
                    kind,
                    key@,
                ),
        decreases hi - lo,
    {
        let mid = lo + (hi - lo) / 2;
        let i = index[mid];
        proof {
            assert(i < s.len());
            assert(s[i as int] == entries@[i as int]@);
        }
        if is_before_key(&entries[i], kind, key) {
            proof {
                assert forall|a: int| 0 <= a < mid + 1 implies stands_before(
                    s[(#[trigger] index@[a]) as int],
                    kind,
                    key@,
                ) by {
                    if a < mid {
                        lemma_stands_before(s[index@[a] as int], s[i as int], kind, key@);
                    }
                }
            }
            lo = mid + 1;
        } else {
            proof {
                assert forall|a: int| mid <= a < index@.len() implies !stands_before(
                    s[(#[trigger] index@[a]) as int],
                    kind,
                    key@,
                ) by {
                    if a > mid {
                        lemma_stands_before(s[i as int], s[index@[a] as int], kind, key@);
                    }
                }
            }
            hi = mid;
        }
    }
    proof {
        assert forall|a: int| 0 <= a < index@.len() implies s[(#[trigger] index@[a]) as int]
            == entries@[index@[a] as int]@ by {
            assert(index@[a] < s.len());
        }
    }
    lo
}

/// A place goes into the index where its key belongs.
proof fn lemma_index_insert(s: Seq<BucketV>, index: Seq<usize>, at: int, i: usize)
    requires
        in_key_order(s, index),
        0 <= at <= index.len(),
        i < s.len(),
        forall|a: int|
            0 <= a < index.len() ==> !((s[(#[trigger] index[a]) as int]).kind == s[i as int].kind
                && s[index[a] as int].key == s[i as int].key),
        forall|a: int|
            0 <= a < at ==> stands_before(
                s[(#[trigger] index[a]) as int],
                s[i as int].kind,
                s[i as int].key,
            ),
        forall|a: int|
            at <= a < index.len() ==> !stands_before(
                s[(#[trigger] index[a]) as int],
                s[i as int].kind,
                s[i as int].key,
            ),
    ensures
        in_key_order(s, index.insert(at, i)),
        forall|u: usize| #[trigger] index.insert(at, i).contains(u) <==> index.contains(u) || u == i,
{
    let after = index.insert(at, i);
    assert forall|a: int| 0 <= a < after.len() implies (#[trigger] after[a]) < s.len() by {
        if a < at {
            assert(after[a] == index[a]);
        } else if a > at {
            assert(after[a] == index[a - 1]);
        }
    }
    assert forall|a: int, b: int|
        #![trigger after[a], after[b]]
        0 <= a < b < after.len() implies stands_before(
        s[after[a] as int],
        s[after[b] as int].kind,
        s[after[b] as int].key,
    ) by {
        let a0 = if a < at {
            a
        } else {
            a - 1
        };
        let b0 = if b < at {
            b
        } else {
            b - 1
        };
        if a != at && b != at {
            assert(after[a] == index[a0] && after[b] == index[b0]);
        } else if a == at {
            assert(after[b] == index[b0]);
            lemma_stands_before(s[i as int], s[index[b0] as int], s[i as int].kind, s[i as int].key);
        } else {
            assert(after[a] == index[a0]);
        }
    }
    assert forall|u: usize| #[trigger] after.contains(u) <==> index.contains(u) || u == i by {
        assert(after[at] == i);
        if index.contains(u) {
            let k = choose|k: int| 0 <= k < index.len() && index[k] == u;
            if k < at {
                assert(after[k] == u);
            } else {
                assert(after[k + 1] == u);
            }
        }
        if after.contains(u) {
            let k = choose|k: int| 0 <= k < after.len() && after[k] == u;
            if k < at {
                assert(index[k] == u);
            } else if k > at {
                assert(index[k - 1] == u);
            }
        }
    }
}

/// The index of a table.
fn index_of(entries: &Vec<Bucket>) -> (r: Vec<usize>)
    requires
        keys_differ(bucket_views(entries@)),
    ensures
        in_key_order(bucket_views(entries@), r@),
        reaches(r@, entries@.len() as int),
{
    let ghost s = bucket_views(entries@);
    let mut index: Vec<usize> = Vec::new();
    let mut i: usize = 0;
    while i < entries.len()
        invariant
            i <= entries.len(),
            s == bucket_views(entries@),
            keys_differ(s),
            in_key_order(s, index@),
            reaches(index@, i as int),
            forall|a: int| 0 <= a < index@.len() ==> (#[trigger] index@[a]) < i,
        decreases entries.len() - i,
    {
        let at = place_of(entries, &index, entries[i].kind, entries[i].key.as_str());
        let ghost before = index@;
        proof {
            assert(s[i as int] == entries@[i as int]@);
            assert forall|a: int| 0 <= a < before.len() implies s[(#[trigger] before[a]) as int]
                == entries@[before[a] as int]@ && !((s[before[a] as int]).kind == s[i as int].kind
                && s[before[a] as int].key == s[i as int].key) by {
                assert(before[a] < i);
            }
            lemma_index_insert(s, before, at as int, i);
        }
        index.insert(at, i);
        proof {
            assert(reaches(index@, i + 1)) by {
                assert forall|k: int| 0 <= k < i + 1 implies index@.contains(
                    #[trigger] (k as usize),
                ) by {
                    if k < i {
                        assert(before.contains(k as usize));
                    }
                }
            }
            assert forall|a: int| 0 <= a < index@.len() implies (#[trigger] index@[a]) < i + 1 by {
                assert(index@.contains(index@[a]));
                if index@[a] != i {
                    let k = choose|k: int| 0 <= k < before.len() && before[k] == index@[a];
                    assert(before[k] < i);
                }
            }
        }
        i += 1;
    }
    index
}

/// What is not idle keeps its key to itself.
proof fn lemma_draining_differ(s: Seq<BucketV>, idle: Seq<bool>)
    requires
        keys_differ(s),
    ensures
        keys_differ(draining(s, idle)),
        draining(s, idle).len() <= s.len(),
        forall|i: int|
            0 <= i < draining(s, idle).len() ==> exists|j: int|
                0 <= j < s.len() && s[j] == #[trigger] draining(s, idle)[i],
    decreases s.len(),
{
    if s.len() > 0 {
        let init = s.drop_last();
        assert forall|i: int, j: int|
            #![trigger init[i], init[j]]
            0 <= i < j < init.len() implies !(init[i].kind == init[j].kind && init[i].key
            == init[j].key) by {
            assert(init[i] == s[i] && init[j] == s[j]);
        }
        lemma_draining_differ(init, idle);
        let d = draining(init, idle);
        let out = draining(s, idle);
        assert forall|i: int| 0 <= i < d.len() implies exists|j: int|
            0 <= j < init.len() && s[j] == #[trigger] d[i] by {
            let j = choose|j: int| 0 <= j < init.len() && init[j] == d[i];
            assert(s[j] == d[i]);
        }
        assert forall|i: int| 0 <= i < out.len() implies exists|j: int|
            0 <= j < s.len() && s[j] == #[trigger] out[i] by {
            if i < d.len() {
                assert(out[i] == d[i]);
            } else {
                assert(s[s.len() - 1] == out[i]);
            }
        }
        assert forall|i: int, j: int|
            #![trigger out[i], out[j]]
            0 <= i < j < out.len() implies !(out[i].kind == out[j].kind && out[i].key
            == out[j].key) by {
            if j < d.len() {
                assert(out[i] == d[i] && out[j] == d[j]);
            } else {
                assert(out[i] == d[i]);
                let x = choose|x: int| 0 <= x < init.len() && s[x] == d[i];
                assert(s[x] == out[i]);
                assert(s[s.len() - 1] == out[j]);
            }
        }
    }
}

proof fn lemma_survivors_differ(s: Seq<BucketV>, times: Seq<u64>, n: int, k: int)
    requires
        keys_differ(s),
        0 <= k <= s.len(),
    ensures
        keys_differ(survivors(s, times, n, k)),
    decreases k,
{
    if k > 0 {
        lemma_survivors_differ(s, times, n, k - 1);
        lemma_survivors_were_there(s, times, n, k - 1);
        let init = survivors(s, times, n, k - 1);
        let out = survivors(s, times, n, k);
        assert forall|i: int, j: int|
            #![trigger out[i], out[j]]
            0 <= i < j < out.len() implies !(out[i].kind == out[j].kind && out[i].key
            == out[j].key) by {
            assert(out[i] == init[i]);
            if j < init.len() {
                assert(out[j] == init[j]);
            } else {
                let x = choose|x: int| 0 <= x < k - 1 && s[x] == init[i];
                assert(s[x] == out[i]);
                assert(s[k - 1] == out[j]);
            }
        }
    }
}

impl Buckets {
    /// The index finds every bucket.
    pub closed spec fn is_indexed(self) -> bool {
        in_key_order(self@, self.index@) && reaches(self.index@, self@.len() as int)
    }

    /// The table is within the hard cap, no two buckets have one key, and the
    /// index finds them.
    pub open spec fn wf(self) -> bool {
        self@.len() <= MAX_BUCKETS && keys_differ(self@) && self.is_indexed()
    }

    /// An empty table.
    pub fn new() -> (r: Buckets)
        ensures
            r@ == Seq::<BucketV>::empty(),
            r.wf(),
    {
        let r = Buckets { entries: Vec::new(), index: Vec::new() };
        proof {
            assert(r@ =~= Seq::<BucketV>::empty());
        }
        r
    }

    /// How many buckets there are.
    pub fn len(&self) -> (r: usize)
        ensures
            r == self@.len(),
    {
        self.entries.len()
    }

    /// Must the table be compacted before it is used?
    pub fn is_full(&self) -> (r: bool)
        ensures
            r == (self@.len() >= MAX_BUCKETS),
    {
        self.entries.len() >= MAX_BUCKETS
    }

    /// The class, the tokens and the time of last use of a bucket.
    pub fn at(&self, i: usize) -> (r: (Kind, u64, u64))
        requires
            i < self@.len(),
        ensures
            r == (self@[i as int].kind, self@[i as int].tokens, self@[i as int].last),
    {
        let b = &self.entries[i];
        (b.kind, b.tokens, b.last)
    }

    /// Drops the idle buckets and, where a flood of draining ones is holding
    /// the table full, the least recently used, down to the soft mark.
    pub fn compact(&mut self, idle: &Vec<bool>)
        requires
            old(self).wf(),
            idle@.len() == old(self)@.len(),
        ensures
            final(self).wf(),
            final(self)@ == compacted(old(self)@, idle@),
            final(self)@.len() <= PRUNE_ABOVE,
    {
        let ghost before = self@;
        let mut kept: Vec<Bucket> = Vec::new();
        let n = self.entries.len();
        proof {
            assert(bucket_views(kept@) =~= draining(before.take(0), idle@));
        }
        let mut i: usize = 0;
        while i < n
            invariant
                i <= n,
                n == self.entries@.len(),
                idle@.len() == n,
                before == self@,
                bucket_views(kept@) == draining(before.take(i as int), idle@),
            decreases n - i,
        {
            proof {
                assert(before.take(i + 1).drop_last() =~= before.take(i as int));
                assert(before.take(i + 1).last() == self.entries@[i as int]@);
            }
            if !idle[i] {
                let b = copy_bucket(&self.entries[i]);
                proof {
                    assert(bucket_views(kept@.push(b)) =~= bucket_views(kept@).push(b@));
                }
                kept.push(b);
            }
            i += 1;
        }
        proof {
            assert(before.take(n as int) =~= before);
            lemma_draining_differ(before, idle@);
        }
        if kept.len() > PRUNE_ABOVE {
            kept = most_recent(kept);
        }
        let ghost after = bucket_views(kept@);
        self.index = index_of(&kept);
        self.entries = kept;
        proof {
            assert(self@ == after);
        }
    }

    /// The place of the bucket of a key; a new bucket holds `tokens`.
    pub fn open(&mut self, kind: Kind, key: &str, tokens: u64, now: u64) -> (r: usize)
        requires
            old(self).wf(),
            old(self)@.len() < MAX_BUCKETS,
        ensures
            final(self).wf(),
            r < final(self)@.len(),
            match bucket_index(old(self)@, kind, key@, 0) {
                Some(i) => r == i && final(self)@ == old(self)@,
                None => r == old(self)@.len() && final(self)@ == old(self)@.push(
                    BucketV { kind, key: key@, tokens, last: now },
                ),
            },
    {
        let n = self.entries.len();
        let at = place_of(&self.entries, &self.index, kind, key);
        let ghost s = self@;
        let ghost places = self.index@;
        proof {
            assert forall|a: int| 0 <= a < places.len() implies s[(#[trigger] places[a]) as int]
                == self.entries@[places[a] as int]@ by {
                assert(places[a] < s.len());
            }
        }
        if at < self.index.len() {
            let i = self.index[at];
            if self.entries[i].kind == kind && same_text(self.entries[i].key.as_str(), key) {
                proof {
                    assert(s[i as int] == self.entries@[i as int]@);
                    lemma_index_is(s, kind, key@, 0, i as int);
                }
                return i;
            }
        }
        proof {
            assert forall|a: int| 0 <= a < places.len() implies !(s[(#[trigger] places[a]) as int].kind
                == kind && s[places[a] as int].key == key@) by {
                if a < at {
                    lemma_stands_before(
                        s[places[a] as int],
                        s[places[a] as int],
                        kind,
                        key@,
                    );
                } else if a > at {
                    let x = s[places[at as int] as int];
                    assert(stands_before(x, s[places[a] as int].kind, s[places[a] as int].key));
                }
            }
            assert forall|j: int| 0 <= j < s.len() implies !((#[trigger] s[j]).kind == kind
                && s[j].key == key@) by {
                assert(places.contains(j as usize));
                let a = choose|a: int| 0 <= a < places.len() && places[a] == j as usize;
                assert(s[places[a] as int] == s[j]);
            }
            lemma_no_index(s, kind, key@, 0);
        }
        let b = Bucket { kind, key: key.to_owned(), tokens, last: now };
        let ghost new = b@;
        self.entries.push(b);
        self.index.insert(at, n);
        proof {
            let t = s.push(new);
            assert(self@ =~= t);
            assert(in_key_order(t, places)) by {
                assert forall|a: int| 0 <= a < places.len() implies (#[trigger] places[a])
                    < t.len() && t[places[a] as int] == s[places[a] as int] by {}
            }
            assert forall|a: int| 0 <= a < places.len() implies t[(#[trigger] places[a]) as int]
                == s[places[a] as int] by {}
            lemma_index_insert(t, places, at as int, n);
            assert(self.index@ =~= places.insert(at as int, n));
            assert(reaches(self.index@, t.len() as int)) by {
                assert forall|k: int| 0 <= k < t.len() implies self.index@.contains(
                    #[trigger] (k as usize),
                ) by {
                    if k < n {
                        assert(places.contains(k as usize));
                    }
                }
            }
        }
        n
    }

    /// Notes the tokens left in a bucket that was used just now.
    pub fn store(&mut self, i: usize, tokens: u64, now: u64)
        requires
            old(self).wf(),
            i < old(self)@.len(),
        ensures
            final(self).wf(),
            final(self)@ == old(self)@.update(
                i as int,
                BucketV { tokens, last: now, ..old(self)@[i as int] },
            ),
    {
        let ghost s = self@;
        let b = Bucket {
            kind: self.entries[i].kind,
            key: self.entries[i].key.as_str().to_owned(),
            tokens,
            last: now,
        };
        self.entries.set(i, b);
        proof {
            let t = s.update(i as int, BucketV { tokens, last: now, ..s[i as int] });
            assert(self@ =~= t);
            assert forall|k: int| 0 <= k < s.len() implies (#[trigger] t[k]).kind == s[k].kind
                && t[k].key == s[k].key by {}
            assert(keys_differ(t)) by {
                assert forall|x: int, y: int|
                    #![trigger t[x], t[y]]
                    0 <= x < y < t.len() implies !(t[x].kind == t[y].kind && t[x].key
                    == t[y].key) by {
                    assert(!(s[x].kind == s[y].kind && s[x].key == s[y].key));
                }
            }
            assert(in_key_order(t, self.index@)) by {
                assert(in_key_order(s, self.index@));
                let index = self.index@;
                assert forall|x: int, y: int|
                    #![trigger index[x], index[y]]
                    0 <= x < y < index.len() implies stands_before(
                    t[index[x] as int],
                    t[index[y] as int].kind,
                    t[index[y] as int].key,
                ) by {
                    assert(index[x] < s.len() && index[y] < s.len());
                    assert(t[index[x] as int].key == s[index[x] as int].key);
                    assert(t[index[y] as int].key == s[index[y] as int].key);
                }
            }
        }
    }
}

/// The buckets that were used most recently, as many as the soft mark says.
fn most_recent(kept: Vec<Bucket>) -> (r: Vec<Bucket>)
    requires
        kept@.len() > PRUNE_ABOVE,
        keys_differ(bucket_views(kept@)),
    ensures
        bucket_views(r@) == survivors(
            bucket_views(kept@),
            last_times(bucket_views(kept@)),
            kept@.len() - PRUNE_ABOVE,
            kept@.len() as int,
        ),
        r@.len() == PRUNE_ABOVE,
        keys_differ(bucket_views(r@)),
{
    let ghost all = bucket_views(kept@);
    let mut times: Vec<u64> = Vec::new();
    let mut j: usize = 0;
    while j < kept.len()
        invariant
            j <= kept.len(),
            times@.len() == j,
            forall|k: int| 0 <= k < j ==> times@[k] == (#[trigger] kept@[k]).last,
        decreases kept.len() - j,
    {
        times.push(kept[j].last);
        j += 1;
    }
    let ghost at = last_times(all);
    proof {
        assert(times@ =~= at);
    }
    let n = kept.len() - PRUNE_ABOVE;
    let stays = staying(times, n);
    let mut out: Vec<Bucket> = Vec::new();
    let mut k: usize = 0;
    proof {
        assert(bucket_views(out@) =~= Seq::empty());
    }
    while k < kept.len()
        invariant
            k <= kept.len(),
            all == bucket_views(kept@),
            stays@.len() == kept@.len(),
            forall|i: int| 0 <= i < stays@.len() ==> #[trigger] stays@[i] == (rank(at, i) >= n),
            bucket_views(out@) == survivors(all, at, n as int, k as int),
        decreases kept.len() - k,
    {
        proof {
            assert(all[k as int] == kept@[k as int]@);
        }
        if stays[k] {
            let b = copy_bucket(&kept[k]);
            proof {
                assert(bucket_views(out@.push(b)) =~= bucket_views(out@).push(b@));
            }
            out.push(b);
        }
        k += 1;
    }
    proof {
        law_exactly_so_many_go(all, at, n as int);
        lemma_survivors_differ(all, at, n as int, all.len() as int);
        assert(bucket_views(out@).len() == out@.len());
    }
    out
}

/// The first bucket with a key is the only one.
proof fn lemma_index_is(s: Seq<BucketV>, kind: Kind, key: Seq<char>, from: int, i: int)
    requires
        keys_differ(s),
        0 <= from <= i < s.len(),
        s[i].kind == kind,
        s[i].key == key,
    ensures
        bucket_index(s, kind, key, from) == Some(i),
    decreases s.len() - from,
{
    if from < i {
        assert(!(s[from].kind == s[i].kind && s[from].key == s[i].key));
        lemma_index_is(s, kind, key, from + 1, i);
    }
}

proof fn lemma_no_index(s: Seq<BucketV>, kind: Kind, key: Seq<char>, from: int)
    requires
        0 <= from <= s.len(),
        forall|j: int|
            from <= j < s.len() ==> !((#[trigger] s[j]).kind == kind && s[j].key == key),
    ensures
        bucket_index(s, kind, key, from) is None,
    decreases s.len() - from,
{
    if from < s.len() {
        lemma_no_index(s, kind, key, from + 1);
    }
}

fn copy_bucket(b: &Bucket) -> (r: Bucket)
    ensures
        r@ == b@,
{
    Bucket { kind: b.kind, key: b.key.as_str().to_owned(), tokens: b.tokens, last: b.last }
}

/// However many keys there are, the table never exceeds the hard cap: compaction
/// brings it down to the soft mark, even where the whole flood came at once, and
/// so leaves room for the bucket that is opened next.
pub proof fn law_table_stays_bounded(s: Seq<BucketV>, idle: Seq<bool>)
    ensures
        compacted(s, idle).len() <= PRUNE_ABOVE,
        draining(s, idle).len() >= PRUNE_ABOVE ==> compacted(s, idle).len() == PRUNE_ABOVE,
        compacted(s, idle).len() + 1 <= MAX_BUCKETS,
{
    let kept = draining(s, idle);
    if kept.len() > PRUNE_ABOVE {
        law_exactly_so_many_go(kept, last_times(kept), kept.len() - PRUNE_ABOVE);
    }
}

proof fn lemma_no_bucket(s: Seq<BucketV>, kind: Kind, key: Seq<char>, from: int)
    requires
        0 <= from <= s.len(),
        bucket_index(s, kind, key, from) is None,
    ensures
        forall|i: int|
            from <= i < s.len() ==> !((#[trigger] s[i]).kind == kind && s[i].key == key),
    decreases s.len() - from,
{
    if from < s.len() {
        lemma_no_bucket(s, kind, key, from + 1);
    }
}

/// A key has one bucket: opening one never makes a second, and different keys
/// and classes never share one.
pub proof fn law_keys_have_their_own_buckets(
    s: Seq<BucketV>,
    kind: Kind,
    key: Seq<char>,
    tokens: u64,
    now: u64,
)
    requires
        keys_differ(s),
    ensures
        bucket_index(s, kind, key, 0) is None ==> keys_differ(
            s.push(BucketV { kind, key, tokens, last: now }),
        ),
        bucket_index(s, kind, key, 0) matches Some(i) ==> 0 <= i < s.len() && s[i].kind == kind
            && s[i].key == key,
{
    if bucket_index(s, kind, key, 0) is None {
        lemma_no_bucket(s, kind, key, 0);
    } else {
        lemma_found_bucket(s, kind, key, 0);
    }
}

proof fn lemma_found_bucket(s: Seq<BucketV>, kind: Kind, key: Seq<char>, from: int)
    requires
        0 <= from,
        bucket_index(s, kind, key, from) is Some,
    ensures
        from <= bucket_index(s, kind, key, from)->0 < s.len(),
        s[bucket_index(s, kind, key, from)->0].kind == kind,
        s[bucket_index(s, kind, key, from)->0].key == key,
    decreases s.len() - from,
{
    if from < s.len() && !(s[from].kind == kind && s[from].key == key) {
        lemma_found_bucket(s, kind, key, from + 1);
    }
}

/// A clean-up drops the idle buckets and no others: every bucket in use stays
/// as it is, while there is room.
pub proof fn law_buckets_in_use_stay(s: Seq<BucketV>, idle: Seq<bool>, i: int, k: int)
    requires
        idle.len() == s.len(),
        draining(s, idle).len() <= PRUNE_ABOVE,
    ensures
        0 <= i < s.len() && !idle[i] ==> compacted(s, idle).contains(s[i]),
        0 <= k < compacted(s, idle).len() ==> exists|j: int|
            #![trigger idle[j]]
            0 <= j < s.len() && !idle[j] && s[j] == compacted(s, idle)[k],
{
    lemma_in_use(s, idle, i, k);
}

proof fn lemma_in_use(s: Seq<BucketV>, idle: Seq<bool>, i: int, k: int)
    requires
        idle.len() >= s.len(),
    ensures
        0 <= i < s.len() && !idle[i] ==> draining(s, idle).contains(s[i]),
        0 <= k < draining(s, idle).len() ==> exists|j: int|
            #![trigger idle[j]]
            0 <= j < s.len() && !idle[j] && s[j] == draining(s, idle)[k],
    decreases s.len(),
{
    if s.len() > 0 {
        let t = s.drop_last();
        let init = draining(t, idle);
        let all = draining(s, idle);
        lemma_in_use(t, idle, i, k);
        if 0 <= i < t.len() && !idle[i] {
            let q = choose|q: int| 0 <= q < init.len() && init[q] == t[i];
            assert(all[q] == s[i]);
        } else if i == t.len() && !idle[i] {
            assert(all[init.len() as int] == s[i]);
        }
        if 0 <= k < init.len() {
            let j = choose|j: int|
                #![trigger idle[j]]
                0 <= j < t.len() && !idle[j] && t[j] == init[k];
            assert(s[j] == all[k]);
        } else if k == init.len() && k < all.len() {
            assert(!idle[s.len() - 1]);
        }
    }
}

/// A bucket is found under its kind and key.
pub proof fn law_buckets_are_found(s: Seq<BucketV>, i: int)
    requires
        keys_differ(s),
        0 <= i < s.len(),
    ensures
        bucket_index(s, s[i].kind, s[i].key, 0) == Some(i),
{
    lemma_bucket_from(s, i, 0);
}

proof fn lemma_bucket_from(s: Seq<BucketV>, i: int, from: int)
    requires
        keys_differ(s),
        0 <= from <= i < s.len(),
    ensures
        bucket_index(s, s[i].kind, s[i].key, from) == Some(i),
    decreases i - from,
{
    if from < i {
        assert(!(s[from].kind == s[i].kind && s[from].key == s[i].key));
        lemma_bucket_from(s, i, from + 1);
    }
}

} // verus!

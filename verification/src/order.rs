//! Lists of texts in order, as sets that a reader can walk.
use crate::text::{chars_of, same_text, texts};
use vstd::prelude::*;

verus! {

/// Does one text stand before another, by their first difference?
pub open spec fn text_before(a: Seq<char>, b: Seq<char>) -> bool
    decreases a.len(),
{
    if b.len() == 0 {
        false
    } else if a.len() == 0 {
        true
    } else if a[0] != b[0] {
        a[0] < b[0]
    } else {
        text_before(a.skip(1), b.skip(1))
    }
}

/// Each text stands before those that follow it.
pub open spec fn ascending(v: Seq<Seq<char>>) -> bool {
    forall|i: int, j: int| 0 <= i < j < v.len() ==> text_before(#[trigger] v[i], #[trigger] v[j])
}

/// No text stands before itself.
pub proof fn lemma_not_before_itself(a: Seq<char>)
    ensures
        !text_before(a, a),
    decreases a.len(),
{
    if a.len() > 0 {
        lemma_not_before_itself(a.skip(1));
    }
}

/// Of two different texts one stands before the other.
pub proof fn lemma_before_or_behind(a: Seq<char>, b: Seq<char>)
    ensures
        text_before(a, b) || a == b || text_before(b, a),
    decreases a.len(),
{
    if a.len() > 0 && b.len() > 0 && a[0] == b[0] {
        lemma_before_or_behind(a.skip(1), b.skip(1));
        if a.skip(1) == b.skip(1) {
            assert(a =~= seq![a[0]] + a.skip(1));
            assert(b =~= seq![b[0]] + b.skip(1));
        }
    } else if a.len() == 0 && b.len() == 0 {
        assert(a =~= b);
    }
}

/// What stands before a text stands before all that it stands before.
pub proof fn lemma_before_is_transitive(a: Seq<char>, b: Seq<char>, c: Seq<char>)
    requires
        text_before(a, b),
        text_before(b, c),
    ensures
        text_before(a, c),
    decreases a.len(),
{
    if a.len() > 0 && a[0] == b[0] && b[0] == c[0] {
        lemma_before_is_transitive(a.skip(1), b.skip(1), c.skip(1));
    }
}

/// Does the text `a` stand before `b`?
pub(crate) fn is_before(a: &str, b: &str) -> (r: bool)
    ensures
        r == text_before(a@, b@),
{
    let x = chars_of(a);
    let y = chars_of(b);
    let mut i: usize = 0;
    proof {
        assert(x@.skip(0) =~= x@);
        assert(y@.skip(0) =~= y@);
    }
    while i < x.len() && i < y.len()
        invariant
            i <= x.len(),
            i <= y.len(),
            x@ == a@,
            y@ == b@,
            text_before(x@, y@) == text_before(x@.skip(i as int), y@.skip(i as int)),
        decreases x.len() - i,
    {
        proof {
            assert(x@.skip(i as int)[0] == x@[i as int]);
            assert(y@.skip(i as int)[0] == y@[i as int]);
        }
        if x[i] != y[i] {
            return x[i] < y[i];
        }
        proof {
            assert(x@.skip(i as int).skip(1) =~= x@.skip(i + 1));
            assert(y@.skip(i as int).skip(1) =~= y@.skip(i + 1));
        }
        i += 1;
    }
    i < y.len()
}

/// Puts a text in its place, where it is not there yet.
pub fn insert_text(list: Vec<String>, s: &str) -> (r: Vec<String>)
    requires
        ascending(texts(list@)),
    ensures
        ascending(texts(r@)),
        forall|u: Seq<char>|
            #[trigger] texts(r@).contains(u) <==> texts(list@).contains(u) || u == s@,
{
    let mut list = list;
    let ghost before = texts(list@);
    let mut i: usize = 0;
    while i < list.len() && is_before(list[i].as_str(), s)
        invariant
            i <= list.len(),
            before == texts(list@),
            forall|j: int| 0 <= j < i ==> text_before(#[trigger] before[j], s@),
        decreases list.len() - i,
    {
        i += 1;
    }
    if i < list.len() && same_text(list[i].as_str(), s) {
        proof {
            assert(before[i as int] == s@);
        }
        return list;
    }
    list.insert(i, s.to_owned());
    proof {
        let after = texts(list@);
        assert(after =~= before.insert(i as int, s@));
        if i < before.len() {
            lemma_before_or_behind(before[i as int], s@);
        }
        assert forall|k: int| i <= k < before.len() implies text_before(
            s@,
            #[trigger] before[k],
        ) by {
            if k > i {
                lemma_before_is_transitive(s@, before[i as int], before[k]);
            }
        }
        assert forall|a: int, b: int| 0 <= a < b < after.len() implies text_before(
            #[trigger] after[a],
            #[trigger] after[b],
        ) by {
            let a0 = if a < i {
                a
            } else {
                a - 1
            };
            let b0 = if b < i {
                b
            } else {
                b - 1
            };
            if a != i && b != i {
                assert(after[a] == before[a0] && after[b] == before[b0]);
            } else if a == i {
                assert(after[b] == before[b0]);
            } else {
                assert(after[a] == before[a0]);
            }
        }
        assert forall|u: Seq<char>| #[trigger] after.contains(u) <==> before.contains(u) || u
            == s@ by {
            assert(after[i as int] == s@);
            if before.contains(u) {
                let k = choose|k: int| 0 <= k < before.len() && before[k] == u;
                if k < i {
                    assert(after[k] == u);
                } else {
                    assert(after[k + 1] == u);
                }
            }
            if after.contains(u) {
                let k = choose|k: int| 0 <= k < after.len() && after[k] == u;
                if k < i {
                    assert(before[k] == u);
                } else if k > i {
                    assert(before[k - 1] == u);
                }
            }
        }
    }
    list
}

/// The texts of a list in order, each once.
pub fn in_order(list: &Vec<String>) -> (r: Vec<String>)
    ensures
        ascending(texts(r@)),
        forall|u: Seq<char>| #[trigger] texts(r@).contains(u) <==> texts(list@).contains(u),
{
    let mut out: Vec<String> = Vec::new();
    let mut i: usize = 0;
    while i < list.len()
        invariant
            i <= list.len(),
            ascending(texts(out@)),
            forall|u: Seq<char>|
                #[trigger] texts(out@).contains(u) <==> texts(list@).take(i as int).contains(u),
        decreases list.len() - i,
    {
        let ghost before = texts(list@).take(i as int);
        out = insert_text(out, list[i].as_str());
        proof {
            let after = texts(list@).take(i + 1);
            assert(after =~= before.push(list@[i as int]@));
            assert forall|u: Seq<char>| #[trigger] texts(out@).contains(u) <==> after.contains(
                u,
            ) by {
                if before.contains(u) {
                    let k = choose|k: int| 0 <= k < before.len() && before[k] == u;
                    assert(after[k] == u);
                }
                assert(after[i as int] == list@[i as int]@);
            }
        }
        i += 1;
    }
    proof {
        assert(texts(list@).take(list@.len() as int) =~= texts(list@));
    }
    out
}

/// Two lists in order that hold the same texts are the same list.
pub proof fn law_order_is_unique(a: Seq<Seq<char>>, b: Seq<Seq<char>>)
    requires
        ascending(a),
        ascending(b),
        forall|u: Seq<char>| #[trigger] a.contains(u) <==> b.contains(u),
    ensures
        a == b,
    decreases a.len(),
{
    if a.len() == 0 {
        if b.len() > 0 {
            assert(b.contains(b[0]));
            assert(a.contains(b[0]));
        }
        assert(a =~= b);
    } else {
        assert(a.contains(a[0]));
        assert(b.contains(a[0]));
        assert(b.contains(b[0]));
        assert(a.contains(b[0]));
        let j = choose|j: int| 0 <= j < b.len() && b[j] == a[0];
        let k = choose|k: int| 0 <= k < a.len() && a[k] == b[0];
        if j > 0 && k > 0 {
            lemma_before_is_transitive(a[0], a[k], b[j]);
            lemma_not_before_itself(a[0]);
        }
        assert(a[0] == b[0]);
        let x = a.skip(1);
        let y = b.skip(1);
        assert forall|u: Seq<char>| #[trigger] x.contains(u) <==> y.contains(u) by {
            lemma_rest(a, u);
            lemma_rest(b, u);
        }
        assert forall|i: int, l: int| 0 <= i < l < x.len() implies text_before(
            #[trigger] x[i],
            #[trigger] x[l],
        ) by {
            assert(text_before(a[i + 1], a[l + 1]));
        }
        assert forall|i: int, l: int| 0 <= i < l < y.len() implies text_before(
            #[trigger] y[i],
            #[trigger] y[l],
        ) by {
            assert(text_before(b[i + 1], b[l + 1]));
        }
        law_order_is_unique(x, y);
        assert(a =~= seq![a[0]] + x);
        assert(b =~= seq![b[0]] + y);
    }
}

/// What follows the first text of a list in order: the others.
proof fn lemma_rest(v: Seq<Seq<char>>, u: Seq<char>)
    requires
        ascending(v),
        v.len() > 0,
    ensures
        v.skip(1).contains(u) <==> v.contains(u) && u != v[0],
{
    if v.skip(1).contains(u) {
        let k = choose|k: int| 0 <= k < v.skip(1).len() && v.skip(1)[k] == u;
        assert(v[k + 1] == u);
        assert(text_before(v[0], v[k + 1]));
        lemma_not_before_itself(u);
    }
    if v.contains(u) && u != v[0] {
        let k = choose|k: int| 0 <= k < v.len() && v[k] == u;
        assert(v.skip(1)[k - 1] == u);
    }
}

} // verus!

//! Deep merging and comparison of JSON values.
use crate::json::{fields_view, get, items_view, json_view, lemma_field_of_key, lemma_items, put, Json, JsonV};
use crate::text::same_text;
use vstd::prelude::*;

verus! {

/// `patch` merged into `base`: objects merge, everything else replaces.
pub open spec fn merged(base: JsonV, patch: JsonV) -> JsonV
    decreases patch,
{
    match (base, patch) {
        (JsonV::Object(b), JsonV::Object(p)) => JsonV::Object(
            Map::new(
                |k: Seq<char>| b.dom().contains(k) || p.dom().contains(k),
                |k: Seq<char>|
                    if !p.dom().contains(k) {
                        b[k]
                    } else if b.dom().contains(k) && b[k] is Object && p[k] is Object {
                        merged(b[k], p[k])
                    } else {
                        p[k]
                    },
            ),
        ),
        _ => patch,
    }
}

/// Merging an object that has no fields changes nothing.
pub proof fn law_empty_patch_changes_nothing(b: Map<Seq<char>, JsonV>)
    ensures
        merged(JsonV::Object(b), JsonV::Object(Map::empty())) == JsonV::Object(b),
{
    let m = merged(JsonV::Object(b), JsonV::Object(Map::empty()));
    assert(m->Object_0 =~= b);
}

/// Merging the same patch again changes nothing.
pub proof fn law_merge_is_idempotent(base: JsonV, patch: JsonV)
    ensures
        merged(merged(base, patch), patch) == merged(base, patch),
    decreases patch,
{
    match (base, patch) {
        (JsonV::Object(b), JsonV::Object(p)) => {
            let once = merged(base, patch)->Object_0;
            let twice = merged(merged(base, patch), patch)->Object_0;
            assert forall|k: Seq<char>| #[trigger] once.dom().contains(k) implies once[k]
                == twice[k] by {
                if p.dom().contains(k) && p[k] is Object {
                    if b.dom().contains(k) && b[k] is Object {
                        law_merge_is_idempotent(b[k], p[k]);
                    } else {
                        law_merge_with_itself(p[k]);
                    }
                }
            }
            assert(once =~= twice);
        },
        (_, JsonV::Object(p)) => {
            law_merge_with_itself(patch);
        },
        _ => {},
    }
}

/// A value merged with itself is itself.
pub proof fn law_merge_with_itself(v: JsonV)
    ensures
        merged(v, v) == v,
    decreases v,
{
    match v {
        JsonV::Object(m) => {
            let w = merged(v, v)->Object_0;
            assert forall|k: Seq<char>| #[trigger] m.dom().contains(k) implies w[k] == m[k] by {
                if m[k] is Object {
                    law_merge_with_itself(m[k]);
                }
            }
            assert(w =~= m);
        },
        _ => {},
    }
}

/// A patch wins: what it sets is set, what it does not mention stays, and where
/// both have an object, the two are merged.
pub proof fn law_patches_win(b: Map<Seq<char>, JsonV>, p: Map<Seq<char>, JsonV>, k: Seq<char>)
    ensures
        merged(JsonV::Object(b), JsonV::Object(p)) matches JsonV::Object(m) && {
            &&& m.dom().contains(k) <==> b.dom().contains(k) || p.dom().contains(k)
            &&& b.dom().contains(k) && !p.dom().contains(k) ==> m[k] == b[k]
            &&& p.dom().contains(k) && !(p[k] is Object) ==> m[k] == p[k]
            &&& p.dom().contains(k) && !b.dom().contains(k) ==> m[k] == p[k]
            &&& p.dom().contains(k) && b.dom().contains(k) && p[k] is Object && b[k] is Object
                ==> m[k] == merged(b[k], p[k])
        },
{
}

/// What is no object is replaced.
pub proof fn law_values_are_replaced(base: JsonV, patch: JsonV)
    requires
        !(base is Object) || !(patch is Object),
    ensures
        merged(base, patch) == patch,
{
}

/// No field from `from` on is called `key`.
spec fn is_last(p: Seq<(String, Json)>, j: int) -> bool {
    forall|i: int| j < i < p.len() ==> (#[trigger] p[i]).0@ != p[j].0@
}

proof fn lemma_last_counts(p: Seq<(String, Json)>, j: int)
    requires
        0 <= j < p.len(),
        is_last(p, j),
    ensures
        fields_view(p).dom().contains(p[j].0@),
        fields_view(p)[p[j].0@] == json_view(p[j].1),
    decreases p.len(),
{
    if j < p.len() - 1 {
        let q = p.drop_last();
        assert forall|i: int| j < i < q.len() implies (#[trigger] q[i]).0@ != q[j].0@ by {
            assert(q[i] == p[i]);
        }
        lemma_last_counts(q, j);
        assert(p[p.len() - 1].0@ != p[j].0@);
    }
}

proof fn lemma_has_last(p: Seq<(String, Json)>, key: Seq<char>) -> (j: int)
    requires
        fields_view(p).dom().contains(key),
    ensures
        0 <= j < p.len(),
        p[j].0@ == key,
        is_last(p, j),
    decreases p.len(),
{
    if p.len() > 0 && p.last().0@ == key {
        p.len() - 1
    } else {
        let q = p.drop_last();
        let j = lemma_has_last(q, key);
        assert forall|i: int| j < i < p.len() implies (#[trigger] p[i]).0@ != p[j].0@ by {
            if i < q.len() {
                assert(q[i].0@ != q[j].0@);
            }
        }
        j
    }
}

fn comes_again(p: &Vec<(String, Json)>, j: usize) -> (r: bool)
    requires
        j < p.len(),
    ensures
        r == !is_last(p@, j as int),
{
    let mut i: usize = j + 1;
    while i < p.len()
        invariant
            j < p.len(),
            j < i <= p.len(),
            forall|k: int| j < k < i ==> (#[trigger] p@[k]).0@ != p@[j as int].0@,
        decreases p.len() - i,
    {
        if same_text(p[i].0.as_str(), p[j].0.as_str()) {
            return true;
        }
        i += 1;
    }
    false
}

/// Deep-merge `patch` into `base` (objects merge, everything else replaces).
pub fn merge_json(base: &Json, patch: &Json) -> (r: Json)
    ensures
        r@ == merged(base@, patch@),
    decreases patch,
{
    match (base, patch) {
        (Json::Object(b), Json::Object(p)) => {
            let mut out: Vec<(String, Json)> = Vec::new();
            let ghost bm = fields_view(b@);
            let ghost pm = fields_view(p@);
            let ghost want = merged(base@, patch@)->Object_0;
            // The base first, then the patch over it.
            let whole = base.copy();
            match whole {
                Json::Object(fields) => {
                    out = fields;
                },
                _ => {},
            }
            let mut i: usize = 0;
            while i < p.len()
                invariant
                    i <= p.len(),
                    *base == Json::Object(*b),
                    *patch == Json::Object(*p),
                    bm == fields_view(b@),
                    pm == fields_view(p@),
                    want == merged(base@, patch@)->Object_0,
                    merged(base@, patch@) == JsonV::Object(want),
                    forall|k: Seq<char>| #[trigger]
                        fields_view(out@).dom().contains(k) ==> {
                            &&& want.dom().contains(k)
                            &&& (fields_view(out@)[k] == want[k] || bm.dom().contains(k))
                        },
                    forall|k: Seq<char>| #[trigger]
                        bm.dom().contains(k) ==> fields_view(out@).dom().contains(k) && (!pm.dom().contains(
                            k,
                        ) ==> fields_view(out@)[k] == bm[k]),
                    forall|j: int|
                        0 <= j < i && is_last(p@, j) ==> fields_view(out@).dom().contains(
                            (#[trigger] p@[j]).0@,
                        ) && fields_view(out@)[p@[j].0@] == want[p@[j].0@],
                decreases p.len() - i,
            {
                let ghost before = fields_view(out@);
                if !comes_again(p, i) {
                    let key = p[i].0.as_str();
                    proof {
                        lemma_last_counts(p@, i as int);
                        assert(decreases_to!(*patch => patch->Object_0));
                        assert(decreases_to!(*p => p@));
                        assert(decreases_to!(p@ => p@[i as int]));
                        assert(decreases_to!(p@[i as int] => p@[i as int].1));
                    }
                    let value: Json = match get(b, key) {
                        Some(old) => match (old, &p[i].1) {
                            (Json::Object(_), Json::Object(_)) => merge_json(old, &p[i].1),
                            _ => p[i].1.copy(),
                        },
                        None => p[i].1.copy(),
                    };
                    proof {
                        assert(value@ == want[key@]);
                    }
                    let ghost k0 = key@;
                    put(&mut out, key.to_owned(), value);
                    proof {
                        assert forall|j: int| 0 <= j < i + 1 && is_last(p@, j) implies fields_view(
                            out@,
                        ).dom().contains((#[trigger] p@[j]).0@) && fields_view(out@)[p@[j].0@]
                            == want[p@[j].0@] by {
                            if j < i && p@[j].0@ != k0 {
                                assert(before.dom().contains(p@[j].0@));
                            }
                        }
                    }
                }
                i += 1;
            }
            proof {
                assert forall|k: Seq<char>| #[trigger] want.dom().contains(k) implies fields_view(
                    out@,
                ).dom().contains(k) && fields_view(out@)[k] == want[k] by {
                    if pm.dom().contains(k) {
                        let j = lemma_has_last(p@, k);
                        assert(fields_view(out@).dom().contains(p@[j].0@));
                    } else {
                        assert(bm.dom().contains(k));
                    }
                }
                assert(fields_view(out@) =~= want);
            }
            Json::Object(out)
        },
        _ => patch.copy(),
    }
}

/// Are two values equal? The order of fields does not count.
pub fn same_json(a: &Json, b: &Json) -> (r: bool)
    ensures
        r == (a@ == b@),
    decreases a,
{
    match (a, b) {
        (Json::Null, Json::Null) => true,
        (Json::Bool(x), Json::Bool(y)) => *x == *y,
        (Json::Int(x), Json::Int(y)) => *x == *y,
        (Json::Number(x), Json::Number(y)) => same_text(x.as_str(), y.as_str()),
        (Json::Str(x), Json::Str(y)) => same_text(x.as_str(), y.as_str()),
        (Json::Array(x), Json::Array(y)) => {
            proof {
                lemma_items(x@);
                lemma_items(y@);
            }
            if x.len() != y.len() {
                proof {
                    assert(items_view(x@).len() != items_view(y@).len());
                }
                return false;
            }
            let ghost xs = items_view(x@);
            let ghost ys = items_view(y@);
            let mut i: usize = 0;
            while i < x.len()
                invariant
                    i <= x.len(),
                    x.len() == y.len(),
                    *a == Json::Array(*x),
                    xs == items_view(x@),
                    ys == items_view(y@),
                    a@ == JsonV::Array(xs),
                    b@ == JsonV::Array(ys),
                    xs == x@.map_values(|j: Json| j@),
                    ys == y@.map_values(|j: Json| j@),
                    forall|k: int| 0 <= k < i ==> #[trigger] xs[k] == ys[k],
                decreases x.len() - i,
            {
                proof {
                    assert(decreases_to!(*a => a->Array_0));
                    assert(decreases_to!(*x => x@));
                    assert(decreases_to!(x@ => x@[i as int]));
                    assert(xs[i as int] == x@[i as int]@);
                    assert(ys[i as int] == y@[i as int]@);
                }
                if !same_json(&x[i], &y[i]) {
                    return false;
                }
                i += 1;
            }
            proof {
                assert(xs =~= ys);
            }
            true
        },
        (Json::Object(x), Json::Object(y)) => {
            let ghost xm = fields_view(x@);
            let ghost ym = fields_view(y@);
            let mut i: usize = 0;
            while i < x.len()
                invariant
                    i <= x.len(),
                    *a == Json::Object(*x),
                    xm == fields_view(x@),
                    ym == fields_view(y@),
                    a@ == JsonV::Object(xm),
                    b@ == JsonV::Object(ym),
                    forall|k: int|
                        0 <= k < i && is_last(x@, k) ==> ym.dom().contains((#[trigger] x@[k]).0@)
                            && ym[x@[k].0@] == xm[x@[k].0@],
                decreases x.len() - i,
            {
                proof {
                    assert(decreases_to!(*a => a->Object_0));
                    assert(decreases_to!(*x => x@));
                    assert(decreases_to!(x@ => x@[i as int]));
                    assert(decreases_to!(x@[i as int] => x@[i as int].1));
                }
                if !comes_again(x, i) {
                    proof {
                        lemma_last_counts(x@, i as int);
                    }
                    match get(y, x[i].0.as_str()) {
                        Some(v) => if !same_json(&x[i].1, v) {
                            return false;
                        },
                        None => {
                            return false;
                        },
                    }
                }
                i += 1;
            }
            let mut j: usize = 0;
            while j < y.len()
                invariant
                    j <= y.len(),
                    xm == fields_view(x@),
                    ym == fields_view(y@),
                    a@ == JsonV::Object(xm),
                    b@ == JsonV::Object(ym),
                    forall|k: int| 0 <= k < j ==> xm.dom().contains((#[trigger] y@[k]).0@),
                decreases y.len() - j,
            {
                if get(x, y[j].0.as_str()).is_none() {
                    proof {
                        lemma_field_of_key(y@, y@[j as int].0@);
                    }
                    return false;
                }
                j += 1;
            }
            proof {
                assert forall|k: Seq<char>| #[trigger] xm.dom().contains(k) implies ym.dom().contains(
                    k,
                ) && ym[k] == xm[k] by {
                    let n = lemma_has_last(x@, k);
                }
                assert forall|k: Seq<char>| #[trigger] ym.dom().contains(k) implies xm.dom().contains(
                    k,
                ) by {
                    lemma_field_of_key(y@, k);
                }
                assert(xm =~= ym);
            }
            true
        },
        _ => false,
    }
}

} // verus!

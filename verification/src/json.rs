//! JSON values, their mathematical model, and the operations on objects that
//! event contents are built with.
use crate::text::same_text;
use vstd::prelude::*;

verus! {

/// A JSON value. An object is a list of fields in which the last field of a
/// name counts. A number that is no integer is kept as it was written.
#[derive(Debug)]
pub enum Json {
    Null,
    Bool(bool),
    Int(i128),
    Number(String),
    Str(String),
    Array(Vec<Json>),
    Object(Vec<(String, Json)>),
}

/// What a JSON value is: an object is a map from names to values.
pub enum JsonV {
    Null,
    Bool(bool),
    Int(int),
    Number(Seq<char>),
    Str(Seq<char>),
    Array(Seq<JsonV>),
    Object(Map<Seq<char>, JsonV>),
}

pub open spec fn json_view(j: Json) -> JsonV
    decreases j,
{
    match j {
        Json::Null => JsonV::Null,
        Json::Bool(b) => JsonV::Bool(b),
        Json::Int(i) => JsonV::Int(i as int),
        Json::Number(s) => JsonV::Number(s@),
        Json::Str(s) => JsonV::Str(s@),
        Json::Array(v) => JsonV::Array(items_view(v@)),
        Json::Object(v) => JsonV::Object(fields_view(v@)),
    }
}

pub open spec fn items_view(s: Seq<Json>) -> Seq<JsonV>
    decreases s,
{
    if s.len() == 0 {
        Seq::empty()
    } else {
        items_view(s.drop_last()).push(json_view(s.last()))
    }
}

pub open spec fn fields_view(s: Seq<(String, Json)>) -> Map<Seq<char>, JsonV>
    decreases s,
{
    if s.len() == 0 {
        Map::empty()
    } else {
        fields_view(s.drop_last()).insert(s.last().0@, json_view(s.last().1))
    }
}

impl View for Json {
    type V = JsonV;

    open spec fn view(&self) -> JsonV {
        json_view(*self)
    }
}

/// The model of an empty object.
pub open spec fn no_fields() -> Map<Seq<char>, JsonV> {
    Map::empty()
}

/// The field `key` of a value that may be no object.
pub open spec fn field(j: JsonV, key: Seq<char>) -> Option<JsonV> {
    match j {
        JsonV::Object(m) => if m.dom().contains(key) {
            Some(m[key])
        } else {
            None
        },
        _ => None,
    }
}

/// The field `key` of an object.
pub open spec fn entry(m: Map<Seq<char>, JsonV>, key: Seq<char>) -> Option<JsonV> {
    if m.dom().contains(key) {
        Some(m[key])
    } else {
        None
    }
}

/// The text of a value that may be no string.
pub open spec fn as_text(j: Option<JsonV>) -> Option<Seq<char>> {
    match j {
        Some(JsonV::Str(s)) => Some(s),
        _ => None,
    }
}

/// The fields of a value that may be no object.
pub open spec fn as_fields(j: Option<JsonV>) -> Option<Map<Seq<char>, JsonV>> {
    match j {
        Some(JsonV::Object(m)) => Some(m),
        _ => None,
    }
}

proof fn lemma_items_view_index(s: Seq<Json>)
    ensures
        items_view(s).len() == s.len(),
        forall|i: int| 0 <= i < s.len() ==> #[trigger] items_view(s)[i] == json_view(s[i]),
    decreases s,
{
    if s.len() > 0 {
        lemma_items_view_index(s.drop_last());
        assert forall|i: int| 0 <= i < s.len() implies #[trigger] items_view(s)[i] == json_view(
            s[i],
        ) by {
            if i < s.len() - 1 {
                assert(items_view(s)[i] == items_view(s.drop_last())[i]);
                assert(s.drop_last()[i] == s[i]);
            }
        }
    }
}

/// The items of an array, one by one.
pub proof fn lemma_items(s: Seq<Json>)
    ensures
        items_view(s) == s.map_values(|j: Json| j@),
{
    lemma_items_view_index(s);
    assert(items_view(s) =~= s.map_values(|j: Json| j@));
}

/// No field of `s` from `from` on is called `key`.
spec fn absent_from(s: Seq<(String, Json)>, key: Seq<char>, from: int) -> bool {
    forall|j: int| from <= j < s.len() ==> (#[trigger] s[j]).0@ != key
}

proof fn lemma_last_field(s: Seq<(String, Json)>, key: Seq<char>, i: int)
    requires
        0 <= i < s.len(),
        s[i].0@ == key,
        absent_from(s, key, i + 1),
    ensures
        fields_view(s).dom().contains(key),
        fields_view(s)[key] == json_view(s[i].1),
    decreases s,
{
    if i < s.len() - 1 {
        let t = s.drop_last();
        assert forall|j: int| i + 1 <= j < t.len() implies (#[trigger] t[j]).0@ != key by {
            assert(t[j] == s[j]);
        }
        lemma_last_field(t, key, i);
        assert(s[s.len() - 1].0@ != key);
    }
}

proof fn lemma_absent_field(s: Seq<(String, Json)>, key: Seq<char>)
    requires
        absent_from(s, key, 0),
    ensures
        !fields_view(s).dom().contains(key),
    decreases s,
{
    if s.len() > 0 {
        let t = s.drop_last();
        assert forall|j: int| 0 <= j < t.len() implies (#[trigger] t[j]).0@ != key by {
            assert(t[j] == s[j]);
        }
        lemma_absent_field(t, key);
        assert(s[s.len() - 1].0@ != key);
    }
}

proof fn lemma_replace_field(s: Seq<(String, Json)>, i: int, f: (String, Json))
    requires
        0 <= i < s.len(),
        s[i].0@ == f.0@,
        absent_from(s, f.0@, i + 1),
    ensures
        fields_view(s.update(i, f)) == fields_view(s).insert(f.0@, json_view(f.1)),
    decreases s,
{
    let u = s.update(i, f);
    if i == s.len() - 1 {
        assert(u.drop_last() =~= s.drop_last());
        assert(fields_view(u) =~= fields_view(s).insert(f.0@, json_view(f.1)));
    } else {
        let t = s.drop_last();
        assert forall|j: int| i + 1 <= j < t.len() implies (#[trigger] t[j]).0@ != f.0@ by {
            assert(t[j] == s[j]);
        }
        lemma_replace_field(t, i, f);
        assert(u.drop_last() =~= t.update(i, f));
        assert(s[s.len() - 1].0@ != f.0@);
        assert(u.last() == s.last());
        assert(fields_view(u) =~= fields_view(s).insert(f.0@, json_view(f.1)));
    }
}

/// Adding a field at the end is insertion.
pub proof fn lemma_push_field(s: Seq<(String, Json)>, f: (String, Json))
    ensures
        fields_view(s.push(f)) == fields_view(s).insert(f.0@, json_view(f.1)),
{
    assert(s.push(f).drop_last() =~= s);
}

/// Every name of the model is the name of some field.
pub proof fn lemma_field_of_key(s: Seq<(String, Json)>, key: Seq<char>)
    ensures
        fields_view(s).dom().contains(key) <==> exists|i: int|
            0 <= i < s.len() && (#[trigger] s[i]).0@ == key,
    decreases s,
{
    if s.len() > 0 {
        lemma_field_of_key(s.drop_last(), key);
        if fields_view(s).dom().contains(key) && s.last().0@ != key {
            let i = choose|i: int|
                0 <= i < s.drop_last().len() && (#[trigger] s.drop_last()[i]).0@ == key;
            assert(s[i].0@ == key);
        }
        if s.last().0@ == key {
            assert(s[s.len() - 1].0@ == key);
        }
        if exists|i: int| 0 <= i < s.len() && (#[trigger] s[i]).0@ == key {
            let i = choose|i: int| 0 <= i < s.len() && (#[trigger] s[i]).0@ == key;
            if i < s.len() - 1 {
                assert(s.drop_last()[i].0@ == key);
            }
        }
    }
}

/// The position of the field that counts for `key`.
fn find_field(fields: &Vec<(String, Json)>, key: &str) -> (r: Option<usize>)
    ensures
        r matches Some(i) ==> {
            &&& i < fields.len()
            &&& fields@[i as int].0@ == key@
            &&& absent_from(fields@, key@, i + 1)
        },
        r is None ==> absent_from(fields@, key@, 0),
{
    let mut i: usize = fields.len();
    while i > 0
        invariant
            i <= fields.len(),
            absent_from(fields@, key@, i as int),
        decreases i,
    {
        i -= 1;
        if same_text(fields[i].0.as_str(), key) {
            return Some(i);
        }
    }
    None
}

/// The value of the field `key`, where the object has one.
pub fn get<'a>(fields: &'a Vec<(String, Json)>, key: &str) -> (r: Option<&'a Json>)
    ensures
        r is Some <==> fields_view(fields@).dom().contains(key@),
        r matches Some(j) ==> j@ == fields_view(fields@)[key@],
{
    match find_field(fields, key) {
        Some(i) => {
            proof {
                lemma_last_field(fields@, key@, i as int);
            }
            Some(&fields[i].1)
        },
        None => {
            proof {
                lemma_absent_field(fields@, key@);
            }
            None
        },
    }
}

/// No two fields have one name: written out, the object repeats none.
#[verifier::opaque]
pub open spec fn names_differ(s: Seq<(String, Json)>) -> bool {
    forall|i: int, j: int|
        #![trigger s[i], s[j]]
        0 <= i < j < s.len() ==> s[i].0@ != s[j].0@
}

/// Sets the field `key` to `value`. Where no name was repeated, none is.
pub fn put(fields: &mut Vec<(String, Json)>, key: String, value: Json)
    ensures
        fields_view(final(fields)@) == fields_view(old(fields)@).insert(key@, value@),
        names_differ(old(fields)@) ==> names_differ(final(fields)@),
{
    proof {
        reveal(names_differ);
    }
    match find_field(fields, key.as_str()) {
        Some(i) => {
            proof {
                lemma_replace_field(fields@, i as int, (key, value));
            }
            fields.set(i, (key, value));
        },
        None => {
            proof {
                lemma_push_field(fields@, (key, value));
            }
            fields.push((key, value));
        },
    }
}

/// Sets the field named by a literal.
pub fn put_str(fields: &mut Vec<(String, Json)>, key: &str, value: Json)
    ensures
        fields_view(final(fields)@) == fields_view(old(fields)@).insert(key@, value@),
        names_differ(old(fields)@) ==> names_differ(final(fields)@),
{
    put(fields, key.to_owned(), value);
}

/// Takes the field `key` out of the object, and every field of that name.
pub fn remove(fields: Vec<(String, Json)>, key: &str) -> (r: Vec<(String, Json)>)
    ensures
        fields_view(r@) == fields_view(fields@).remove(key@),
        names_differ(fields@) ==> names_differ(r@),
{
    let mut out: Vec<(String, Json)> = Vec::new();
    let ghost all = fields@;
    let mut rest = fields;
    let mut kept: Vec<(String, Json)> = Vec::new();
    proof {
        assert(rest@ + rev(kept@) =~= all);
    }
    // Moved out back to front, then turned round.
    while rest.len() > 0
        invariant
            all.len() >= rest@.len(),
            rest@ == all.take(rest@.len() as int),
            fields_view(all).remove(key@) == fields_view(rest@ + rev(kept@)).remove(key@),
            forall|j: int| 0 <= j < kept@.len() ==> (#[trigger] kept@[j]).0@ != key@,
            names_differ(all) ==> names_differ(rest@ + rev(kept@)),
        decreases rest.len(),
    {
        let ghost before = rest@;
        let f = rest.pop().unwrap();
        proof {
            assert(before =~= rest@.push(f));
            assert(rest@ =~= all.take(rest@.len() as int));
        }
        if same_text(f.0.as_str(), key) {
            proof {
                lemma_drop_named(rest@, f, rev(kept@), key@);
                assert(before + rev(kept@) =~= rest@.push(f) + rev(kept@));
                lemma_fewer_names(rest@, f, rev(kept@));
            }
        } else {
            proof {
                assert(before + rev(kept@) =~= rest@ + rev(kept@.push(f)));
            }
            kept.push(f);
        }
    }
    proof {
        assert(rest@ + rev(kept@) =~= rev(kept@));
    }
    let ghost whole = rev(kept@);
    while kept.len() > 0
        invariant
            whole == out@ + rev(kept@),
            forall|j: int| 0 <= j < kept@.len() ==> (#[trigger] kept@[j]).0@ != key@,
            forall|j: int| 0 <= j < out@.len() ==> (#[trigger] out@[j]).0@ != key@,
            fields_view(all).remove(key@) == fields_view(whole).remove(key@),
            names_differ(all) ==> names_differ(whole),
        decreases kept.len(),
    {
        let ghost before = kept@;
        let f = kept.pop().unwrap();
        proof {
            assert(before =~= kept@.push(f));
            assert(f == before[before.len() - 1]);
            assert(out@ + rev(before) =~= out@.push(f) + rev(kept@));
        }
        out.push(f);
    }
    proof {
        assert(whole =~= out@);
        lemma_absent_field(out@, key@);
        assert(fields_view(out@).remove(key@) =~= fields_view(out@));
    }
    out
}

spec fn rev(s: Seq<(String, Json)>) -> Seq<(String, Json)> {
    s.reverse()
}

proof fn lemma_fewer_names(a: Seq<(String, Json)>, f: (String, Json), b: Seq<(String, Json)>)
    ensures
        names_differ(a.push(f) + b) ==> names_differ(a + b),
{
    reveal(names_differ);
    let s = a.push(f) + b;
    let t = a + b;
    if names_differ(s) {
        assert forall|i: int, j: int|
            #![trigger t[i], t[j]]
            0 <= i < j < t.len() implies t[i].0@ != t[j].0@ by {
            let i0 = if i < a.len() {
                i
            } else {
                i + 1
            };
            let j0 = if j < a.len() {
                j
            } else {
                j + 1
            };
            assert(t[i] == s[i0] && t[j] == s[j0]);
        }
    }
}

/// A field called `key` does not matter to the map without `key`.
proof fn lemma_drop_named(
    a: Seq<(String, Json)>,
    f: (String, Json),
    b: Seq<(String, Json)>,
    key: Seq<char>,
)
    requires
        f.0@ == key,
    ensures
        fields_view(a.push(f) + b).remove(key) == fields_view(a + b).remove(key),
    decreases b,
{
    if b.len() == 0 {
        assert(a.push(f) + b =~= a.push(f));
        assert(a + b =~= a);
        lemma_push_field(a, f);
        assert(fields_view(a.push(f)).remove(key) =~= fields_view(a).remove(key));
    } else {
        let t = b.drop_last();
        lemma_drop_named(a, f, t, key);
        assert((a.push(f) + b).drop_last() =~= a.push(f) + t);
        assert((a + b).drop_last() =~= a + t);
        assert((a.push(f) + b).last() == b.last());
        assert((a + b).last() == b.last());
        let m1 = fields_view(a.push(f) + t);
        let m2 = fields_view(a + t);
        let k = b.last().0@;
        let v = json_view(b.last().1);
        let n1 = m1.insert(k, v).remove(key);
        let n2 = m2.insert(k, v).remove(key);
        let r1 = m1.remove(key);
        let r2 = m2.remove(key);
        assert(r1 == r2);
        assert forall|x: Seq<char>| #[trigger] n1.dom().contains(x) == n2.dom().contains(x) by {
            if x != key && x != k {
                assert(r1.dom().contains(x) == m1.dom().contains(x));
                assert(r2.dom().contains(x) == m2.dom().contains(x));
            }
        }
        assert forall|x: Seq<char>| #[trigger] n1.dom().contains(x) implies n1[x] == n2[x] by {
            if x != k {
                assert(n1[x] == m1[x]);
                assert(n2.dom().contains(x));
                assert(n2[x] == m2[x]);
                assert(r1.dom().contains(x));
                assert(r1[x] == m1[x]);
                assert(r2[x] == m2[x]);
            }
        }
        assert(n1 =~= n2);
        assert(fields_view(a.push(f) + b) == m1.insert(k, v));
        assert(fields_view(a + b) == m2.insert(k, v));
    }
}

impl Json {
    /// The string in the value, if it is one.
    pub fn as_str(&self) -> (r: Option<&str>)
        ensures
            r is Some <==> self@ is Str,
            r matches Some(s) ==> self@ == JsonV::Str(s@),
    {
        match self {
            Json::Str(s) => Some(s.as_str()),
            _ => None,
        }
    }

    /// The fields of the value, if it is an object.
    pub fn as_object(&self) -> (r: Option<&Vec<(String, Json)>>)
        ensures
            r is Some <==> self@ is Object,
            r matches Some(m) ==> self@ == JsonV::Object(fields_view(m@)),
    {
        match self {
            Json::Object(m) => Some(m),
            _ => None,
        }
    }

    /// The integer in the value, if it is one that fits an `i64`.
    pub fn as_i64(&self) -> (r: Option<i64>)
        ensures
            r is Some <==> (self@ matches JsonV::Int(i) && i64::MIN <= i <= i64::MAX),
            r matches Some(i) ==> self@ == JsonV::Int(i as int),
    {
        match self {
            Json::Int(i) => if i64::MIN as i128 <= *i && *i <= i64::MAX as i128 {
                Some(*i as i64)
            } else {
                None
            },
            _ => None,
        }
    }

    /// The integer in the value, if it is one that fits a `u64`.
    pub fn as_u64(&self) -> (r: Option<u64>)
        ensures
            r is Some <==> (self@ matches JsonV::Int(i) && 0 <= i <= u64::MAX),
            r matches Some(i) ==> self@ == JsonV::Int(i as int),
    {
        match self {
            Json::Int(i) => if 0 <= *i && *i <= u64::MAX as i128 {
                Some(*i as u64)
            } else {
                None
            },
            _ => None,
        }
    }

    /// The items of the value, if it is an array.
    pub fn as_array(&self) -> (r: Option<&Vec<Json>>)
        ensures
            r is Some <==> self@ is Array,
            r matches Some(v) ==> self@ == JsonV::Array(items_view(v@)),
    {
        match self {
            Json::Array(v) => Some(v),
            _ => None,
        }
    }

    /// The field `key` of the value, if it is an object that has it.
    pub fn get(&self, key: &str) -> (r: Option<&Json>)
        ensures
            r is Some <==> field(self@, key@) is Some,
            r matches Some(j) ==> field(self@, key@) == Some(j@),
    {
        match self {
            Json::Object(m) => get(m, key),
            _ => None,
        }
    }

    /// The string in the field `key`.
    pub fn get_str(&self, key: &str) -> (r: Option<&str>)
        ensures
            r is Some <==> as_text(field(self@, key@)) is Some,
            r matches Some(s) ==> as_text(field(self@, key@)) == Some(s@),
    {
        match self.get(key) {
            Some(j) => j.as_str(),
            None => None,
        }
    }

    /// A value with the same content.
    pub fn copy(&self) -> (r: Json)
        ensures
            r@ == self@,
        decreases self,
    {
        match self {
            Json::Null => Json::Null,
            Json::Bool(b) => Json::Bool(*b),
            Json::Int(i) => Json::Int(*i),
            Json::Number(s) => Json::Number(s.as_str().to_owned()),
            Json::Str(s) => Json::Str(s.as_str().to_owned()),
            Json::Array(v) => {
                let mut out: Vec<Json> = Vec::new();
                let mut i: usize = 0;
                while i < v.len()
                    invariant
                        i <= v.len(),
                        *self == Json::Array(*v),
                        items_view(out@) == items_view(v@.take(i as int)),
                    decreases v.len() - i,
                {
                    proof {
                        assert(v@.take(i + 1).drop_last() =~= v@.take(i as int));
                        assert(decreases_to!(*self => self->Array_0));
                        assert(decreases_to!(*v => v@));
                        assert(decreases_to!(v@ => v@[i as int]));
                    }
                    let j = v[i].copy();
                    proof {
                        assert(out@.push(j).drop_last() =~= out@);
                    }
                    out.push(j);
                    i += 1;
                }
                proof {
                    assert(v@.take(v@.len() as int) =~= v@);
                }
                Json::Array(out)
            },
            Json::Object(v) => {
                let mut out: Vec<(String, Json)> = Vec::new();
                let mut i: usize = 0;
                while i < v.len()
                    invariant
                        i <= v.len(),
                        *self == Json::Object(*v),
                        fields_view(out@) == fields_view(v@.take(i as int)),
                    decreases v.len() - i,
                {
                    proof {
                        assert(v@.take(i + 1).drop_last() =~= v@.take(i as int));
                        assert(decreases_to!(*self => self->Object_0));
                        assert(decreases_to!(*v => v@));
                        assert(decreases_to!(v@ => v@[i as int]));
                        assert(decreases_to!(v@[i as int] => v@[i as int].1));
                    }
                    let j = v[i].1.copy();
                    let k = v[i].0.as_str().to_owned();
                    proof {
                        assert(out@.push((k, j)).drop_last() =~= out@);
                    }
                    out.push((k, j));
                    i += 1;
                }
                proof {
                    assert(v@.take(v@.len() as int) =~= v@);
                }
                Json::Object(out)
            },
        }
    }
}

/// The largest integer that canonical JSON can hold.
pub const MAX_SAFE_INT: i64 = 9_007_199_254_740_991;

pub open spec fn is_safe_int(i: int) -> bool {
    -MAX_SAFE_INT <= i <= MAX_SAFE_INT
}

/// Can canonical JSON hold a value? Its numbers are integers, and not too large.
pub open spec fn is_canonical(j: JsonV) -> bool
    decreases j,
{
    match j {
        JsonV::Int(i) => is_safe_int(i),
        JsonV::Number(_) => false,
        JsonV::Array(items) => forall|i: int|
            0 <= i < items.len() ==> is_canonical(#[trigger] items[i]),
        JsonV::Object(m) => forall|key: Seq<char>|
            m.dom().contains(key) ==> is_canonical(#[trigger] m[key]),
        _ => true,
    }
}

/// Can canonical JSON hold a value?
pub fn canonical(j: &Json) -> (r: bool)
    ensures
        r == is_canonical(j@),
    decreases j,
{
    match j {
        Json::Int(i) => -(MAX_SAFE_INT as i128) <= *i && *i <= MAX_SAFE_INT as i128,
        Json::Number(_) => false,
        Json::Array(v) => {
            let mut i: usize = 0;
            proof {
                lemma_items_view_index(v@);
            }
            while i < v.len()
                invariant
                    i <= v.len(),
                    *j == Json::Array(*v),
                    items_view(v@).len() == v@.len(),
                    forall|k: int|
                        0 <= k < v@.len() ==> #[trigger] items_view(v@)[k] == json_view(v@[k]),
                    forall|k: int| 0 <= k < i ==> is_canonical(#[trigger] items_view(v@)[k]),
                decreases v.len() - i,
            {
                proof {
                    assert(decreases_to!(*j => j->Array_0));
                    assert(decreases_to!(*v => v@));
                    assert(decreases_to!(v@ => v@[i as int]));
                    assert(items_view(v@)[i as int] == v@[i as int]@);
                }
                if !canonical(&v[i]) {
                    proof {
                        assert(!is_canonical(j@->Array_0[i as int]));
                    }
                    return false;
                }
                i += 1;
            }
            true
        },
        Json::Object(v) => {
            let mut i: usize = 0;
            while i < v.len()
                invariant
                    i <= v.len(),
                    *j == Json::Object(*v),
                    forall|k: int|
                        0 <= k < i && absent_from(v@, (#[trigger] v@[k]).0@, k + 1) ==> is_canonical(
                            json_view(v@[k].1),
                        ),
                decreases v.len() - i,
            {
                proof {
                    assert(decreases_to!(*j => j->Object_0));
                    assert(decreases_to!(*v => v@));
                    assert(decreases_to!(v@ => v@[i as int]));
                    assert(decreases_to!(v@[i as int] => v@[i as int].1));
                }
                let counts = match find_field(v, v[i].0.as_str()) {
                    Some(k) => k == i,
                    None => false,
                };
                if counts {
                    proof {
                        lemma_last_field(v@, v@[i as int].0@, i as int);
                    }
                    if !canonical(&v[i].1) {
                        proof {
                            assert(!is_canonical(j@->Object_0[v@[i as int].0@]));
                        }
                        return false;
                    }
                }
                i += 1;
            }
            proof {
                let m = fields_view(v@);
                assert forall|key: Seq<char>| m.dom().contains(key) implies is_canonical(
                    #[trigger] m[key],
                ) by {
                    let k = lemma_counting_field(v@, key);
                    lemma_last_field(v@, key, k);
                }
            }
            true
        },
        _ => true,
    }
}

/// Where the field stands that counts for a name.
proof fn lemma_counting_field(s: Seq<(String, Json)>, key: Seq<char>) -> (k: int)
    requires
        fields_view(s).dom().contains(key),
    ensures
        0 <= k < s.len(),
        s[k].0@ == key,
        absent_from(s, key, k + 1),
    decreases s,
{
    if s.last().0@ == key {
        s.len() - 1
    } else {
        let t = s.drop_last();
        let k = lemma_counting_field(t, key);
        assert(s[k] == t[k]);
        assert forall|j: int| k + 1 <= j < s.len() implies (#[trigger] s[j]).0@ != key by {
            if j < t.len() {
                assert(t[j] == s[j]);
            }
        }
        k
    }
}

/// An object with one field.
pub open spec fn one_field(key: Seq<char>, value: JsonV) -> JsonV {
    JsonV::Object(no_fields().insert(key, value))
}

/// An object with one field.
pub fn object_of(key: &str, value: Json) -> (r: Json)
    ensures
        r@ == one_field(key@, value@),
{
    let mut fields: Vec<(String, Json)> = Vec::new();
    put_str(&mut fields, key, value);
    Json::Object(fields)
}

/// An array with one item.
pub fn array_of(item: Json) -> (r: Json)
    ensures
        r@ == JsonV::Array(seq![item@]),
{
    let mut items: Vec<Json> = Vec::new();
    items.push(item);
    proof {
        lemma_items(items@);
        assert(items_view(items@) =~= seq![item@]);
    }
    Json::Array(items)
}

/// A string value.
pub fn text_json(s: &str) -> (r: Json)
    ensures
        r@ == JsonV::Str(s@),
{
    Json::Str(s.to_owned())
}

/// Fields with the same content.
pub fn copy_fields(fields: &Vec<(String, Json)>) -> (r: Vec<(String, Json)>)
    ensures
        fields_view(r@) == fields_view(fields@),
        names_differ(fields@) ==> names_differ(r@),
{
    let mut out: Vec<(String, Json)> = Vec::new();
    let mut i: usize = 0;
    while i < fields.len()
        invariant
            i <= fields.len(),
            fields_view(out@) == fields_view(fields@.take(i as int)),
            out@.len() == i,
            forall|k: int| 0 <= k < i ==> (#[trigger] out@[k]).0@ == fields@[k].0@,
        decreases fields.len() - i,
    {
        proof {
            assert(fields@.take(i + 1).drop_last() =~= fields@.take(i as int));
        }
        let f = (fields[i].0.as_str().to_owned(), fields[i].1.copy());
        proof {
            assert(out@.push(f).drop_last() =~= out@);
        }
        out.push(f);
        i += 1;
    }
    proof {
        assert(fields@.take(fields@.len() as int) =~= fields@);
        reveal(names_differ);
        if names_differ(fields@) {
            assert forall|a: int, b: int|
                #![trigger out@[a], out@[b]]
                0 <= a < b < out@.len() implies out@[a].0@ != out@[b].0@ by {
                assert(fields@[a].0@ != fields@[b].0@);
            }
        }
    }
    out
}

/// Fields with the same content, and each name once: of fields with one name the
/// last one counts.
pub fn tidy_fields(fields: &Vec<(String, Json)>) -> (r: Vec<(String, Json)>)
    ensures
        fields_view(r@) == fields_view(fields@),
        names_differ(r@),
{
    let mut out: Vec<(String, Json)> = Vec::new();
    proof {
        reveal(names_differ);
    }
    let mut i: usize = 0;
    while i < fields.len()
        invariant
            i <= fields.len(),
            fields_view(out@) == fields_view(fields@.take(i as int)),
            names_differ(out@),
        decreases fields.len() - i,
    {
        proof {
            assert(fields@.take(i + 1).drop_last() =~= fields@.take(i as int));
        }
        put(&mut out, fields[i].0.as_str().to_owned(), fields[i].1.copy());
        i += 1;
    }
    proof {
        assert(fields@.take(fields@.len() as int) =~= fields@);
    }
    out
}

/// The strings among the items of an array, in order.
pub open spec fn strings_among(items: Seq<JsonV>) -> Seq<Seq<char>>
    decreases items.len(),
{
    if items.len() == 0 {
        Seq::empty()
    } else {
        let init = strings_among(items.drop_last());
        match items.last() {
            JsonV::Str(s) => init.push(s),
            _ => init,
        }
    }
}

/// The strings in a value that may be no array.
pub open spec fn strings_in(j: Option<JsonV>) -> Seq<Seq<char>> {
    match j {
        Some(JsonV::Array(items)) => strings_among(items),
        _ => Seq::empty(),
    }
}

/// The strings among the items of an array.
pub fn read_strings(items: &Vec<Json>) -> (r: Vec<String>)
    ensures
        crate::text::texts(r@) == strings_among(items_view(items@)),
{
    let mut out: Vec<String> = Vec::new();
    let mut i: usize = 0;
    proof {
        lemma_items(items@);
        assert(crate::text::texts(out@) =~= strings_among(items_view(items@).take(0)));
    }
    while i < items.len()
        invariant
            i <= items.len(),
            items_view(items@) == items@.map_values(|j: Json| j@),
            crate::text::texts(out@) == strings_among(items_view(items@).take(i as int)),
        decreases items.len() - i,
    {
        proof {
            let v = items_view(items@);
            assert(v.take(i + 1).drop_last() =~= v.take(i as int));
            assert(v.take(i + 1).last() == items@[i as int]@);
        }
        match items[i].as_str() {
            Some(s) => {
                let t = s.to_owned();
                proof {
                    assert(crate::text::texts(out@.push(t)) =~= crate::text::texts(out@).push(t@));
                }
                out.push(t);
            },
            None => {},
        }
        i += 1;
    }
    proof {
        let v = items_view(items@);
        assert(v.take(v.len() as int) =~= v);
    }
    out
}

/// The strings in an optional value that may be no array.
pub fn read_strings_in(j: Option<&Json>) -> (r: Vec<String>)
    ensures
        crate::text::texts(r@) == strings_in(
            match j {
                Some(x) => Some(x@),
                None => None,
            },
        ),
{
    match j {
        Some(x) => match x.as_array() {
            Some(items) => read_strings(items),
            None => no_strings(),
        },
        None => no_strings(),
    }
}

fn no_strings() -> (r: Vec<String>)
    ensures
        crate::text::texts(r@) == Seq::<Seq<char>>::empty(),
{
    let r: Vec<String> = Vec::new();
    proof {
        assert(crate::text::texts(r@) =~= Seq::<Seq<char>>::empty());
    }
    r
}

/// The integer in a value, where it is one that fits 64 bits with a sign.
pub open spec fn as_int64(j: Option<JsonV>) -> Option<int> {
    match j {
        Some(JsonV::Int(i)) => if i64::MIN <= i <= i64::MAX {
            Some(i)
        } else {
            None
        },
        _ => None,
    }
}

/// The field of a field.
pub open spec fn field2(j: JsonV, a: Seq<char>, b: Seq<char>) -> Option<JsonV> {
    match field(j, a) {
        Some(x) => field(x, b),
        None => None,
    }
}

impl Json {
    /// The field `b` of the field `a`.
    pub fn get2(&self, a: &str, b: &str) -> (r: Option<&Json>)
        ensures
            r is Some <==> field2(self@, a@, b@) is Some,
            r matches Some(j) ==> field2(self@, a@, b@) == Some(j@),
    {
        match self.get(a) {
            Some(x) => x.get(b),
            None => None,
        }
    }
}

/// Is a value the boolean `true`?
pub open spec fn is_true(j: Option<JsonV>) -> bool {
    j == Some(JsonV::Bool(true))
}

/// Is a value the boolean `true`?
pub fn flag_set(j: Option<&Json>) -> (r: bool)
    ensures
        r == is_true(
            match j {
                Some(x) => Some(x@),
                None => None,
            },
        ),
{
    match j {
        Some(Json::Bool(b)) => *b,
        _ => false,
    }
}

/// The 64-bit integer in an optional value.
pub fn read_int64(j: Option<&Json>) -> (r: Option<i64>)
    ensures
        ({
            let v = match j {
                Some(x) => Some(x@),
                None => None,
            };
            &&& r is Some <==> as_int64(v) is Some
            &&& r matches Some(i) ==> as_int64(v) == Some(i as int)
        }),
{
    match j {
        Some(x) => x.as_i64(),
        None => None,
    }
}

/// Does an earlier field have the name of the field at `i`?
pub open spec fn named_before(s: Seq<(String, Json)>, i: int) -> bool {
    exists|j: int| 0 <= j < i && (#[trigger] s[j]).0@ == s[i].0@
}

/// Does an earlier field have the name of the field at `i`?
pub fn is_repeated(s: &Vec<(String, Json)>, i: usize) -> (r: bool)
    requires
        i < s@.len(),
    ensures
        r == named_before(s@, i as int),
{
    let mut j: usize = 0;
    while j < i
        invariant
            j <= i,
            i < s@.len(),
            forall|k: int| 0 <= k < j ==> (#[trigger] s@[k]).0@ != s@[i as int].0@,
        decreases i - j,
    {
        if same_text(s[j].0.as_str(), s[i].0.as_str()) {
            return true;
        }
        j += 1;
    }
    false
}

/// A name is repeated where the fields before it have it.
pub proof fn lemma_named_before(s: Seq<(String, Json)>, i: int)
    requires
        0 <= i < s.len(),
    ensures
        named_before(s, i) <==> fields_view(s.take(i)).dom().contains(s[i].0@),
{
    lemma_field_of_key(s.take(i), s[i].0@);
    if fields_view(s.take(i)).dom().contains(s[i].0@) {
        let j = choose|j: int| 0 <= j < i && (#[trigger] s.take(i)[j]).0@ == s[i].0@;
        assert(s[j].0@ == s[i].0@);
    }
    if named_before(s, i) {
        let j = choose|j: int| 0 <= j < i && (#[trigger] s[j]).0@ == s[i].0@;
        assert(s.take(i)[j].0@ == s[i].0@);
    }
}

/// The strings among values are those that are strings, in their order.
pub proof fn law_strings_are_picked_out(
    a: Seq<JsonV>,
    b: Seq<JsonV>,
    x: JsonV,
)
    ensures
        strings_among(a + b) == strings_among(a) + strings_among(b),
        strings_among(seq![x]) == (match x {
            JsonV::Str(s) => seq![s],
            _ => Seq::empty(),
        }),
    decreases b.len(),
{
    reveal_with_fuel(strings_among, 2);
    assert(seq![x].drop_last() =~= Seq::<JsonV>::empty());
    if b.len() == 0 {
        assert(a + b =~= a);
    } else {
        law_strings_are_picked_out(a, b.drop_last(), x);
        assert((a + b).drop_last() =~= a + b.drop_last());
        assert((a + b).last() == b.last());
    }

    assert(strings_among(a + b) =~= strings_among(a) + strings_among(b));
}

/// The last field of a name counts, and a value has no other fields than those
/// that are written.
pub proof fn law_the_last_field_counts(s: Seq<(String, Json)>, i: int, k: Seq<char>)
    ensures
        0 <= i < s.len() && (forall|j: int| i < j < s.len() ==> (#[trigger] s[j]).0@ != s[i].0@)
            ==> field(JsonV::Object(fields_view(s)), s[i].0@) == Some(s[i].1@),
        (forall|j: int| 0 <= j < s.len() ==> (#[trigger] s[j]).0@ != k) ==> field(
            JsonV::Object(fields_view(s)),
            k,
        ) is None,
    decreases s.len(),
{
    if s.len() > 0 {
        let init = s.drop_last();
        law_the_last_field_counts(init, i, k);
        assert(s[s.len() - 1] == s.last());
        assert forall|j: int| 0 <= j < init.len() implies #[trigger] init[j] == s[j] by {}
    }
}

/// What canonical JSON holds: whole numbers that a double holds exactly, and
/// lists and objects of what it holds.
pub proof fn law_canonical_numbers_are_whole(
    i: int,
    t: Seq<char>,
    items: Seq<JsonV>,
    m: Map<Seq<char>, JsonV>,
)
    ensures
        is_canonical(JsonV::Int(i)) <==> -9007199254740991 <= i <= 9007199254740991,
        !is_canonical(JsonV::Number(t)),
        is_canonical(JsonV::Str(t)),
        is_canonical(JsonV::Array(items)) <==> forall|k: int|
            0 <= k < items.len() ==> is_canonical(#[trigger] items[k]),
        is_canonical(JsonV::Object(m)) <==> forall|k: Seq<char>|
            m.dom().contains(k) ==> is_canonical(#[trigger] m[k]),
{
    let a = JsonV::Array(items);
    let o = JsonV::Object(m);
    if is_canonical(a) {
        assert forall|k: int| 0 <= k < items.len() implies is_canonical(#[trigger] items[k]) by {
            assert(is_canonical(a->Array_0[k]));
        }
    }
    if is_canonical(o) {
        assert forall|k: Seq<char>| m.dom().contains(k) implies is_canonical(#[trigger] m[k]) by {
            assert(is_canonical(o->Object_0[k]));
        }
    }
    if !is_canonical(a) {
        let k = choose|k: int|
            0 <= k < a->Array_0.len() && !is_canonical(#[trigger] a->Array_0[k]);
        assert(!is_canonical(items[k]));
    }
    if !is_canonical(o) {
        let k = choose|k: Seq<char>|
            o->Object_0.dom().contains(k) && !is_canonical(#[trigger] o->Object_0[k]);
        assert(!is_canonical(m[k]));
    }
}

/// A number is read as a 64-bit integer exactly where it is one.
pub proof fn law_numbers_are_read_in_range(i: int, t: Seq<char>)
    ensures
        -0x8000_0000_0000_0000 <= i <= 0x7fff_ffff_ffff_ffff ==> as_int64(Some(JsonV::Int(i)))
            == Some(i),
        !(-0x8000_0000_0000_0000 <= i <= 0x7fff_ffff_ffff_ffff) ==> as_int64(
            Some(JsonV::Int(i)),
        ) is None,
        as_int64(Some(JsonV::Str(t))) is None,
        as_int64(None) is None,
{
}

} // verus!

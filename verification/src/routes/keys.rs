//! Device keys: uploading, querying and claiming them, and which users' device
//! lists have changed. Key material is opaque; the server stores it and hands
//! it out.
use crate::error::{bad_json, invalid_param, outcome, ApiError, ApiErrorV};
use crate::ids::{check_user_id, is_user_id, server_in, server_part};
use crate::json::{as_text, copy_fields, entry, field, field2, fields_view, get, is_repeated, items_view, lemma_field_of_key,
    lemma_named_before, names_differ, no_fields, object_of,
    one_field, put, put_str, read_strings, strings_among, text_json, tidy_fields, Json, JsonV};
use crate::order::{ascending, in_order};
use crate::routes::account::RoomMembership;
use crate::routes::relations::fields_or_none;
use crate::routes::sync::{read_token, token_user_seq};
use crate::text::{cut_at, join_texts, list_has, query_get, query_value, same_text, split_once, texts};
use vstd::prelude::*;

verus! {

// -- whose users --------------------------------------------------------------

/// Is a user ours? IDs that do not parse are treated as ours: nothing is stored
/// under them.
pub open spec fn is_ours(user: Seq<char>, our_name: Seq<char>) -> bool {
    !is_user_id(user) || server_in(user) == Some(our_name) || server_in(user) is None
}

/// Whether a user ID belongs to this server.
pub fn is_local(user_id: &str, our_name: &str) -> (r: bool)
    ensures
        r == is_ours(user_id@, our_name@),
{
    if check_user_id(user_id).is_err() {
        return true;
    }
    match server_part(user_id) {
        Some(s) => same_text(s.as_str(), our_name),
        None => true,
    }
}

/// The requests for other servers with one more user in them.
pub open spec fn with_user(
    remote: Map<Seq<char>, JsonV>,
    server: Seq<char>,
    user: Seq<char>,
    devices: JsonV,
) -> Map<Seq<char>, JsonV> {
    remote.insert(
        server,
        JsonV::Object(fields_or_none(entry(remote, server)).insert(user, devices)),
    )
}

/// Adds a user to the requests for other servers. Each server has one request.
pub fn add_user(remote: &mut Vec<(String, Json)>, server: &str, user: &str, devices: Json)
    ensures
        fields_view(final(remote)@) == with_user(
            fields_view(old(remote)@),
            server@,
            user@,
            devices@,
        ),
        names_differ(old(remote)@) ==> names_differ(final(remote)@),
{
    let mut users: Vec<(String, Json)> = match get(remote, server) {
        Some(Json::Object(m)) => tidy_fields(m),
        _ => Vec::new(),
    };
    put_str(&mut users, user, devices);
    put_str(remote, server, Json::Object(users));
}

/// Is this one of the users of another server that were asked about?
pub open spec fn asked_of(seen: Set<Seq<char>>, our_name: Seq<char>, server: Seq<char>, u: Seq<char>) -> bool {
    seen.contains(u) && !is_ours(u, our_name) && server_in(u) == Some(server)
}

/// What is asked of other servers: each is asked about its own users.
pub open spec fn remote_requests(
    requested: Map<Seq<char>, JsonV>,
    seen: Set<Seq<char>>,
    our_name: Seq<char>,
) -> Map<Seq<char>, JsonV> {
    Map::new(
        |s: Seq<char>| exists|u: Seq<char>| #[trigger] asked_of(seen, our_name, s, u),
        |s: Seq<char>| JsonV::Object(users_of(requested, seen, our_name, s)),
    )
}

/// What one server is asked about its users.
pub open spec fn users_of(
    requested: Map<Seq<char>, JsonV>,
    seen: Set<Seq<char>>,
    our_name: Seq<char>,
    server: Seq<char>,
) -> Map<Seq<char>, JsonV> {
    Map::new(|u: Seq<char>| asked_of(seen, our_name, server, u), |u: Seq<char>| requested[u])
}

proof fn lemma_remote_grows(
    requested: Map<Seq<char>, JsonV>,
    seen: Set<Seq<char>>,
    our_name: Seq<char>,
    u: Seq<char>,
    server: Seq<char>,
)
    requires
        !is_ours(u, our_name),
        server_in(u) == Some(server),
    ensures
        remote_requests(requested, seen.insert(u), our_name) == with_user(
            remote_requests(requested, seen, our_name),
            server,
            u,
            requested[u],
        ),
{
    let a = remote_requests(requested, seen.insert(u), our_name);
    let old_map = remote_requests(requested, seen, our_name);
    let b = with_user(old_map, server, u, requested[u]);
    assert(asked_of(seen.insert(u), our_name, server, u));
    assert forall|s: Seq<char>| a.dom().contains(s) <==> b.dom().contains(s) by {
        if a.dom().contains(s) {
            let v = choose|v: Seq<char>| #[trigger] asked_of(seen.insert(u), our_name, s, v);
            if v != u {
                assert(asked_of(seen, our_name, s, v));
            }
        }
        if b.dom().contains(s) && s != server {
            let v = choose|v: Seq<char>| #[trigger] asked_of(seen, our_name, s, v);
            assert(asked_of(seen.insert(u), our_name, s, v));
        }
    }
    assert forall|s: Seq<char>| #[trigger] a.dom().contains(s) implies a[s] == b[s] by {
        let x = users_of(requested, seen.insert(u), our_name, s);
        let y = users_of(requested, seen, our_name, s);
        if s == server {
            let prior = fields_or_none(entry(old_map, server));
            if old_map.dom().contains(server) {
                assert(prior == y);
            } else {
                assert forall|v: Seq<char>| !#[trigger] y.dom().contains(v) by {
                    if y.dom().contains(v) {
                        assert(asked_of(seen, our_name, server, v));
                    }
                }
                assert(y =~= no_fields());
            }
            assert(x =~= y.insert(u, requested[u]));
        } else {
            assert(x =~= y);
        }
    }
    assert(a =~= b);
}

proof fn lemma_remote_same(
    requested: Map<Seq<char>, JsonV>,
    seen: Set<Seq<char>>,
    our_name: Seq<char>,
    u: Seq<char>,
)
    requires
        is_ours(u, our_name),
    ensures
        remote_requests(requested, seen.insert(u), our_name) == remote_requests(
            requested,
            seen,
            our_name,
        ),
{
    let a = remote_requests(requested, seen.insert(u), our_name);
    let b = remote_requests(requested, seen, our_name);
    assert forall|s: Seq<char>| a.dom().contains(s) <==> b.dom().contains(s) by {
        if a.dom().contains(s) {
            let v = choose|v: Seq<char>| #[trigger] asked_of(seen.insert(u), our_name, s, v);
            assert(asked_of(seen, our_name, s, v));
        }
        if b.dom().contains(s) {
            let v = choose|v: Seq<char>| #[trigger] asked_of(seen, our_name, s, v);
            assert(asked_of(seen.insert(u), our_name, s, v));
        }
    }
    assert forall|s: Seq<char>| #[trigger] a.dom().contains(s) implies a[s] == b[s] by {
        assert(users_of(requested, seen.insert(u), our_name, s) =~= users_of(
            requested,
            seen,
            our_name,
            s,
        ));
    }
    assert(a =~= b);
}

// -- uploading ----------------------------------------------------------------

/// What an upload of keys stores.
#[derive(Debug)]
pub struct KeyUpload {
    pub device_keys: Option<Json>,
    pub one_time_keys: Vec<(String, Json)>,
}

/// The first of the fields that identity keys must have and do not.
pub open spec fn missing_field(m: Map<Seq<char>, JsonV>) -> Option<Seq<char>> {
    if !m.dom().contains("user_id"@) {
        Some("user_id"@)
    } else if !m.dom().contains("device_id"@) {
        Some("device_id"@)
    } else if !m.dom().contains("algorithms"@) {
        Some("algorithms"@)
    } else if !m.dom().contains("keys"@) {
        Some("keys"@)
    } else if !m.dom().contains("signatures"@) {
        Some("signatures"@)
    } else {
        None
    }
}

/// What is wrong with the identity keys of an upload. They must be well-formed
/// and belong to the uploading session.
pub open spec fn identity_fault(keys: JsonV, user: Seq<char>, device: Seq<char>) -> Option<
    ApiErrorV,
> {
    match keys {
        JsonV::Object(m) => match missing_field(m) {
            Some(f) => Some(bad_json("device_keys missing "@ + f)),
            None => if as_text(entry(m, "user_id"@)) != Some(user) || as_text(
                entry(m, "device_id"@),
            ) != Some(device) {
                Some(bad_json("device_keys do not belong to this session"@))
            } else {
                None
            },
        },
        _ => Some(bad_json("device_keys is not an object"@)),
    }
}

fn text_is(m: &Vec<(String, Json)>, key: &str, want: &str) -> (r: bool)
    ensures
        r == (as_text(entry(fields_view(m@), key@)) == Some(want@)),
{
    match get(m, key) {
        Some(j) => match j.as_str() {
            Some(s) => same_text(s, want),
            None => false,
        },
        None => false,
    }
}

fn absent_field(m: &Vec<(String, Json)>) -> (r: Option<&'static str>)
    ensures
        match missing_field(fields_view(m@)) {
            Some(f) => r matches Some(s) && s@ == f,
            None => r is None,
        },
{
    if get(m, "user_id").is_none() {
        Some("user_id")
    } else if get(m, "device_id").is_none() {
        Some("device_id")
    } else if get(m, "algorithms").is_none() {
        Some("algorithms")
    } else if get(m, "keys").is_none() {
        Some("keys")
    } else if get(m, "signatures").is_none() {
        Some("signatures")
    } else {
        None
    }
}

fn check_identity(keys: &Json, user_id: &str, device_id: &str) -> (r: Result<(), ApiError>)
    ensures
        match identity_fault(keys@, user_id@, device_id@) {
            Some(x) => r matches Err(e) && e@ == x,
            None => r is Ok,
        },
{
    let m = match keys.as_object() {
        Some(m) => m,
        None => {
            return Err(ApiError::bad_json("device_keys is not an object"));
        },
    };
    match absent_field(m) {
        Some(f) => {
            let message = join_texts("device_keys missing ", f);
            return Err(ApiError::bad_json(message.as_str()));
        },
        None => {},
    }
    if !text_is(m, "user_id", user_id) || !text_is(m, "device_id", device_id) {
        return Err(ApiError::bad_json("device_keys do not belong to this session"));
    }
    Ok(())
}

/// What an upload of keys stores, or what is wrong with it.
pub fn upload_keys(body: &Vec<(String, Json)>, user_id: &str, device_id: &str) -> (r: Result<
    KeyUpload,
    ApiError,
>)
    ensures
        ({
            let m = fields_view(body@);
            let keys = entry(m, "device_keys"@);
            if keys matches Some(k) && identity_fault(k, user_id@, device_id@) is Some {
                r matches Err(e) && Some(e@) == identity_fault(keys->0, user_id@, device_id@)
            } else {
                &&& r matches Ok(u)
                &&& match keys {
                    Some(k) => u.device_keys matches Some(j) && j@ == k,
                    None => u.device_keys is None,
                }
                &&& fields_view(u.one_time_keys@) == fields_or_none(entry(m, "one_time_keys"@))
                &&& names_differ(u.one_time_keys@)
            }
        }),
{
    let device_keys = match get(body, "device_keys") {
        Some(k) => {
            match check_identity(k, user_id, device_id) {
                Ok(()) => {},
                Err(e) => {
                    return Err(e);
                },
            }
            Some(k.copy())
        },
        None => None,
    };
    proof {
        reveal(names_differ);
    }
    let one_time_keys: Vec<(String, Json)> = match get(body, "one_time_keys") {
        Some(Json::Object(m)) => tidy_fields(m),
        _ => Vec::new(),
    };
    Ok(KeyUpload { device_keys, one_time_keys })
}

/// Identity keys are stored only for the session that uploads them.
pub proof fn law_keys_belong_to_the_session(keys: JsonV, user: Seq<char>, device: Seq<char>)
    requires
        identity_fault(keys, user, device) is None,
    ensures
        keys matches JsonV::Object(m) && entry(m, "user_id"@) == Some(JsonV::Str(user)) && entry(
            m,
            "device_id"@,
        ) == Some(JsonV::Str(device)),
{
}

/// The number of one-time keys left, per algorithm.
pub open spec fn counts_json(counts: Seq<(String, u64)>) -> Map<Seq<char>, JsonV>
    decreases counts.len(),
{
    if counts.len() == 0 {
        no_fields()
    } else {
        counts_json(counts.drop_last()).insert(
            counts.last().0@,
            JsonV::Int(counts.last().1 as int),
        )
    }
}

/// The algorithm that the name of a one-time key begins with.
pub open spec fn algorithm_of(name: Seq<char>) -> Seq<char> {
    match cut_at(name, ':') {
        Some((algorithm, _)) => algorithm,
        None => name,
    }
}

/// Counts in which the algorithms of some keys stand too, with 0 where they had
/// none.
pub open spec fn with_algorithms(m: Map<Seq<char>, JsonV>, names: Seq<Seq<char>>) -> Map<
    Seq<char>,
    JsonV,
>
    decreases names.len(),
{
    if names.len() == 0 {
        m
    } else {
        let init = with_algorithms(m, names.drop_last());
        let a = algorithm_of(names.last());
        if init.dom().contains(a) {
            init
        } else {
            init.insert(a, JsonV::Int(0))
        }
    }
}

/// The answer to an upload of keys: the counts, and among them those of the
/// algorithms that were uploaded, even where they are zero.
pub fn key_counts(counts: &Vec<(String, u64)>, uploaded: &Vec<String>) -> (r: Json)
    ensures
        r@ == one_field(
            "one_time_key_counts"@,
            JsonV::Object(with_algorithms(counts_json(counts@), texts(uploaded@))),
        ),
{
    let mut m: Vec<(String, Json)> = Vec::new();
    let mut i: usize = 0;
    while i < counts.len()
        invariant
            i <= counts.len(),
            fields_view(m@) == counts_json(counts@.take(i as int)),
        decreases counts.len() - i,
    {
        proof {
            assert(counts@.take(i + 1).drop_last() =~= counts@.take(i as int));
        }
        put(&mut m, counts[i].0.as_str().to_owned(), Json::Int(counts[i].1 as i128));
        i += 1;
    }
    let ghost base = counts_json(counts@);
    let ghost names = texts(uploaded@);
    proof {
        assert(counts@.take(counts@.len() as int) =~= counts@);
        assert(names.take(0) =~= Seq::<Seq<char>>::empty());
    }
    let mut k: usize = 0;
    while k < uploaded.len()
        invariant
            k <= uploaded.len(),
            names == texts(uploaded@),
            fields_view(m@) == with_algorithms(base, names.take(k as int)),
        decreases uploaded.len() - k,
    {
        proof {
            assert(names.take(k + 1).drop_last() =~= names.take(k as int));
            assert(names.take(k + 1).last() == uploaded@[k as int]@);
        }
        let algorithm = match split_once(uploaded[k].as_str(), ':') {
            Some((a, _)) => a,
            None => uploaded[k].as_str().to_owned(),
        };
        if get(&m, algorithm.as_str()).is_none() {
            put(&mut m, algorithm, Json::Int(0));
        }
        k += 1;
    }
    proof {
        assert(names.take(names.len() as int) =~= names);
    }
    object_of("one_time_key_counts", Json::Object(m))
}

/// Every algorithm that was uploaded is counted, and no count is changed.
pub proof fn law_uploaded_algorithms_are_counted(
    m: Map<Seq<char>, JsonV>,
    names: Seq<Seq<char>>,
    i: int,
)
    requires
        0 <= i < names.len(),
    ensures
        with_algorithms(m, names).dom().contains(algorithm_of(names[i])),
        forall|a: Seq<char>|
            m.dom().contains(a) ==> #[trigger] with_algorithms(m, names).dom().contains(a)
                && with_algorithms(m, names)[a] == m[a],
    decreases names.len(),
{
    let init = names.drop_last();
    if i < init.len() {
        law_uploaded_algorithms_are_counted(m, init, i);
        assert(init[i] == names[i]);
    } else if init.len() > 0 {
        law_uploaded_algorithms_are_counted(m, init, 0);
    }
}

// -- querying -----------------------------------------------------------------

/// Is a device among those that are asked for? An empty list asks for all.
pub open spec fn is_wanted(devices: JsonV, device: Seq<char>) -> bool {
    devices matches JsonV::Array(items) && (items.len() == 0 || strings_among(items).contains(
        device,
    ))
}

/// The keys of the wanted devices.
pub open spec fn wanted_keys(
    keys: Map<Seq<char>, JsonV>,
    seen: Set<Seq<char>>,
    devices: JsonV,
) -> Map<Seq<char>, JsonV> {
    Map::new(
        |d: Seq<char>| seen.contains(d) && keys.dom().contains(d) && is_wanted(devices, d),
        |d: Seq<char>| keys[d],
    )
}

/// What is answered for our own users. Every user that is asked about appears,
/// with nothing where there are no keys.
pub open spec fn local_keys(
    requested: Map<Seq<char>, JsonV>,
    seen: Set<Seq<char>>,
    our_name: Seq<char>,
    stored: Map<Seq<char>, JsonV>,
) -> Map<Seq<char>, JsonV> {
    Map::new(
        |u: Seq<char>| seen.contains(u) && is_ours(u, our_name),
        |u: Seq<char>|
            {
                let keys = fields_or_none(entry(stored, u));
                JsonV::Object(wanted_keys(keys, keys.dom(), requested[u]))
            },
    )
}

/// Does the request hold anything but a list for one of our users?
pub open spec fn is_malformed(requested: Map<Seq<char>, JsonV>, our_name: Seq<char>) -> bool {
    exists|u: Seq<char>| #[trigger]
        requested.dom().contains(u) && is_ours(u, our_name) && !(requested[u] is Array)
}

/// The keys of our users that a query found, and what other servers are to be
/// asked.
#[derive(Debug)]
pub struct KeyAnswer {
    pub found: Vec<(String, Json)>,
    pub remote: Vec<(String, Json)>,
}

fn keep_wanted(keys: &Vec<(String, Json)>, items: &Vec<Json>) -> (r: Vec<(String, Json)>)
    ensures
        fields_view(r@) == wanted_keys(
            fields_view(keys@),
            fields_view(keys@).dom(),
            JsonV::Array(items_view(items@)),
        ),
{
    let wanted = read_strings(items);
    let all = items.len() == 0;
    let ghost m = fields_view(keys@);
    let ghost devices = JsonV::Array(items_view(items@));
    let mut out: Vec<(String, Json)> = Vec::new();
    proof {
        crate::json::lemma_items(items@);
        assert(fields_view(out@) =~= wanted_keys(m, fields_view(keys@.take(0)).dom(), devices));
    }
    let mut i: usize = 0;
    while i < keys.len()
        invariant
            i <= keys.len(),
            m == fields_view(keys@),
            devices == JsonV::Array(items_view(items@)),
            all == (items_view(items@).len() == 0),
            texts(wanted@) == strings_among(items_view(items@)),
            fields_view(out@) == wanted_keys(m, fields_view(keys@.take(i as int)).dom(), devices),
        decreases keys.len() - i,
    {
        let ghost before = fields_view(keys@.take(i as int)).dom();
        let ghost k = keys@[i as int].0@;
        proof {
            assert(keys@.take(i + 1).drop_last() =~= keys@.take(i as int));
            assert(fields_view(keys@.take(i + 1)).dom() =~= before.insert(k));
            lemma_field_of_key(keys@, k);
        }
        if all || list_has(&wanted, keys[i].0.as_str()) {
            match get(keys, keys[i].0.as_str()) {
                Some(v) => {
                    put(&mut out, keys[i].0.as_str().to_owned(), v.copy());
                },
                None => {},
            }
        }
        proof {
            assert(fields_view(out@) =~= wanted_keys(m, before.insert(k), devices));
        }
        i += 1;
    }
    proof {
        assert(keys@.take(keys@.len() as int) =~= keys@);
    }
    out
}

/// Answers a query for device keys as far as this server can, from the stored
/// keys of its users.
pub fn query_keys(
    requested: &Vec<(String, Json)>,
    our_name: &str,
    stored: &Vec<(String, Json)>,
) -> (r: Result<KeyAnswer, ApiError>)
    ensures
        ({
            let m = fields_view(requested@);
            if is_malformed(m, our_name@) {
                r matches Err(e) && e@ == bad_json("device_keys values must be lists"@)
            } else {
                &&& r matches Ok(a)
                &&& fields_view(a.found@) == local_keys(
                    m,
                    m.dom(),
                    our_name@,
                    fields_view(stored@),
                )
                &&& fields_view(a.remote@) == remote_requests(m, m.dom(), our_name@)
                &&& names_differ(a.found@)
                &&& forall|i: int, j: int|
                    #![trigger a.remote@[i], a.remote@[j]]
                    0 <= i < j < a.remote@.len() ==> a.remote@[i].0@ != a.remote@[j].0@
            }
        }),
{
    let ghost m = fields_view(requested@);
    let ghost st = fields_view(stored@);
    let mut found: Vec<(String, Json)> = Vec::new();
    let mut remote: Vec<(String, Json)> = Vec::new();
    proof {
        reveal(names_differ);
        let none = fields_view(requested@.take(0)).dom();
        assert(fields_view(found@) =~= local_keys(m, none, our_name@, st));
        assert forall|s: Seq<char>| !#[trigger] remote_requests(m, none, our_name@).dom().contains(
            s,
        ) by {
            if remote_requests(m, none, our_name@).dom().contains(s) {
                let u = choose|u: Seq<char>| #[trigger] asked_of(none, our_name@, s, u);
                assert(none.contains(u));
            }
        }
        assert(fields_view(remote@) =~= remote_requests(m, none, our_name@));
    }
    let mut i: usize = 0;
    while i < requested.len()
        invariant
            i <= requested.len(),
            m == fields_view(requested@),
            st == fields_view(stored@),
            fields_view(found@) == local_keys(
                m,
                fields_view(requested@.take(i as int)).dom(),
                our_name@,
                st,
            ),
            fields_view(remote@) == remote_requests(
                m,
                fields_view(requested@.take(i as int)).dom(),
                our_name@,
            ),
            names_differ(found@),
            names_differ(remote@),
            forall|j: int|
                0 <= j < i && is_ours((#[trigger] requested@[j]).0@, our_name@) ==> m[requested@[j].0@] is Array,
        decreases requested.len() - i,
    {
        let ghost before = fields_view(requested@.take(i as int)).dom();
        let ghost u = requested@[i as int].0@;
        proof {
            assert(requested@.take(i + 1).drop_last() =~= requested@.take(i as int));
            assert(fields_view(requested@.take(i + 1)).dom() =~= before.insert(u));
            lemma_field_of_key(requested@, u);
        }
        let user = requested[i].0.as_str();
        let devices = match get(requested, user) {
            Some(d) => d,
            None => {
                return Err(ApiError::bad_json("device_keys values must be lists"));
            },
        };
        if is_local(user, our_name) {
            proof {
                lemma_remote_same(m, before, our_name@, u);
            }
            let items = match devices.as_array() {
                Some(v) => v,
                None => {
                    proof {
                        assert(m.dom().contains(u) && is_ours(u, our_name@) && !(m[u] is Array));
                    }
                    return Err(ApiError::bad_json("device_keys values must be lists"));
                },
            };
            let kept: Vec<(String, Json)> = match get(stored, user) {
                Some(Json::Object(keys)) => keep_wanted(keys, items),
                _ => {
                    let none: Vec<(String, Json)> = Vec::new();
                    proof {
                        assert(fields_view(none@) =~= wanted_keys(
                            no_fields(),
                            no_fields().dom(),
                            m[u],
                        ));
                    }
                    none
                },
            };
            put_str(&mut found, user, Json::Object(kept));
            proof {
                assert(fields_view(found@) =~= local_keys(m, before.insert(u), our_name@, st));
            }
        } else {
            let server = match server_part(user) {
                Some(s) => s,
                None => {
                    return Err(ApiError::bad_json("device_keys values must be lists"));
                },
            };
            proof {
                lemma_remote_grows(m, before, our_name@, u, server@);
                assert(local_keys(m, before.insert(u), our_name@, st) =~= local_keys(
                    m,
                    before,
                    our_name@,
                    st,
                ));
            }
            add_user(&mut remote, server.as_str(), user, devices.copy());
        }
        i += 1;
    }
    proof {
        assert(requested@.take(requested@.len() as int) =~= requested@);
        if is_malformed(m, our_name@) {
            let u = choose|u: Seq<char>| #[trigger]
                m.dom().contains(u) && is_ours(u, our_name@) && !(m[u] is Array);
            lemma_field_of_key(requested@, u);
        }
    }
    Ok(KeyAnswer { found, remote })
}

/// Merges what another server answered: its users' entries replace ours.
pub fn merge_answer(found: Vec<(String, Json)>, answer: &Json, key: &str) -> (r: Vec<
    (String, Json),
>)
    ensures
        fields_view(r@) == fields_view(found@).union_prefer_right(
            fields_or_none(crate::json::field(answer@, key@)),
        ),
{
    let mut out = found;
    let ghost base = fields_view(found@);
    match answer.get(key) {
        Some(Json::Object(m)) => {
            let mut i: usize = 0;
            proof {
                assert(fields_view(out@) =~= base.union_prefer_right(fields_view(m@.take(0))));
            }
            while i < m.len()
                invariant
                    i <= m.len(),
                    fields_view(out@) == base.union_prefer_right(fields_view(m@.take(i as int))),
                decreases m.len() - i,
            {
                proof {
                    assert(m@.take(i + 1).drop_last() =~= m@.take(i as int));
                }
                put(&mut out, m[i].0.as_str().to_owned(), m[i].1.copy());
                proof {
                    assert(fields_view(out@) =~= base.union_prefer_right(
                        fields_view(m@.take(i + 1)),
                    ));
                }
                i += 1;
            }
            proof {
                assert(m@.take(m@.len() as int) =~= m@);
            }
        },
        _ => {
            proof {
                assert(base.union_prefer_right(no_fields()) =~= base);
            }
        },
    }
    out
}

/// How a server that could not be asked is reported.
pub fn failure(fault: Option<&str>) -> (r: Json)
    ensures
        r@ == JsonV::Object(
            no_fields().insert("errcode"@, JsonV::Str("M_UNKNOWN"@)).insert(
                "error"@,
                JsonV::Str(
                    match fault {
                        Some(s) => s@,
                        None => "Federation is disabled"@,
                    },
                ),
            ),
        ),
{
    let mut m: Vec<(String, Json)> = Vec::new();
    put_str(&mut m, "errcode", text_json("M_UNKNOWN"));
    let text = match fault {
        Some(s) => s,
        None => "Federation is disabled",
    };
    put_str(&mut m, "error", text_json(text));
    Json::Object(m)
}

/// The answer to a query for device keys; `None` where nothing was asked for.
pub fn query_answer(found: Option<(Vec<(String, Json)>, Vec<(String, Json)>)>) -> (r: Json)
    ensures
        match found {
            None => r@ == one_field("device_keys"@, JsonV::Object(no_fields())),
            Some((keys, failures)) => r@ == JsonV::Object(
                no_fields().insert("device_keys"@, JsonV::Object(fields_view(keys@))).insert(
                    "master_keys"@,
                    JsonV::Object(no_fields()),
                ).insert("self_signing_keys"@, JsonV::Object(no_fields())).insert(
                    "user_signing_keys"@,
                    JsonV::Object(no_fields()),
                ).insert("failures"@, JsonV::Object(fields_view(failures@))),
            ),
        },
{
    match found {
        None => object_of("device_keys", Json::Object(Vec::new())),
        Some((keys, failures)) => {
            let mut m: Vec<(String, Json)> = Vec::new();
            put_str(&mut m, "device_keys", Json::Object(keys));
            put_str(&mut m, "master_keys", Json::Object(Vec::new()));
            put_str(&mut m, "self_signing_keys", Json::Object(Vec::new()));
            put_str(&mut m, "user_signing_keys", Json::Object(Vec::new()));
            put_str(&mut m, "failures", Json::Object(failures));
            Json::Object(m)
        },
    }
}

// -- claiming -----------------------------------------------------------------

/// One one-time key that is claimed.
#[derive(Debug)]
pub struct ClaimRequest {
    pub user_id: String,
    pub device_id: String,
    pub algorithm: String,
}

/// Does a request claim a key of this device of ours?
pub open spec fn claims_key(
    requested: Map<Seq<char>, JsonV>,
    our_name: Seq<char>,
    user: Seq<char>,
    device: Seq<char>,
    algorithm: Seq<char>,
) -> bool {
    requested.dom().contains(user) && is_ours(user, our_name) && (requested[user] matches JsonV::Object(
        devices,
    ) && devices.dom().contains(device) && devices[device] == JsonV::Str(algorithm))
}

/// Is a claim on the list?
pub open spec fn has_claim(
    claims: Seq<ClaimRequest>,
    user: Seq<char>,
    device: Seq<char>,
    algorithm: Seq<char>,
) -> bool {
    exists|i: int|
        0 <= i < claims.len() && (#[trigger] claims[i]).user_id@ == user && claims[i].device_id@
            == device && claims[i].algorithm@ == algorithm
}

/// No device is claimed from twice.
pub open spec fn claims_once(claims: Seq<ClaimRequest>) -> bool {
    forall|i: int, j: int|
        #![trigger claims[i], claims[j]]
        0 <= i < j < claims.len() ==> !(claims[i].user_id@ == claims[j].user_id@
            && claims[i].device_id@ == claims[j].device_id@)
}

fn is_claimed(claims: &Vec<ClaimRequest>, user: &str, device: &str) -> (r: bool)
    ensures
        r <==> exists|i: int|
            0 <= i < claims@.len() && (#[trigger] claims@[i]).user_id@ == user@
                && claims@[i].device_id@ == device@,
{
    let mut i: usize = 0;
    while i < claims.len()
        invariant
            i <= claims.len(),
            forall|j: int|
                0 <= j < i ==> !((#[trigger] claims@[j]).user_id@ == user@ && claims@[j].device_id@
                    == device@),
        decreases claims.len() - i,
    {
        if same_text(claims[i].user_id.as_str(), user) && same_text(
            claims[i].device_id.as_str(),
            device,
        ) {
            return true;
        }
        i += 1;
    }
    false
}

/// The claims of one user's devices, among those named so far.
pub open spec fn user_claims(
    claims: Seq<ClaimRequest>,
    user: Seq<char>,
    devices: Map<Seq<char>, JsonV>,
    seen: Set<Seq<char>>,
) -> bool {
    forall|d: Seq<char>, a: Seq<char>| #[trigger]
        has_claim(claims, user, d, a) <==> seen.contains(d) && devices.dom().contains(d)
            && devices[d] == JsonV::Str(a)
}

fn claim_devices(
    claims: Vec<ClaimRequest>,
    user: &str,
    devices: &Vec<(String, Json)>,
) -> (r: Vec<ClaimRequest>)
    requires
        claims_once(claims@),
        forall|d: Seq<char>, a: Seq<char>| !#[trigger] has_claim(claims@, user@, d, a),
    ensures
        claims_once(r@),
        user_claims(r@, user@, fields_view(devices@), fields_view(devices@).dom()),
        forall|u: Seq<char>, d: Seq<char>, a: Seq<char>|
            u != user@ ==> (#[trigger] has_claim(r@, u, d, a) <==> has_claim(claims@, u, d, a)),
{
    let mut out = claims;
    let ghost m = fields_view(devices@);
    let mut i: usize = 0;
    while i < devices.len()
        invariant
            i <= devices.len(),
            m == fields_view(devices@),
            claims_once(out@),
            user_claims(out@, user@, m, fields_view(devices@.take(i as int)).dom()),
            forall|u: Seq<char>, d: Seq<char>, a: Seq<char>|
                u != user@ ==> (#[trigger] has_claim(out@, u, d, a) <==> has_claim(
                    claims@,
                    u,
                    d,
                    a,
                )),
        decreases devices.len() - i,
    {
        let ghost before = fields_view(devices@.take(i as int)).dom();
        let ghost k = devices@[i as int].0@;
        let ghost prior = out@;
        proof {
            assert(devices@.take(i + 1).drop_last() =~= devices@.take(i as int));
            assert(fields_view(devices@.take(i + 1)).dom() =~= before.insert(k));
            lemma_field_of_key(devices@, k);
        }
        let name = devices[i].0.as_str();
        let algorithm = match get(devices, name) {
            Some(j) => j.as_str(),
            None => None,
        };
        match algorithm {
            Some(a) => {
                if !is_claimed(&out, user, name) {
                    let c = ClaimRequest {
                        user_id: user.to_owned(),
                        device_id: name.to_owned(),
                        algorithm: a.to_owned(),
                    };
                    out.push(c);
                    proof {
                        lemma_claim_added(prior, c);
                    }
                } else {
                    proof {
                        let j = choose|j: int|
                            0 <= j < out@.len() && (#[trigger] out@[j]).user_id@ == user@
                                && out@[j].device_id@ == k;
                        assert(has_claim(out@, user@, k, out@[j].algorithm@));
                    }
                }
            },
            None => {},
        }
        i += 1;
    }
    proof {
        assert(devices@.take(devices@.len() as int) =~= devices@);
    }
    out
}

proof fn lemma_claim_added(claims: Seq<ClaimRequest>, c: ClaimRequest)
    ensures
        forall|u: Seq<char>, d: Seq<char>, a: Seq<char>| #[trigger]
            has_claim(claims.push(c), u, d, a) <==> has_claim(claims, u, d, a) || (u == c.user_id@
                && d == c.device_id@ && a == c.algorithm@),
{
    let out = claims.push(c);
    assert forall|u: Seq<char>, d: Seq<char>, a: Seq<char>| #[trigger]
        has_claim(out, u, d, a) <==> has_claim(claims, u, d, a) || (u == c.user_id@ && d
            == c.device_id@ && a == c.algorithm@) by {
        if has_claim(claims, u, d, a) {
            let i = choose|i: int|
                0 <= i < claims.len() && (#[trigger] claims[i]).user_id@ == u
                    && claims[i].device_id@ == d && claims[i].algorithm@ == a;
            assert(out[i] == claims[i]);
        }
        if u == c.user_id@ && d == c.device_id@ && a == c.algorithm@ {
            assert(out[claims.len() as int] == c);
        }
        if has_claim(out, u, d, a) {
            let i = choose|i: int|
                0 <= i < out.len() && (#[trigger] out[i]).user_id@ == u && out[i].device_id@ == d
                    && out[i].algorithm@ == a;
            if i < claims.len() {
                assert(claims[i] == out[i]);
            }
        }
    }
}

/// What a claim asks of this server, and of others.
#[derive(Debug)]
pub struct ClaimPlan {
    pub claims: Vec<ClaimRequest>,
    pub remote: Vec<(String, Json)>,
}

/// The claims of the users named so far.
pub open spec fn claims_of(
    claims: Seq<ClaimRequest>,
    requested: Map<Seq<char>, JsonV>,
    seen: Set<Seq<char>>,
    our_name: Seq<char>,
) -> bool {
    forall|u: Seq<char>, d: Seq<char>, a: Seq<char>| #[trigger]
        has_claim(claims, u, d, a) <==> seen.contains(u) && claims_key(requested, our_name, u, d, a)
}

/// Splits a request to claim one-time keys: each device of ours is claimed from
/// once, and other servers are asked for their users' keys.
pub fn claim_keys(requested: &Vec<(String, Json)>, our_name: &str) -> (r: ClaimPlan)
    ensures
        ({
            let m = fields_view(requested@);
            &&& claims_of(r.claims@, m, m.dom(), our_name@)
            &&& claims_once(r.claims@)
            &&& fields_view(r.remote@) == remote_requests(m, m.dom(), our_name@)
            &&& forall|i: int, j: int|
                #![trigger r.remote@[i], r.remote@[j]]
                0 <= i < j < r.remote@.len() ==> r.remote@[i].0@ != r.remote@[j].0@
        }),
{
    let ghost m = fields_view(requested@);
    let mut claims: Vec<ClaimRequest> = Vec::new();
    let mut remote: Vec<(String, Json)> = Vec::new();
    proof {
        reveal(names_differ);
        let none = fields_view(requested@.take(0)).dom();
        assert forall|s: Seq<char>| !#[trigger] remote_requests(m, none, our_name@).dom().contains(
            s,
        ) by {
            if remote_requests(m, none, our_name@).dom().contains(s) {
                let u = choose|u: Seq<char>| #[trigger] asked_of(none, our_name@, s, u);
                assert(none.contains(u));
            }
        }
        assert(fields_view(remote@) =~= remote_requests(m, none, our_name@));
    }
    let mut i: usize = 0;
    while i < requested.len()
        invariant
            i <= requested.len(),
            m == fields_view(requested@),
            claims_once(claims@),
            names_differ(remote@),
            claims_of(claims@, m, fields_view(requested@.take(i as int)).dom(), our_name@),
            fields_view(remote@) == remote_requests(
                m,
                fields_view(requested@.take(i as int)).dom(),
                our_name@,
            ),
        decreases requested.len() - i,
    {
        let ghost before = fields_view(requested@.take(i as int)).dom();
        let ghost u = requested@[i as int].0@;
        let ghost prior = claims@;
        proof {
            assert(requested@.take(i + 1).drop_last() =~= requested@.take(i as int));
            assert(fields_view(requested@.take(i + 1)).dom() =~= before.insert(u));
            lemma_field_of_key(requested@, u);
        }
        let user = requested[i].0.as_str();
        if is_local(user, our_name) {
            proof {
                lemma_remote_same(m, before, our_name@, u);
            }
            if !is_repeated(requested, i) {
                match get(requested, user) {
                    Some(Json::Object(devices)) => {
                        proof {
                            lemma_named_before(requested@, i as int);
                            assert(!before.contains(u));
                            assert forall|d: Seq<char>, a: Seq<char>| !#[trigger] has_claim(
                                claims@,
                                u,
                                d,
                                a,
                            ) by {}
                            assert(m[u] == JsonV::Object(fields_view(devices@)));
                        }
                        claims = claim_devices(claims, user, devices);
                        proof {
                            lemma_claims_step(
                                prior,
                                claims@,
                                m,
                                before,
                                our_name@,
                                u,
                                fields_view(devices@),
                            );
                        }
                    },
                    _ => {},
                }
            } else {
                proof {
                    lemma_named_before(requested@, i as int);
                    assert(before.insert(u) =~= before);
                }
            }
        } else {
            let server = server_part(user);
            match server {
                Some(s) => {
                    proof {
                        lemma_remote_grows(m, before, our_name@, u, s@);
                    }
                    match get(requested, user) {
                        Some(devices) => {
                            add_user(&mut remote, s.as_str(), user, devices.copy());
                        },
                        None => {},
                    }
                },
                None => {},
            }
        }
        i += 1;
    }
    proof {
        assert(requested@.take(requested@.len() as int) =~= requested@);
    }
    ClaimPlan { claims, remote }
}

proof fn lemma_claims_step(
    prior: Seq<ClaimRequest>,
    claims: Seq<ClaimRequest>,
    m: Map<Seq<char>, JsonV>,
    before: Set<Seq<char>>,
    our_name: Seq<char>,
    user: Seq<char>,
    devices: Map<Seq<char>, JsonV>,
)
    requires
        claims_of(prior, m, before, our_name),
        !before.contains(user),
        m.dom().contains(user),
        m[user] == JsonV::Object(devices),
        is_ours(user, our_name),
        user_claims(claims, user, devices, devices.dom()),
        forall|u: Seq<char>, d: Seq<char>, a: Seq<char>|
            u != user ==> (#[trigger] has_claim(claims, u, d, a) <==> has_claim(prior, u, d, a)),
    ensures
        claims_of(claims, m, before.insert(user), our_name),
{
    assert forall|u: Seq<char>, d: Seq<char>, a: Seq<char>| #[trigger]
        has_claim(claims, u, d, a) <==> before.insert(user).contains(u) && claims_key(
            m,
            our_name,
            u,
            d,
            a,
        ) by {
        if u != user {
            assert(has_claim(claims, u, d, a) <==> has_claim(prior, u, d, a));
        }
    }
}

/// A claimed key.
#[derive(Debug)]
pub struct ClaimedKey {
    pub user_id: String,
    pub device_id: String,
    pub key_id: String,
    pub key: Json,
}

/// The claimed keys by user, device and key ID.
pub open spec fn claimed_json(claimed: Seq<ClaimedKey>) -> Map<Seq<char>, JsonV>
    decreases claimed.len(),
{
    if claimed.len() == 0 {
        no_fields()
    } else {
        let out = claimed_json(claimed.drop_last());
        let c = claimed.last();
        let devices = fields_or_none(entry(out, c.user_id@));
        let keys = fields_or_none(entry(devices, c.device_id@));
        out.insert(
            c.user_id@,
            JsonV::Object(
                devices.insert(c.device_id@, JsonV::Object(keys.insert(c.key_id@, c.key@))),
            ),
        )
    }
}

fn object_at(m: &Vec<(String, Json)>, key: &str) -> (r: Vec<(String, Json)>)
    ensures
        fields_view(r@) == fields_or_none(entry(fields_view(m@), key@)),
{
    match get(m, key) {
        Some(Json::Object(f)) => copy_fields(f),
        _ => Vec::new(),
    }
}

/// The claimed keys by user, device and key ID.
pub fn shape_claimed(claimed: &Vec<ClaimedKey>) -> (r: Vec<(String, Json)>)
    ensures
        fields_view(r@) == claimed_json(claimed@),
{
    let mut out: Vec<(String, Json)> = Vec::new();
    let mut i: usize = 0;
    while i < claimed.len()
        invariant
            i <= claimed.len(),
            fields_view(out@) == claimed_json(claimed@.take(i as int)),
        decreases claimed.len() - i,
    {
        proof {
            assert(claimed@.take(i + 1).drop_last() =~= claimed@.take(i as int));
        }
        let c = &claimed[i];
        let mut devices = object_at(&out, c.user_id.as_str());
        let mut keys = object_at(&devices, c.device_id.as_str());
        put_str(&mut keys, c.key_id.as_str(), c.key.copy());
        put_str(&mut devices, c.device_id.as_str(), Json::Object(keys));
        put_str(&mut out, c.user_id.as_str(), Json::Object(devices));
        i += 1;
    }
    proof {
        assert(claimed@.take(claimed@.len() as int) =~= claimed@);
    }
    out
}

/// The answer to a claim; `None` where nothing was asked for.
pub fn claim_answer(found: Option<(Vec<(String, Json)>, Vec<(String, Json)>)>) -> (r: Json)
    ensures
        match found {
            None => r@ == one_field("one_time_keys"@, JsonV::Object(no_fields())),
            Some((keys, failures)) => r@ == JsonV::Object(
                no_fields().insert("one_time_keys"@, JsonV::Object(fields_view(keys@))).insert(
                    "failures"@,
                    JsonV::Object(fields_view(failures@)),
                ),
            ),
        },
{
    match found {
        None => object_of("one_time_keys", Json::Object(Vec::new())),
        Some((keys, failures)) => {
            let mut m: Vec<(String, Json)> = Vec::new();
            put_str(&mut m, "one_time_keys", Json::Object(keys));
            put_str(&mut m, "failures", Json::Object(failures));
            Json::Object(m)
        },
    }
}

// -- device lists -------------------------------------------------------------

/// An entry of the log of device-list changes: the list itself changed, or the
/// user joined (`true`) or left a room.
#[derive(Debug)]
pub struct KeyChange {
    pub user_id: String,
    pub room: Option<(String, bool)>,
}

/// What the deltas are worked out from.
#[derive(Debug)]
pub struct DeltaFacts {
    pub user_id: String,
    /// The rooms that the user is in.
    pub my_rooms: Vec<String>,
    /// The users who share one of them.
    pub sharing: Vec<String>,
    /// The members of rooms that the user joined or left.
    pub members: Vec<(String, Vec<String>)>,
}

/// The members of a room.
pub open spec fn members_of(members: Seq<(String, Vec<String>)>, room: Seq<char>) -> Seq<Seq<char>>
    decreases members.len(),
{
    if members.len() == 0 {
        Seq::empty()
    } else if members.last().0@ == room {
        texts(members.last().1@)
    } else {
        members_of(members.drop_last(), room)
    }
}

/// The users whose keys must be queried again, and those with whom no room is
/// shared any more.
#[verifier::ext_equal]
pub struct DeltasV {
    pub changed: Set<Seq<char>>,
    pub left: Set<Seq<char>>,
}

/// Users whose lists are to be queried again.
pub open spec fn now_changed(d: DeltasV, users: Set<Seq<char>>) -> DeltasV {
    DeltasV { changed: d.changed.union(users), left: d.left.difference(users) }
}

/// Users who are gone.
pub open spec fn now_left(d: DeltasV, users: Set<Seq<char>>) -> DeltasV {
    DeltasV { changed: d.changed.difference(users), left: d.left.union(users) }
}

/// The other members of a room; `gone` leaves out those who still share one.
pub open spec fn others_in(f: DeltaFacts, room: Seq<char>, gone: bool) -> Set<Seq<char>> {
    Set::new(
        |u: Seq<char>|
            members_of(f.members@, room).contains(u) && u != f.user_id@ && (gone ==> !texts(
                f.sharing@,
            ).contains(u)),
    )
}

/// The deltas one log entry further. Later entries override earlier ones, so a
/// leave that is followed by a rejoin nets to a change.
pub open spec fn delta_step(d: DeltasV, e: KeyChange, f: DeltaFacts) -> DeltasV {
    let u = e.user_id@;
    let me = f.user_id@;
    let shares = texts(f.sharing@).contains(u);
    match e.room {
        None => if u == me || shares {
            now_changed(d, set![u])
        } else {
            d
        },
        Some((room, true)) => if u == me {
            now_changed(d, others_in(f, room@, false))
        } else if texts(f.my_rooms@).contains(room@) {
            now_changed(d, set![u])
        } else {
            d
        },
        Some((room, false)) => if u == me {
            now_left(d, others_in(f, room@, true))
        } else if texts(f.my_rooms@).contains(room@) && !shares {
            now_left(d, set![u])
        } else {
            d
        },
    }
}

/// The deltas over a window of the log.
pub open spec fn deltas(log: Seq<KeyChange>, f: DeltaFacts) -> DeltasV
    decreases log.len(),
{
    if log.len() == 0 {
        DeltasV { changed: Set::empty(), left: Set::empty() }
    } else {
        delta_step(deltas(log.drop_last(), f), log.last(), f)
    }
}

/// No user is both changed and gone.
pub proof fn law_deltas_are_disjoint(log: Seq<KeyChange>, f: DeltaFacts)
    ensures
        deltas(log, f).changed.disjoint(deltas(log, f).left),
    decreases log.len(),
{
    if log.len() > 0 {
        law_deltas_are_disjoint(log.drop_last(), f);
    }
}

/// A user who leaves a shared room and joins one again is changed, not gone.
pub proof fn law_rejoin_nets_to_changed(log: Seq<KeyChange>, e: KeyChange, f: DeltaFacts)
    requires
        e.room matches Some((room, joined)) && joined && texts(f.my_rooms@).contains(room@),
        e.user_id@ != f.user_id@,
    ensures
        deltas(log.push(e), f).changed.contains(e.user_id@),
        !deltas(log.push(e), f).left.contains(e.user_id@),
{
    assert(log.push(e).drop_last() =~= log);
}

/// Two lists of users, in which none occurs twice.
#[derive(Debug)]
pub struct Deltas {
    pub changed: Vec<String>,
    pub left: Vec<String>,
}

pub open spec fn list_set(list: Seq<String>) -> Set<Seq<char>> {
    Set::new(|u: Seq<char>| texts(list).contains(u))
}

impl View for Deltas {
    type V = DeltasV;

    open spec fn view(&self) -> DeltasV {
        DeltasV { changed: list_set(self.changed@), left: list_set(self.left@) }
    }
}

fn add_name(list: &mut Vec<String>, name: &str)
    requires
        texts(old(list)@).no_duplicates(),
    ensures
        texts(final(list)@).no_duplicates(),
        list_set(final(list)@) == list_set(old(list)@).insert(name@),
{
    let ghost before = texts(list@);
    if !list_has(list, name) {
        list.push(name.to_owned());
        proof {
            let after = texts(list@);
            assert(after =~= before.push(name@));
            assert forall|u: Seq<char>| after.contains(u) <==> before.contains(u) || u == name@ by {
                if before.contains(u) {
                    let k = choose|k: int| 0 <= k < before.len() && before[k] == u;
                    assert(after[k] == u);
                }
                if u == name@ {
                    assert(after[before.len() as int] == u);
                }
                if after.contains(u) {
                    let k = choose|k: int| 0 <= k < after.len() && after[k] == u;
                    if k < before.len() {
                        assert(before[k] == u);
                    }
                }
            }
            assert forall|i: int, j: int|
                0 <= i < after.len() && 0 <= j < after.len() && i != j implies after[i]
                != after[j] by {
                if i == before.len() {
                    assert(before.contains(before[j]));
                } else if j == before.len() {
                    assert(before.contains(before[i]));
                }
            }
        }
    }
    proof {
        assert(list_set(list@) =~= list_set(old(list)@).insert(name@));
    }
}

fn drop_name(list: Vec<String>, name: &str) -> (r: Vec<String>)
    requires
        texts(list@).no_duplicates(),
    ensures
        texts(r@).no_duplicates(),
        list_set(r@) == list_set(list@).remove(name@),
{
    let kept = crate::routes::account::logged_out(&list, name, true);
    proof {
        lemma_others(texts(list@), name@);
        assert(list_set(kept@) =~= list_set(list@).remove(name@));
    }
    kept
}

proof fn lemma_others(list: Seq<Seq<char>>, name: Seq<char>)
    requires
        list.no_duplicates(),
    ensures
        crate::routes::account::others(list, name).no_duplicates(),
        forall|u: Seq<char>| #[trigger]
            crate::routes::account::others(list, name).contains(u) <==> list.contains(u) && u
                != name,
    decreases list.len(),
{
    if list.len() > 0 {
        let t = list.drop_last();
        assert forall|i: int, j: int| 0 <= i < t.len() && 0 <= j < t.len() && i != j implies t[i]
            != t[j] by {
            assert(list[i] != list[j]);
        }
        lemma_others(t, name);
        let init = crate::routes::account::others(t, name);
        let all = crate::routes::account::others(list, name);
        assert forall|u: Seq<char>| #[trigger] all.contains(u) <==> list.contains(u) && u != name by {
            if all.contains(u) {
                let k = choose|k: int| 0 <= k < all.len() && all[k] == u;
                if k < init.len() {
                    assert(init[k] == u);
                    assert(init.contains(u));
                    let n = choose|n: int| 0 <= n < t.len() && t[n] == u;
                    assert(list[n] == u);
                } else {
                    assert(list[list.len() - 1] == u);
                }
            }
            if list.contains(u) && u != name {
                let n = choose|n: int| 0 <= n < list.len() && list[n] == u;
                if n < t.len() {
                    assert(t[n] == u);
                    assert(init.contains(u));
                    let k = choose|k: int| 0 <= k < init.len() && init[k] == u;
                    assert(all[k] == u);
                } else {
                    assert(all[init.len() as int] == u);
                }
            }
        }
        if list.last() != name {
            assert forall|i: int, j: int|
                0 <= i < all.len() && 0 <= j < all.len() && i != j implies all[i] != all[j] by {
                if i == init.len() || j == init.len() {
                    let k = if i == init.len() {
                        j
                    } else {
                        i
                    };
                    assert(init.contains(init[k]));
                    let n = choose|n: int| 0 <= n < t.len() && t[n] == init[k];
                    assert(list[n] != list[list.len() - 1]);
                }
            }
        }
    }
}

impl Deltas {
    pub open spec fn wf(self) -> bool {
        texts(self.changed@).no_duplicates() && texts(self.left@).no_duplicates()
    }

    fn mark(self, name: &str, changed: bool) -> (r: Deltas)
        requires
            self.wf(),
        ensures
            r.wf(),
            r@ == (if changed {
                now_changed(self@, set![name@])
            } else {
                now_left(self@, set![name@])
            }),
    {
        let ghost before = self@;
        let Deltas { changed: c, left: l } = self;
        let mut c = c;
        let mut l = l;
        if changed {
            l = drop_name(l, name);
            add_name(&mut c, name);
        } else {
            c = drop_name(c, name);
            add_name(&mut l, name);
        }
        let r = Deltas { changed: c, left: l };
        proof {
            if changed {
                assert(r@ =~= now_changed(before, set![name@]));
            } else {
                assert(r@ =~= now_left(before, set![name@]));
            }
        }
        r
    }
}

fn room_members<'a>(members: &'a Vec<(String, Vec<String>)>, room: &str) -> (r: Option<
    &'a Vec<String>,
>)
    ensures
        members_of(members@, room@) == (match r {
            Some(v) => texts(v@),
            None => Seq::empty(),
        }),
{
    let mut i: usize = members.len();
    proof {
        assert(members@.take(i as int) =~= members@);
    }
    while i > 0
        invariant
            i <= members.len(),
            members_of(members@, room@) == members_of(members@.take(i as int), room@),
        decreases i,
    {
        i -= 1;
        proof {
            assert(members@.take(i + 1).drop_last() =~= members@.take(i as int));
            assert(members@.take(i + 1).last() == members@[i as int]);
        }
        if same_text(members[i].0.as_str(), room) {
            return Some(&members[i].1);
        }
    }
    None
}

/// Members among the first `n` of a list who are to be marked.
pub open spec fn marked_among(f: DeltaFacts, list: Seq<Seq<char>>, gone: bool, n: int) -> Set<
    Seq<char>,
> {
    Set::new(
        |u: Seq<char>|
            list.take(n).contains(u) && u != f.user_id@ && (gone ==> !texts(f.sharing@).contains(
                u,
            )),
    )
}

fn mark_members(d: Deltas, f: &DeltaFacts, room: &str, gone: bool) -> (r: Deltas)
    requires
        d.wf(),
    ensures
        r.wf(),
        r@ == (if gone {
            now_left(d@, others_in(*f, room@, true))
        } else {
            now_changed(d@, others_in(*f, room@, false))
        }),
{
    let ghost base = d@;
    let mut out = d;
    let list = match room_members(&f.members, room) {
        Some(v) => v,
        None => {
            proof {
                let none = others_in(*f, room@, gone);
                assert(none =~= Set::<Seq<char>>::empty());
                assert(now_left(base, none) =~= base);
                assert(now_changed(base, none) =~= base);
            }
            return out;
        },
    };
    let ghost all = texts(list@);
    proof {
        let none = marked_among(*f, all, gone, 0);
        assert(none =~= Set::<Seq<char>>::empty());
        assert(now_left(base, none) =~= base);
        assert(now_changed(base, none) =~= base);
    }
    let mut i: usize = 0;
    while i < list.len()
        invariant
            i <= list.len(),
            all == texts(list@),
            out.wf(),
            out@ == (if gone {
                now_left(base, marked_among(*f, all, gone, i as int))
            } else {
                now_changed(base, marked_among(*f, all, gone, i as int))
            }),
        decreases list.len() - i,
    {
        let ghost before = marked_among(*f, all, gone, i as int);
        let ghost after = marked_among(*f, all, gone, i + 1);
        let ghost m = list@[i as int]@;
        proof {
            assert(all.take(i + 1) =~= all.take(i as int).push(m));
            let a = all.take(i as int);
            let b = all.take(i + 1);
            assert forall|u: Seq<char>|
                #![trigger a.contains(u)]
                #![trigger b.contains(u)]
                b.contains(u) <==> a.contains(u) || u == m by {
                if a.contains(u) {
                    let k = choose|k: int| 0 <= k < a.len() && a[k] == u;
                    assert(b[k] == u);
                }
                if u == m {
                    assert(b[i as int] == u);
                }
                if b.contains(u) {
                    let k = choose|k: int| 0 <= k < b.len() && b[k] == u;
                    if k < a.len() {
                        assert(a[k] == u);
                    }
                }
            }
        }
        let name = list[i].as_str();
        let other = !same_text(name, f.user_id.as_str());
        if other && !(gone && list_has(&f.sharing, name)) {
            proof {
                assert forall|u: Seq<char>| #[trigger] after.contains(u) <==> before.insert(
                    m,
                ).contains(u) by {
                    assert(all.take(i + 1).contains(u) <==> all.take(i as int).contains(u) || u
                        == m);
                }
                assert(after =~= before.insert(m));
                assert(now_left(now_left(base, before), set![m]) =~= now_left(base, after));
                assert(now_changed(now_changed(base, before), set![m]) =~= now_changed(
                    base,
                    after,
                ));
            }
            out = out.mark(name, !gone);
        } else {
            proof {
                assert(after =~= before);
            }
        }
        i += 1;
    }
    proof {
        assert(all.take(all.len() as int) =~= all);
        assert(marked_among(*f, all, gone, all.len() as int) =~= others_in(*f, room@, gone));
    }
    out
}

/// The device-list deltas over a window of the log.
/// Each list is in order.
pub fn device_list_deltas(log: &Vec<KeyChange>, f: &DeltaFacts) -> (r: Deltas)
    ensures
        r@ == deltas(log@, *f),
        ascending(texts(r.changed@)),
        ascending(texts(r.left@)),
{
    let mut d = Deltas { changed: Vec::new(), left: Vec::new() };
    proof {
        assert(d@ =~= deltas(log@.take(0), *f));
    }
    let mut i: usize = 0;
    while i < log.len()
        invariant
            i <= log.len(),
            d.wf(),
            d@ == deltas(log@.take(i as int), *f),
        decreases log.len() - i,
    {
        proof {
            assert(log@.take(i + 1).drop_last() =~= log@.take(i as int));
        }
        let e = &log[i];
        let user = e.user_id.as_str();
        let mine = same_text(user, f.user_id.as_str());
        match &e.room {
            None => {
                if mine || list_has(&f.sharing, user) {
                    d = d.mark(user, true);
                }
            },
            Some((room, joined)) => {
                if mine {
                    d = mark_members(d, f, room.as_str(), !*joined);
                } else if list_has(&f.my_rooms, room.as_str()) {
                    if *joined {
                        d = d.mark(user, true);
                    } else if !list_has(&f.sharing, user) {
                        d = d.mark(user, false);
                    }
                }
            },
        }
        i += 1;
    }
    let changed = in_order(&d.changed);
    let left = in_order(&d.left);
    proof {
        assert(log@.take(log@.len() as int) =~= log@);
        assert(list_set(changed@) =~= list_set(d.changed@));
        assert(list_set(left@) =~= list_set(d.left@));
    }
    Deltas { changed, left }
}

/// Has one of the memberships joined one of the rooms?
pub open spec fn meets_in(memberships: Seq<RoomMembership>, rooms: Seq<Seq<char>>) -> bool {
    exists|i: int|
        0 <= i < memberships.len() && (#[trigger] memberships[i]).membership@ == "join"@
            && rooms.contains(memberships[i].room_id@)
}

/// Is a user in one of some rooms?
pub fn shares_room(memberships: &Vec<RoomMembership>, my_rooms: &Vec<String>) -> (r: bool)
    ensures
        r <==> exists|i: int|
            0 <= i < memberships@.len() && (#[trigger] memberships@[i]).membership@ == "join"@
                && texts(my_rooms@).contains(memberships@[i].room_id@),
        r == meets_in(memberships@, texts(my_rooms@)),
{
    let mut i: usize = 0;
    while i < memberships.len()
        invariant
            i <= memberships.len(),
            forall|j: int|
                0 <= j < i ==> !((#[trigger] memberships@[j]).membership@ == "join"@ && texts(
                    my_rooms@,
                ).contains(memberships@[j].room_id@)),
        decreases memberships.len() - i,
    {
        if same_text(memberships[i].membership.as_str(), "join") && list_has(
            my_rooms,
            memberships[i].room_id.as_str(),
        ) {
            return true;
        }
        i += 1;
    }
    false
}

/// The window of the log that lies between two sync tokens.
pub open spec fn key_window(q: Seq<(String, String)>) -> Result<(u64, u64), ApiErrorV> {
    let bad = Err(invalid_param("Invalid sync token"@));
    match (query_value(q, "from"@), query_value(q, "to"@)) {
        (Some(f), t) => match read_token(f) {
            Some(p) => match t {
                Some(t) => match read_token(t) {
                    Some(o) => Ok((p.user, o.user)),
                    None => bad,
                },
                None => Ok((p.user, u64::MAX)),
            },
            None => bad,
        },
        (None, Some(t)) => match read_token(t) {
            Some(o) => Ok((0, o.user)),
            None => bad,
        },
        (None, None) => Ok((0, u64::MAX)),
    }
}

/// The window of the log that a request for changes asks about.
pub fn key_changes(q: &Vec<(String, String)>) -> (r: Result<(u64, u64), ApiError>)
    ensures
        outcome(r) == key_window(q@),
{
    let from: u64 = match query_get(q, "from") {
        Some(t) => match token_user_seq(t.as_str()) {
            Ok(n) => n,
            Err(e) => {
                return Err(e);
            },
        },
        None => 0,
    };
    let to: u64 = match query_get(q, "to") {
        Some(t) => match token_user_seq(t.as_str()) {
            Ok(n) => n,
            Err(e) => {
                return Err(e);
            },
        },
        None => u64::MAX,
    };
    Ok((from, to))
}

/// Every user of another server is asked of that server, for what was asked of
/// them; nobody else is.
pub proof fn law_others_are_asked_of_their_server(
    requested: Map<Seq<char>, JsonV>,
    our_name: Seq<char>,
    server: Seq<char>,
    user: Seq<char>,
)
    ensures
        ({
            let remote = JsonV::Object(remote_requests(requested, requested.dom(), our_name));
            &&& requested.dom().contains(user) && is_user_id(user) && server_in(user) == Some(
                server,
            ) && server != our_name ==> field2(remote, server, user) == Some(requested[user])
            &&& field2(remote, server, user) is Some ==> requested.dom().contains(user)
                && is_user_id(user) && server_in(user) == Some(server) && server != our_name
        }),
{
    if requested.dom().contains(user) && is_user_id(user) && server_in(user) == Some(server)
        && server != our_name {
        assert(asked_of(requested.dom(), our_name, server, user));
    }
}

/// A query finds the keys of our own users: of each that is asked for, those of
/// the devices that are asked for, or of all devices where the list is empty,
/// as they are stored.
pub proof fn law_queries_find_our_keys(
    requested: Map<Seq<char>, JsonV>,
    our_name: Seq<char>,
    stored: Map<Seq<char>, JsonV>,
    user: Seq<char>,
    device: Seq<char>,
    items: Seq<JsonV>,
    key: JsonV,
)
    requires
        requested.dom().contains(user) && requested[user] == JsonV::Array(items),
        !is_user_id(user) || server_in(user) == Some(our_name) || server_in(user) is None,
    ensures
        ({
            let found = JsonV::Object(local_keys(requested, requested.dom(), our_name, stored));
            &&& field(found, user) is Some && field(found, user)->0 is Object
            &&& field2(found, user, device) == Some(key) <==> field2(
                JsonV::Object(stored),
                user,
                device,
            ) == Some(key) && (items.len() == 0 || strings_among(items).contains(device))
        }),
{
}

/// A query finds nobody of another server among our keys, nor anybody who was
/// not asked for.
pub proof fn law_queries_find_nobody_else(
    requested: Map<Seq<char>, JsonV>,
    our_name: Seq<char>,
    stored: Map<Seq<char>, JsonV>,
    user: Seq<char>,
)
    requires
        !requested.dom().contains(user) || (is_user_id(user) && server_in(user) is Some
            && server_in(user) != Some(our_name)),
    ensures
        !local_keys(requested, requested.dom(), our_name, stored).dom().contains(user),
{
}

/// A query is malformed exactly where it asks for one of our users with
/// something that is no list.
pub proof fn law_lists_are_asked_for(requested: Map<Seq<char>, JsonV>, our_name: Seq<char>)
    ensures
        !is_malformed(requested, our_name) <==> forall|u: Seq<char>| #[trigger]
            requested.dom().contains(u) && (!is_user_id(u) || server_in(u) == Some(our_name)
                || server_in(u) is None) ==> requested[u] is Array,
{
    if !is_malformed(requested, our_name) {
        assert forall|u: Seq<char>| #[trigger]
            requested.dom().contains(u) && (!is_user_id(u) || server_in(u) == Some(our_name)
                || server_in(u) is None) implies requested[u] is Array by {
            assert(is_ours(u, our_name));
        }
    } else {
        let u = choose|u: Seq<char>| #[trigger]
            requested.dom().contains(u) && is_ours(u, our_name) && !(requested[u] is Array);
        assert(requested.dom().contains(u));
    }
}

/// Device keys are taken exactly where they are complete and are the session's
/// own.
pub proof fn law_own_keys_are_taken(
    m: Map<Seq<char>, JsonV>,
    keys: JsonV,
    user: Seq<char>,
    device: Seq<char>,
)
    ensures
        identity_fault(JsonV::Object(m), user, device) is None <==> {
            &&& field(JsonV::Object(m), "user_id"@) == Some(JsonV::Str(user))
            &&& field(JsonV::Object(m), "device_id"@) == Some(JsonV::Str(device))
            &&& m.dom().contains("algorithms"@)
            &&& m.dom().contains("keys"@)
            &&& m.dom().contains("signatures"@)
        },
        !(keys is Object) ==> identity_fault(keys, user, device) is Some,
        identity_fault(keys, user, device) matches Some(e) ==> e.status == 400,
{
}

/// Every algorithm is counted as often as it has keys: a count that is listed
/// is given as it stands, and an uploaded algorithm that has none left is given
/// as 0. Nothing else is counted.
pub proof fn law_counts_are_what_is_left(
    counts: Seq<(String, u64)>,
    names: Seq<Seq<char>>,
    k: int,
    a: Seq<char>,
)
    ensures
        ({
            let said = JsonV::Object(with_algorithms(counts_json(counts), names));
            &&& 0 <= k < counts.len() && (forall|j: int|
                k < j < counts.len() ==> (#[trigger] counts[j]).0@ != counts[k].0@) ==> field(
                said,
                counts[k].0@,
            ) == Some(JsonV::Int(counts[k].1 as int))
            &&& (forall|j: int| 0 <= j < counts.len() ==> (#[trigger] counts[j]).0@ != a) ==> (
            field(said, a) == (if exists|i: int|
                0 <= i < names.len() && algorithm_of(#[trigger] names[i]) == a {
                Some(JsonV::Int(0))
            } else {
                None
            }))
        }),
        cut_at(a, ':') is None ==> algorithm_of(a) == a,
        cut_at(a, ':') matches Some(p) ==> algorithm_of(a) == p.0,
{
    lemma_counts(counts, k, a);
    lemma_algorithms(counts_json(counts), names, a);
    if 0 <= k < counts.len() {
        lemma_algorithms(counts_json(counts), names, counts[k].0@);
    }
}

proof fn lemma_counts(counts: Seq<(String, u64)>, k: int, a: Seq<char>)
    ensures
        0 <= k < counts.len() && (forall|j: int|
            k < j < counts.len() ==> (#[trigger] counts[j]).0@ != counts[k].0@) ==> entry(
            counts_json(counts),
            counts[k].0@,
        ) == Some(JsonV::Int(counts[k].1 as int)),
        (forall|j: int| 0 <= j < counts.len() ==> (#[trigger] counts[j]).0@ != a) ==> entry(
            counts_json(counts),
            a,
        ) is None,
    decreases counts.len(),
{
    if counts.len() > 0 {
        let init = counts.drop_last();
        assert forall|j: int| 0 <= j < init.len() implies #[trigger] init[j] == counts[j] by {}
        lemma_counts(init, k, a);
        assert(counts[counts.len() - 1] == counts.last());
    }
}

proof fn lemma_algorithms(m: Map<Seq<char>, JsonV>, names: Seq<Seq<char>>, a: Seq<char>)
    ensures
        m.dom().contains(a) ==> entry(with_algorithms(m, names), a) == entry(m, a),
        !m.dom().contains(a) ==> entry(with_algorithms(m, names), a) == (if exists|i: int|
            0 <= i < names.len() && algorithm_of(#[trigger] names[i]) == a {
            Some(JsonV::Int(0))
        } else {
            None
        }),
    decreases names.len(),
{
    if names.len() > 0 {
        let init = names.drop_last();
        lemma_algorithms(m, init, a);
        assert(names[names.len() - 1] == names.last());
        if exists|i: int| 0 <= i < init.len() && algorithm_of(#[trigger] init[i]) == a {
            let i = choose|i: int| 0 <= i < init.len() && algorithm_of(#[trigger] init[i]) == a;
            assert(names[i] == init[i]);
        }
        if exists|i: int| 0 <= i < names.len() && algorithm_of(#[trigger] names[i]) == a {
            let i = choose|i: int| 0 <= i < names.len() && algorithm_of(#[trigger] names[i]) == a;
            if i < init.len() {
                assert(init[i] == names[i]);
            }
        }
    }
}

/// Every key that was claimed is handed out, under its user, device and ID.
pub proof fn law_claimed_keys_are_handed_out(claimed: Seq<ClaimedKey>, i: int)
    requires
        0 <= i < claimed.len(),
        forall|j: int|
            i < j < claimed.len() ==> !((#[trigger] claimed[j]).user_id@ == claimed[i].user_id@
                && claimed[j].device_id@ == claimed[i].device_id@ && claimed[j].key_id@
                == claimed[i].key_id@),
    ensures
        ({
            let out = JsonV::Object(claimed_json(claimed));
            let c = claimed[i];
            field2(out, c.user_id@, c.device_id@) matches Some(keys) && field(keys, c.key_id@)
                == Some(c.key@)
        }),
    decreases claimed.len(),
{
    if i < claimed.len() - 1 {
        let init = claimed.drop_last();
        assert(claimed[claimed.len() - 1] == claimed.last());
        assert forall|j: int| i < j < init.len() implies !((#[trigger] init[j]).user_id@
            == init[i].user_id@ && init[j].device_id@ == init[i].device_id@ && init[j].key_id@
            == init[i].key_id@) by {
            assert(init[j] == claimed[j]);
        }
        law_claimed_keys_are_handed_out(init, i);
    }
}

/// A claim takes a key exactly for each device of our users for which an
/// algorithm is asked.
pub proof fn law_claims_take_what_is_asked_for(
    claims: Seq<ClaimRequest>,
    requested: Map<Seq<char>, JsonV>,
    our_name: Seq<char>,
    user: Seq<char>,
    device: Seq<char>,
    algorithm: Seq<char>,
)
    requires
        claims_of(claims, requested, requested.dom(), our_name),
    ensures
        (exists|i: int|
            0 <= i < claims.len() && (#[trigger] claims[i]).user_id@ == user
                && claims[i].device_id@ == device && claims[i].algorithm@ == algorithm) <==> field2(
            JsonV::Object(requested),
            user,
            device,
        ) == Some(JsonV::Str(algorithm)) && (!is_user_id(user) || server_in(user) == Some(our_name)
            || server_in(user) is None),
{
    assert(has_claim(claims, user, device, algorithm) <==> claims_key(
        requested,
        our_name,
        user,
        device,
        algorithm,
    ));
}

/// Changes of keys are told where they matter: a user's own, and those of users
/// who share a room. Somebody who joins a room of the user's is told of, and
/// somebody who leaves it where no room is shared any longer.
pub proof fn law_changes_are_told_where_they_matter(
    log: Seq<KeyChange>,
    e: KeyChange,
    f: DeltaFacts,
)
    ensures
        ({
            let was = deltas(log, f);
            let now = deltas(log.push(e), f);
            let u = e.user_id@;
            let shares = texts(f.sharing@).contains(u);
            match e.room {
                None => if u == f.user_id@ || shares {
                    now.changed.contains(u) && !now.left.contains(u)
                } else {
                    now == was
                },
                Some((room, joined)) => u != f.user_id@ ==> if !texts(f.my_rooms@).contains(room@)
                    || (!joined && shares) {
                    now == was
                } else if joined {
                    now.changed.contains(u) && !now.left.contains(u)
                } else {
                    now.left.contains(u) && !now.changed.contains(u)
                },
            }
        }),
        deltas(Seq::empty(), f).changed.is_empty(),
        deltas(Seq::empty(), f).left.is_empty(),
{
    assert(log.push(e).drop_last() =~= log);
}

/// A user who joins a room is told of everybody in it; one who leaves a room is
/// told of everybody in it with whom they share no other. Nothing is changed
/// for anybody else.
pub proof fn law_own_moves_tell_of_the_members(
    log: Seq<KeyChange>,
    e: KeyChange,
    f: DeltaFacts,
    other: Seq<char>,
)
    requires
        e.user_id@ == f.user_id@,
        e.room is Some,
    ensures
        ({
            let room = (e.room->0).0@;
            let joined = (e.room->0).1;
            let was = deltas(log, f);
            let now = deltas(log.push(e), f);
            let met = members_of(f.members@, room).contains(other) && other != f.user_id@;
            if joined && met {
                now.changed.contains(other) && !now.left.contains(other)
            } else if !joined && met && !texts(f.sharing@).contains(other) {
                now.left.contains(other) && !now.changed.contains(other)
            } else {
                &&& now.changed.contains(other) == was.changed.contains(other)
                &&& now.left.contains(other) == was.left.contains(other)
            }
        }),
{
    assert(log.push(e).drop_last() =~= log);
}

/// The members of a room are those that are listed for it.
pub proof fn law_members_are_those_listed(
    members: Seq<(String, Vec<String>)>,
    k: int,
)
    requires
        0 <= k < members.len(),
        forall|j: int| k < j < members.len() ==> (#[trigger] members[j]).0@ != members[k].0@,
    ensures
        members_of(members, members[k].0@) == texts(members[k].1@),
    decreases members.len(),
{
    if k < members.len() - 1 {
        let init = members.drop_last();
        assert(members[members.len() - 1] == members.last());
        assert forall|j: int| k < j < init.len() implies (#[trigger] init[j]).0@ != init[k].0@ by {
            assert(init[j] == members[j]);
        }
        law_members_are_those_listed(init, k);
    }
}

/// The window of a question for changes lies between its tokens: from the start
/// where it has no `from`, to the end where it has no `to`; a token that cannot
/// be read is refused.
pub proof fn law_windows_lie_between_the_tokens(q: Seq<(String, String)>)
    ensures
        ({
            let from = query_value(q, "from"@);
            let to = query_value(q, "to"@);
            &&& key_window(q) is Ok <==> (from is Some ==> read_token(from->0) is Some)
                && (to is Some
                ==> read_token(to->0) is Some)
            &&& key_window(q) matches Ok(w) ==> {
                &&& w.0 == (if from is Some {
                    read_token(from->0)->0.user
                } else {
                    0u64
                })
                &&& w.1 == (if to is Some {
                    read_token(to->0)->0.user
                } else {
                    u64::MAX
                })
            }
            &&& key_window(q) matches Err(e) ==> e.status == 400
        }),
{
}

/// An upload keeps the device keys that it brings, where they are the
/// session's, and every one-time key.
pub proof fn law_uploads_keep_the_keys(
    body: &Vec<(String, Json)>,
    user_id: &str,
    device_id: &str,
    k: Seq<char>,
    r: Result<KeyUpload, ApiError>,
)
    requires
        call_ensures(upload_keys, (body, user_id, device_id), r),
    ensures
        r matches Ok(u) ==> (entry(fields_view(body@), "device_keys"@) matches Some(j)
            ==> (u.device_keys matches Some(x) && x@ == j
            && field(j, "user_id"@) == Some(JsonV::Str(user_id@))
            && field(j, "device_id"@) == Some(JsonV::Str(device_id@)))),
        r matches Ok(u) ==> (field2(JsonV::Object(fields_view(body@)), "one_time_keys"@, k) is Some
            ==> entry(fields_view(u.one_time_keys@), k)
            == field2(JsonV::Object(fields_view(body@)), "one_time_keys"@, k)),
        entry(fields_view(body@), "device_keys"@) is None ==> r is Ok,
{
}

/// Two users share a room exactly where one has joined a room of the other's.
pub proof fn law_users_who_share_a_room_share_keys(
    memberships: &Vec<RoomMembership>,
    my_rooms: &Vec<String>,
    i: int,
    r: bool,
)
    requires
        call_ensures(shares_room, (memberships, my_rooms), r),
    ensures
        0 <= i < memberships@.len() && memberships@[i].membership@ == "join"@
            && texts(my_rooms@).contains(memberships@[i].room_id@) ==> r,
        (forall|j: int| 0 <= j < memberships@.len() ==> (#[trigger] memberships@[j]).membership@
            != "join"@) ==> !r,
{
    if 0 <= i < memberships@.len() {
        assert(r == meets_in(memberships@, texts(my_rooms@)));
    }
}

/// The answer of another server adds its keys to those that were found.
pub proof fn law_answers_are_merged(
    found: Vec<(String, Json)>,
    answer: &Json,
    key: &str,
    u: Seq<char>,
    r: Vec<(String, Json)>,
)
    requires
        call_ensures(merge_answer, (found, answer, key), r),
    ensures
        field2(answer@, key@, u) is Some ==> entry(fields_view(r@), u) == field2(answer@, key@, u),
        field2(answer@, key@, u) is None ==> entry(fields_view(r@), u)
            == entry(fields_view(found@), u),
{
}

/// An answer to a query holds the keys that were found and what failed.
pub proof fn law_key_answers_hold_what_was_found(
    found: Option<(Vec<(String, Json)>, Vec<(String, Json)>)>,
    r: Json,
)
    requires
        call_ensures(query_answer, (found,), r),
    ensures
        found matches Some(p) ==> field(r@, "device_keys"@)
            == Some(JsonV::Object(fields_view(p.0@))) && field(r@, "failures"@)
            == Some(JsonV::Object(fields_view(p.1@))),
{
    reveal_strlit("device_keys");
    reveal_strlit("master_keys");
    reveal_strlit("self_signing_keys");
    reveal_strlit("user_signing_keys");
    reveal_strlit("failures");
    assert("device_keys"@.len() == 11 && "master_keys"@.len() == 11
        && "self_signing_keys"@.len() == 17 && "user_signing_keys"@.len() == 17
        && "failures"@.len() == 8);
    assert("device_keys"@[0] == 'd' && "master_keys"@[0] == 'm');
    assert("self_signing_keys"@[0] == 's' && "user_signing_keys"@[0] == 'u');
}

/// An answer to a claim holds the keys that were claimed and what failed.
pub proof fn law_claim_answers_hold_what_was_claimed(
    found: Option<(Vec<(String, Json)>, Vec<(String, Json)>)>,
    r: Json,
)
    requires
        call_ensures(claim_answer, (found,), r),
    ensures
        found matches Some(p) ==> field(r@, "one_time_keys"@)
            == Some(JsonV::Object(fields_view(p.0@))) && field(r@, "failures"@)
            == Some(JsonV::Object(fields_view(p.1@))),
{
    reveal_strlit("one_time_keys");
    reveal_strlit("failures");
    assert("one_time_keys"@.len() == 13 && "failures"@.len() == 8);
}

} // verus!

//! Server-side key backups: versioned per-user backups of encrypted session
//! keys. The keys are opaque; what is enforced here is their shape and that
//! writes go to the current version.
use crate::decimal::{decimal, parse_u64, show_u64};
use crate::error::{api_error, invalid_param, not_found, outcome, user_fault, ApiError, ApiErrorV, UserError};
use crate::json::{as_text, copy_fields, entry, field, field2, fields_view, get, is_repeated, lemma_field_of_key,
    lemma_named_before, no_fields, object_of, one_field, put_str, Json, JsonV};
use crate::routes::relations::fields_or_none;
use crate::routes::sync::seq_number;
use crate::text::{opt_str, query_get, query_value, same_text};
use vstd::prelude::*;

verus! {

pub open spec fn unknown_version() -> ApiErrorV {
    not_found("Unknown backup version"@)
}

/// A fault of the store where a version was named: one that is not there is
/// said to be unknown.
pub fn version_fault(e: UserError, text: &str) -> (r: ApiError)
    ensures
        r@ == (if e == UserError::NotFound {
            unknown_version()
        } else {
            user_fault(e, text@)
        }),
{
    match e {
        UserError::NotFound => ApiError::not_found("Unknown backup version"),
        _ => ApiError::from_user_error(e, text),
    }
}

/// What is known of a version.
#[derive(Debug)]
pub struct BackupVersionMeta {
    pub algorithm: String,
    pub auth_data: Json,
    pub count: u64,
    pub etag: u64,
}

/// How a version is told; an unknown one is not found.
pub fn version_meta_json(version: u64, meta: Option<BackupVersionMeta>) -> (r: Result<
    Json,
    ApiError,
>)
    ensures
        match meta {
            Some(m) => r matches Ok(j) && j@ == JsonV::Object(
                no_fields().insert("algorithm"@, JsonV::Str(m.algorithm@)).insert(
                    "auth_data"@,
                    m.auth_data@,
                ).insert("count"@, JsonV::Int(m.count as int)).insert(
                    "etag"@,
                    JsonV::Str(decimal(m.etag as nat)),
                ).insert("version"@, JsonV::Str(decimal(version as nat))),
            ),
            None => r matches Err(e) && e@ == unknown_version(),
        },
{
    let m = match meta {
        Some(m) => m,
        None => {
            return Err(ApiError::not_found("Unknown backup version"));
        },
    };
    let mut out: Vec<(String, Json)> = Vec::new();
    put_str(&mut out, "algorithm", Json::Str(m.algorithm));
    put_str(&mut out, "auth_data", m.auth_data);
    put_str(&mut out, "count", Json::Int(m.count as i128));
    put_str(&mut out, "etag", Json::Str(show_u64(m.etag)));
    put_str(&mut out, "version", Json::Str(show_u64(version)));
    Ok(Json::Object(out))
}

/// Reads a backup version.
pub fn parse_version(s: &str) -> (r: Result<u64, ApiError>)
    ensures
        outcome(r) == read_version(s@),
{
    match parse_u64(s) {
        Some(n) => Ok(n),
        None => Err(ApiError::invalid_param("Invalid backup version")),
    }
}

pub open spec fn read_version(s: Seq<char>) -> Result<u64, ApiErrorV> {
    match seq_number(s) {
        Some(n) => Ok::<u64, ApiErrorV>(n as u64),
        None => Err(invalid_param("Invalid backup version"@)),
    }
}

/// The algorithm and the authentication data of a version.
pub fn algorithm_and_auth_data(body: &Vec<(String, Json)>) -> (r: Result<(String, Json), ApiError>)
    ensures
        ({
            let m = fields_view(body@);
            match (as_text(entry(m, "algorithm"@)), entry(m, "auth_data"@)) {
                (Some(a), Some(d)) => r matches Ok(p) && p.0@ == a && p.1@ == d,
                (Some(a), None) => r matches Err(e) && e@ == invalid_param("Missing auth_data"@),
                (None, _) => r matches Err(e) && e@ == invalid_param("Missing algorithm"@),
            }
        }),
{
    let algorithm = match get(body, "algorithm") {
        Some(j) => match j.as_str() {
            Some(s) => s.to_owned(),
            None => {
                return Err(ApiError::invalid_param("Missing algorithm"));
            },
        },
        None => {
            return Err(ApiError::invalid_param("Missing algorithm"));
        },
    };
    match get(body, "auth_data") {
        Some(d) => Ok((algorithm, d.copy())),
        None => Err(ApiError::invalid_param("Missing auth_data")),
    }
}

/// The answer to the making of a version.
pub fn create_version(version: u64) -> (r: Json)
    ensures
        r@ == one_field("version"@, JsonV::Str(decimal(version as nat))),
{
    object_of("version", Json::Str(show_u64(version)))
}

/// The error of a write to a version that is not the current one: clients must
/// switch to the new backup, not keep writing the old one.
pub open spec fn wrong_version(current: Option<u64>) -> ApiErrorV {
    ApiErrorV {
        extra: match current {
            Some(c) => no_fields().insert("current_version"@, JsonV::Str(decimal(c as nat))),
            None => no_fields(),
        },
        ..api_error(403, "M_WRONG_ROOM_KEYS_VERSION"@, "Wrong backup version"@)
    }
}

/// The version that a request is about.
pub open spec fn asked_version(
    q: Seq<(String, String)>,
    current: Option<u64>,
    must_be_current: bool,
) -> Result<u64, ApiErrorV> {
    match query_value(q, "version"@) {
        None => Err(invalid_param("Missing version parameter"@)),
        Some(s) => match read_version(s) {
            Ok(v) => if must_be_current && current != Some(v) {
                Err(wrong_version(current))
            } else {
                Ok(v)
            },
            Err(e) => Err(e),
        },
    }
}

/// The version that a request is about, checked against the caller's current
/// backup where it writes.
pub fn current_version(
    q: &Vec<(String, String)>,
    current: Option<u64>,
    must_be_current: bool,
) -> (r: Result<u64, ApiError>)
    ensures
        outcome(r) == asked_version(q@, current, must_be_current),
{
    let text = match query_get(q, "version") {
        Some(s) => s,
        None => {
            return Err(ApiError::invalid_param("Missing version parameter"));
        },
    };
    let version = match parse_version(text.as_str()) {
        Ok(v) => v,
        Err(e) => {
            return Err(e);
        },
    };
    let is_current = match current {
        Some(c) => c == version,
        None => false,
    };
    if must_be_current && !is_current {
        let mut e = ApiError::new(403, "M_WRONG_ROOM_KEYS_VERSION", "Wrong backup version");
        match current {
            Some(c) => {
                put_str(&mut e.extra, "current_version", Json::Str(show_u64(c)));
            },
            None => {},
        }
        return Err(e);
    }
    Ok(version)
}

/// A write never goes to any version but the current one.
pub proof fn law_writes_go_to_the_current_version(
    q: Seq<(String, String)>,
    current: Option<u64>,
)
    ensures
        asked_version(q, current, true) matches Ok(v) ==> current == Some(v),
{
}

// -- keys ---------------------------------------------------------------------

/// A backed-up key.
#[derive(Debug)]
pub struct KeyRow {
    pub room_id: String,
    pub session_id: String,
    pub data: Json,
}

/// The sessions in a body.
pub open spec fn sessions_in(body: JsonV) -> Map<Seq<char>, JsonV> {
    fields_or_none(field(body, "sessions"@))
}

/// Does a payload back up `data` for a session? Session-level bodies are the
/// key, room-level ones carry `sessions`, top-level ones carry `rooms`.
pub open spec fn backs_up(
    body: Map<Seq<char>, JsonV>,
    room: Option<Seq<char>>,
    session: Option<Seq<char>>,
    r: Seq<char>,
    s: Seq<char>,
    data: JsonV,
) -> bool {
    match (room, session) {
        (Some(x), Some(y)) => r == x && s == y && data == JsonV::Object(body),
        (Some(x), None) => r == x && entry(sessions_in(JsonV::Object(body)), s) == Some(data),
        (None, _) => match entry(fields_or_none(entry(body, "rooms"@)), r) {
            Some(b) => entry(sessions_in(b), s) == Some(data),
            None => false,
        },
    }
}

/// Is a key among the rows?
pub open spec fn has_row(rows: Seq<KeyRow>, r: Seq<char>, s: Seq<char>, data: JsonV) -> bool {
    exists|i: int|
        0 <= i < rows.len() && (#[trigger] rows[i]).room_id@ == r && rows[i].session_id@ == s
            && rows[i].data@ == data
}

/// No session has two rows.
pub open spec fn rows_once(rows: Seq<KeyRow>) -> bool {
    forall|i: int, j: int|
        #![trigger rows[i], rows[j]]
        0 <= i < j < rows.len() ==> !(rows[i].room_id@ == rows[j].room_id@ && rows[i].session_id@
            == rows[j].session_id@)
}

fn has_session(rows: &Vec<KeyRow>, room: &str, session: &str) -> (r: bool)
    ensures
        r <==> exists|i: int|
            0 <= i < rows@.len() && (#[trigger] rows@[i]).room_id@ == room@ && rows@[i].session_id@
                == session@,
{
    let mut i: usize = 0;
    while i < rows.len()
        invariant
            i <= rows.len(),
            forall|j: int|
                0 <= j < i ==> !((#[trigger] rows@[j]).room_id@ == room@ && rows@[j].session_id@
                    == session@),
        decreases rows.len() - i,
    {
        if same_text(rows[i].room_id.as_str(), room) && same_text(
            rows[i].session_id.as_str(),
            session,
        ) {
            return true;
        }
        i += 1;
    }
    false
}

proof fn lemma_row_added(rows: Seq<KeyRow>, k: KeyRow)
    ensures
        forall|r: Seq<char>, s: Seq<char>, d: JsonV| #[trigger]
            has_row(rows.push(k), r, s, d) <==> has_row(rows, r, s, d) || (r == k.room_id@ && s
                == k.session_id@ && d == k.data@),
{
    let out = rows.push(k);
    assert forall|r: Seq<char>, s: Seq<char>, d: JsonV| #[trigger]
        has_row(out, r, s, d) <==> has_row(rows, r, s, d) || (r == k.room_id@ && s == k.session_id@
            && d == k.data@) by {
        if has_row(rows, r, s, d) {
            let i = choose|i: int|
                0 <= i < rows.len() && (#[trigger] rows[i]).room_id@ == r && rows[i].session_id@
                    == s && rows[i].data@ == d;
            assert(out[i] == rows[i]);
        }
        if r == k.room_id@ && s == k.session_id@ && d == k.data@ {
            assert(out[rows.len() as int] == k);
        }
        if has_row(out, r, s, d) {
            let i = choose|i: int|
                0 <= i < out.len() && (#[trigger] out[i]).room_id@ == r && out[i].session_id@ == s
                    && out[i].data@ == d;
            if i < rows.len() {
                assert(rows[i] == out[i]);
            }
        }
    }
}

/// Adds the sessions of one room to the rows, which hold none of it yet.
fn add_sessions(rows: Vec<KeyRow>, room: &str, body: &Json) -> (r: Vec<KeyRow>)
    requires
        rows_once(rows@),
        forall|s: Seq<char>, d: JsonV| !#[trigger] has_row(rows@, room@, s, d),
    ensures
        rows_once(r@),
        forall|x: Seq<char>, s: Seq<char>, d: JsonV| #[trigger]
            has_row(r@, x, s, d) <==> has_row(rows@, x, s, d) || (x == room@ && entry(
                sessions_in(body@),
                s,
            ) == Some(d)),
{
    let mut out = rows;
    let sessions = match body.get("sessions") {
        Some(Json::Object(m)) => m,
        _ => {
            return out;
        },
    };
    let ghost m = fields_view(sessions@);
    let mut i: usize = 0;
    while i < sessions.len()
        invariant
            i <= sessions.len(),
            m == fields_view(sessions@),
            rows_once(out@),
            forall|x: Seq<char>, s: Seq<char>, d: JsonV| #[trigger]
                has_row(out@, x, s, d) <==> has_row(rows@, x, s, d) || (x == room@
                    && fields_view(sessions@.take(i as int)).dom().contains(s) && m.dom().contains(s)
                    && m[s] == d),
            forall|s: Seq<char>, d: JsonV| !#[trigger] has_row(rows@, room@, s, d),
        decreases sessions.len() - i,
    {
        let ghost before = fields_view(sessions@.take(i as int)).dom();
        let ghost k = sessions@[i as int].0@;
        let ghost prior = out@;
        proof {
            assert(sessions@.take(i + 1).drop_last() =~= sessions@.take(i as int));
            assert(fields_view(sessions@.take(i + 1)).dom() =~= before.insert(k));
            lemma_field_of_key(sessions@, k);
        }
        let name = sessions[i].0.as_str();
        if !has_session(&out, room, name) {
            match get(sessions, name) {
                Some(j) => {
                    let row = KeyRow {
                        room_id: room.to_owned(),
                        session_id: name.to_owned(),
                        data: j.copy(),
                    };
                    out.push(row);
                    proof {
                        lemma_row_added(prior, row);
                    }
                },
                None => {},
            }
        } else {
            proof {
                let j = choose|j: int|
                    0 <= j < out@.len() && (#[trigger] out@[j]).room_id@ == room@
                        && out@[j].session_id@ == k;
                assert(has_row(out@, room@, k, out@[j].data@));
                assert(before.contains(k));
                assert(before.insert(k) =~= before);
            }
        }
        i += 1;
    }
    proof {
        assert(sessions@.take(sessions@.len() as int) =~= sessions@);
    }
    out
}

/// Flattens a keys payload into rows.
pub fn flatten_keys(
    body: &Vec<(String, Json)>,
    room_id: Option<&str>,
    session_id: Option<&str>,
) -> (r: Vec<KeyRow>)
    ensures
        rows_once(r@),
        forall|x: Seq<char>, s: Seq<char>, d: JsonV| #[trigger]
            has_row(r@, x, s, d) <==> backs_up(
                fields_view(body@),
                opt_str(room_id),
                opt_str(session_id),
                x,
                s,
                d,
            ),
{
    let mut out: Vec<KeyRow> = Vec::new();
    match (room_id, session_id) {
        (Some(room), Some(session)) => {
            let row = KeyRow {
                room_id: room.to_owned(),
                session_id: session.to_owned(),
                data: Json::Object(copy_fields(body)),
            };
            proof {
                lemma_row_added(out@, row);
            }
            out.push(row);
            out
        },
        (Some(room), None) => add_sessions(out, room, &Json::Object(copy_fields(body))),
        (None, _) => {
            let rooms = match get(body, "rooms") {
                Some(Json::Object(m)) => m,
                _ => {
                    return out;
                },
            };
            let ghost m = fields_view(rooms@);
            let mut i: usize = 0;
            while i < rooms.len()
                invariant
                    i <= rooms.len(),
                    m == fields_view(rooms@),
                    rows_once(out@),
                    forall|x: Seq<char>, s: Seq<char>, d: JsonV| #[trigger]
                        has_row(out@, x, s, d) <==> fields_view(
                            rooms@.take(i as int),
                        ).dom().contains(x) && m.dom().contains(x) && entry(sessions_in(m[x]), s)
                            == Some(d),
                decreases rooms.len() - i,
            {
                let ghost before = fields_view(rooms@.take(i as int)).dom();
                let ghost k = rooms@[i as int].0@;
                let ghost prior = out@;
                proof {
                    assert(rooms@.take(i + 1).drop_last() =~= rooms@.take(i as int));
                    assert(fields_view(rooms@.take(i + 1)).dom() =~= before.insert(k));
                    lemma_field_of_key(rooms@, k);
                }
                if !is_repeated(rooms, i) {
                    proof {
                        lemma_named_before(rooms@, i as int);
                        assert forall|s: Seq<char>, d: JsonV| !#[trigger] has_row(
                            out@,
                            k,
                            s,
                            d,
                        ) by {}
                    }
                    match get(rooms, rooms[i].0.as_str()) {
                        Some(b) => {
                            out = add_sessions(out, rooms[i].0.as_str(), b);
                        },
                        None => {},
                    }
                    proof {
                        assert forall|x: Seq<char>, s: Seq<char>, d: JsonV| #[trigger]
                            has_row(out@, x, s, d) <==> before.insert(k).contains(x)
                                && m.dom().contains(x) && entry(sessions_in(m[x]), s) == Some(
                                d,
                            ) by {
                            assert(has_row(prior, x, s, d) <==> before.contains(x)
                                && m.dom().contains(x) && entry(sessions_in(m[x]), s) == Some(d));
                        }
                    }
                } else {
                    proof {
                        lemma_named_before(rooms@, i as int);
                        assert(before.insert(k) =~= before);
                    }
                }
                i += 1;
            }
            proof {
                assert(rooms@.take(rooms@.len() as int) =~= rooms@);
            }
            out
        },
    }
}

/// The answer to a change of the keys.
pub fn put_keys_answer(count: u64, etag: u64) -> (r: Json)
    ensures
        r@ == JsonV::Object(
            no_fields().insert("count"@, JsonV::Int(count as int)).insert(
                "etag"@,
                JsonV::Str(decimal(etag as nat)),
            ),
        ),
{
    let mut m: Vec<(String, Json)> = Vec::new();
    put_str(&mut m, "count", Json::Int(count as i128));
    put_str(&mut m, "etag", Json::Str(show_u64(etag)));
    Json::Object(m)
}

/// The keys by room and session.
pub open spec fn by_room(rows: Seq<KeyRow>) -> Map<Seq<char>, JsonV>
    decreases rows.len(),
{
    if rows.len() == 0 {
        no_fields()
    } else {
        let init = by_room(rows.drop_last());
        let k = rows.last();
        let sessions = match entry(init, k.room_id@) {
            Some(b) => sessions_in(b),
            None => no_fields(),
        };
        init.insert(
            k.room_id@,
            one_field("sessions"@, JsonV::Object(sessions.insert(k.session_id@, k.data@))),
        )
    }
}

fn shape_rooms(rows: &Vec<KeyRow>) -> (r: Vec<(String, Json)>)
    ensures
        fields_view(r@) == by_room(rows@),
{
    let mut out: Vec<(String, Json)> = Vec::new();
    let mut i: usize = 0;
    while i < rows.len()
        invariant
            i <= rows.len(),
            fields_view(out@) == by_room(rows@.take(i as int)),
        decreases rows.len() - i,
    {
        proof {
            assert(rows@.take(i + 1).drop_last() =~= rows@.take(i as int));
        }
        let k = &rows[i];
        let mut sessions: Vec<(String, Json)> = match get(&out, k.room_id.as_str()) {
            Some(b) => match b.get("sessions") {
                Some(Json::Object(m)) => copy_fields(m),
                _ => Vec::new(),
            },
            None => Vec::new(),
        };
        put_str(&mut sessions, k.session_id.as_str(), k.data.copy());
        put_str(&mut out, k.room_id.as_str(), object_of("sessions", Json::Object(sessions)));
        i += 1;
    }
    proof {
        assert(rows@.take(rows@.len() as int) =~= rows@);
    }
    out
}

/// What a request for keys is answered, from the rows of the version that it is
/// about.
pub open spec fn keys_answer(
    rows: Seq<KeyRow>,
    room: Option<Seq<char>>,
    session: Option<Seq<char>>,
) -> Result<JsonV, ApiErrorV> {
    if session is Some {
        if rows.len() == 0 {
            Err(not_found("No backed-up key for this session"@))
        } else {
            Ok(rows[0].data@)
        }
    } else {
        match room {
            Some(r) => Ok(
                match entry(by_room(rows), r) {
                    Some(b) => b,
                    None => one_field("sessions"@, JsonV::Object(no_fields())),
                },
            ),
            None => Ok(one_field("rooms"@, JsonV::Object(by_room(rows)))),
        }
    }
}

/// What a request for keys is answered; `rows` is empty where the version is
/// not there.
pub fn get_keys_answer(
    rows: Option<Vec<KeyRow>>,
    room_id: Option<&str>,
    session_id: Option<&str>,
) -> (r: Result<Json, ApiError>)
    ensures
        match rows {
            None => r matches Err(e) && e@ == unknown_version(),
            Some(v) => match keys_answer(v@, opt_str(room_id), opt_str(session_id)) {
                Ok(x) => r matches Ok(j) && j@ == x,
                Err(x) => r matches Err(e) && e@ == x,
            },
        },
{
    let rows = match rows {
        Some(v) => v,
        None => {
            return Err(ApiError::not_found("Unknown backup version"));
        },
    };
    if session_id.is_some() {
        if rows.len() == 0 {
            return Err(ApiError::not_found("No backed-up key for this session"));
        }
        return Ok(rows[0].data.copy());
    }
    let rooms = shape_rooms(&rows);
    match room_id {
        Some(room) => match get(&rooms, room) {
            Some(b) => Ok(b.copy()),
            None => Ok(object_of("sessions", Json::Object(Vec::new()))),
        },
        None => Ok(object_of("rooms", Json::Object(rooms))),
    }
}

/// The key that an answer holds for a session.
pub open spec fn answered(rooms: Map<Seq<char>, JsonV>, r: Seq<char>, s: Seq<char>) -> Option<
    JsonV,
> {
    match entry(rooms, r) {
        Some(b) => entry(sessions_in(b), s),
        None => None,
    }
}

/// Every stored key is answered, and nothing else: a read gives back what the
/// rows hold.
pub proof fn law_answer_holds_every_key(rows: Seq<KeyRow>, r: Seq<char>, s: Seq<char>, d: JsonV)
    requires
        rows_once(rows),
    ensures
        answered(by_room(rows), r, s) == Some(d) <==> has_row(rows, r, s, d),
    decreases rows.len(),
{
    if rows.len() > 0 {
        let t = rows.drop_last();
        let k = rows.last();
        assert forall|i: int, j: int|
            #![trigger t[i], t[j]]
            0 <= i < j < t.len() implies !(t[i].room_id@ == t[j].room_id@ && t[i].session_id@
            == t[j].session_id@) by {
            assert(rows[i] == t[i] && rows[j] == t[j]);
        }
        law_answer_holds_every_key(t, r, s, d);
        lemma_row_added(t, k);
        assert(t.push(k) =~= rows);
        if r == k.room_id@ && s == k.session_id@ {
            if has_row(t, r, s, d) {
                let i = choose|i: int|
                    0 <= i < t.len() && (#[trigger] t[i]).room_id@ == r && t[i].session_id@ == s
                        && t[i].data@ == d;
                assert(rows[i] == t[i]);
                assert(rows[rows.len() - 1] == k);
            }
        }
        assert(has_row(rows, r, s, d) <==> has_row(t, r, s, d) || (r == k.room_id@ && s
            == k.session_id@ && d == k.data@));
    } else {
        assert(!has_row(rows, r, s, d));
    }
}

/// What is put is what is got: the keys of a payload, stored as they are, are
/// answered as the payload gave them.
pub proof fn law_put_keys_read_back(
    body: Map<Seq<char>, JsonV>,
    rows: Seq<KeyRow>,
    r: Seq<char>,
    s: Seq<char>,
    d: JsonV,
)
    requires
        rows_once(rows),
        forall|x: Seq<char>, y: Seq<char>, z: JsonV| #[trigger]
            has_row(rows, x, y, z) <==> backs_up(body, None, None, x, y, z),
    ensures
        answered(by_room(rows), r, s) == Some(d) <==> backs_up(body, None, None, r, s, d),
{
    law_answer_holds_every_key(rows, r, s, d);
    assert(has_row(rows, r, s, d) <==> backs_up(body, None, None, r, s, d));
}

/// What a payload backs up: the session of a request for one; each session in
/// the body of a request for a room; and each session of each room that the
/// body lists, each with the data that stands there.
pub proof fn law_payloads_back_up_what_they_hold(
    body: Map<Seq<char>, JsonV>,
    room: Seq<char>,
    session: Seq<char>,
    r: Seq<char>,
    s: Seq<char>,
    data: JsonV,
)
    ensures
        backs_up(body, Some(room), Some(session), r, s, data) <==> r == room && s == session && data
            == JsonV::Object(body),
        backs_up(body, Some(room), None, r, s, data) <==> r == room && field2(
            JsonV::Object(body),
            "sessions"@,
            s,
        ) == Some(data),
        backs_up(body, None, None, r, s, data) <==> (field2(JsonV::Object(body), "rooms"@,
            r) matches Some(
            b,
        ) && field2(b, "sessions"@, s) == Some(data)),
{
}

/// What is read back: the key of the one session that was asked for, else 404;
/// the sessions of a room; or all rooms with their sessions.
pub proof fn law_keys_are_read_back(
    rows: Seq<KeyRow>,
    room: Seq<char>,
    session: Seq<char>,
    s: Seq<char>,
    d: JsonV,
)
    requires
        rows_once(rows),
    ensures
        rows.len() > 0 ==> keys_answer(rows, Some(room), Some(session)) == Ok::<JsonV, ApiErrorV>(
            rows[0].data@,
        ),
        rows.len() == 0 ==> (keys_answer(rows, Some(room), Some(session)) matches Err(e)
            && e.status == 404),
        keys_answer(rows, Some(room), None) matches Ok(j) && (field2(j, "sessions"@, s) == Some(d)
            <==> has_row(rows, room, s, d)),
        keys_answer(rows, None, None) matches Ok(j) && ((field2(j, "rooms"@, room) is Some
            && field2(
            field2(j, "rooms"@, room)->0,
            "sessions"@,
            s,
        ) == Some(d)) <==> has_row(rows, room, s, d)),
{
    law_answer_holds_every_key(rows, room, s, d);
}

/// A request is about the version that it names; one that may only be about the
/// current version is refused with 403 where it names another, and told which
/// is current.
pub proof fn law_requests_are_about_the_version_they_name(
    q: Seq<(String, String)>,
    current: Option<u64>,
)
    ensures
        query_value(q, "version"@) is None ==> asked_version(q, current, false) is Err
            && asked_version(q, current, true) is Err,
        query_value(q, "version"@) matches Some(s) ==> {
            &&& asked_version(q, current, false) is Ok <==> seq_number(s) is Some
            &&& seq_number(s) matches Some(n) ==> asked_version(q, current, false) == Ok::<
                u64,
                ApiErrorV,
            >(n as u64)
            &&& seq_number(s) matches Some(n) ==> (if current == Some(n as u64) {
                asked_version(q, current, true) == Ok::<u64, ApiErrorV>(n as u64)
            } else {
                asked_version(q, current, true) matches Err(e) && e.status == 403
                    && (current matches Some(
                    c,
                ) ==> field(JsonV::Object(e.extra), "current_version"@) == Some(
                    JsonV::Str(decimal(c as nat)),
                ))
            })
        },
{
}

/// What is known of a version is told: how it encrypts, what it is signed with,
/// how many keys it holds, and when it last changed.
pub proof fn law_versions_are_told(
    version: u64,
    meta: Option<BackupVersionMeta>,
    r: Result<Json, ApiError>,
)
    requires
        call_ensures(version_meta_json, (version, meta), r),
    ensures
        meta matches Some(m) ==> (r matches Ok(j) && field(j@, "algorithm"@)
            == Some(JsonV::Str(m.algorithm@))
            && field(j@, "auth_data"@) == Some(m.auth_data@) && field(j@, "count"@) == Some(
            JsonV::Int(m.count as int),
        ) && field(j@, "etag"@) == Some(JsonV::Str(decimal(m.etag as nat)))
            && field(j@, "version"@) == Some(
            JsonV::Str(decimal(version as nat)),
        )),
        meta is None ==> (r matches Err(e) && e@.status == 404),
{
    reveal_strlit("algorithm");
    reveal_strlit("auth_data");
    reveal_strlit("count");
    reveal_strlit("etag");
    reveal_strlit("version");
    assert("algorithm"@.len() == 9 && "auth_data"@.len() == 9 && "count"@.len() == 5
        && "etag"@.len() == 4 && "version"@.len() == 7);
    assert("algorithm"@[1] == 'l' && "auth_data"@[1] == 'u');
}

/// A version is made of its algorithm and its data, and must have both.
pub proof fn law_versions_need_algorithm_and_data(
    body: &Vec<(String, Json)>,
    r: Result<(String, Json), ApiError>,
)
    requires
        call_ensures(algorithm_and_auth_data, (body,), r),
    ensures
        r is Ok <==> (entry(fields_view(body@), "algorithm"@) matches Some(JsonV::Str(_)))
            && entry(fields_view(body@), "auth_data"@) is Some,
        r matches Ok(p) ==> entry(fields_view(body@), "algorithm"@) == Some(JsonV::Str(p.0@))
            && entry(fields_view(body@), "auth_data"@) == Some(p.1@),
        r matches Err(e) ==> e@.status == 400,
{
}

} // verus!

//! Sending: message events, state events, redactions.
use crate::error::{api_error, bad_json, internal, invalid_param, ApiError, ApiErrorV};
use crate::extract::Auth;
use crate::ids::{check_event_id, check_room_alias, event_id_fault, is_event_id, is_room_alias};
use crate::json::{
    field, fields_view, items_view, lemma_field_of_key, lemma_items, no_fields, put_str,
    read_strings, read_strings_in, remove, strings_among, text_json, Json, JsonV,
};
use crate::merge::same_json;
use crate::routes::rooms::{names_as_creator, opt_json};
use crate::text::{join_texts, list_has, opt_text, query_get, query_value, same_text, texts};
use vstd::prelude::*;
use vstd::string::StringExecFns;

verus! {

// -- transactions -------------------------------------------------------------

/// The record of a send, which keeps a retry from sending twice.
#[derive(Debug)]
pub struct TxnStamp {
    pub user_id: String,
    pub device_id: String,
    pub scope: String,
    pub txn_id: String,
    pub ts: u64,
}

/// The record of a send at a time.
pub fn txn_stamp(auth: &Auth, scope: &str, txn_id: &str, ts: u64) -> (r: TxnStamp)
    ensures
        r.user_id@ == auth.user_id@,
        r.device_id@ == auth.device_id@,
        r.scope@ == scope@,
        r.txn_id@ == txn_id@,
        r.ts == ts,
{
    TxnStamp {
        user_id: auth.user_id.as_str().to_owned(),
        device_id: auth.device_id.as_str().to_owned(),
        scope: scope.to_owned(),
        txn_id: txn_id.to_owned(),
        ts,
    }
}

/// Transaction IDs are scoped to the endpoint: what is done, where, and to
/// what.
pub open spec fn scope_of(action: Seq<char>, room: Seq<char>, what: Seq<char>) -> Seq<char> {
    action.push('\0') + room.push('\0') + what
}

fn txn_scope(action: &str, room_id: &str, what: &str) -> (r: String)
    ensures
        r@ == scope_of(action@, room_id@, what@),
{
    let mut out = action.to_owned();
    out.push('\0');
    out.append(room_id);
    out.push('\0');
    out.append(what);
    proof {
        assert(out@ =~= scope_of(action@, room_id@, what@));
    }
    out
}

/// The scope of the transaction IDs of message events.
pub fn send_scope(room_id: &str, event_type: &str) -> (r: String)
    ensures
        r@ == scope_of("send"@, room_id@, event_type@),
{
    txn_scope("send", room_id, event_type)
}

/// The scope of the transaction IDs of redactions.
pub fn redact_scope(room_id: &str, event_id: &str) -> (r: String)
    ensures
        r@ == scope_of("redact"@, room_id@, event_id@),
{
    txn_scope("redact", room_id, event_id)
}

proof fn lemma_same_cut(a: Seq<char>, x: Seq<char>, b: Seq<char>, y: Seq<char>)
    requires
        a.push('\0') + x == b.push('\0') + y,
        !a.contains('\0'),
        !b.contains('\0'),
    ensures
        a == b,
        x == y,
{
    let s = a.push('\0') + x;
    let t = b.push('\0') + y;
    if a.len() < b.len() {
        assert(t[a.len() as int] == b[a.len() as int]);
        assert(s[a.len() as int] == '\0');
        assert(b.contains(b[a.len() as int]));
    }
    if b.len() < a.len() {
        assert(s[b.len() as int] == a[b.len() as int]);
        assert(t[b.len() as int] == '\0');
        assert(a.contains(a[b.len() as int]));
    }
    assert(a =~= b) by {
        assert forall|i: int| 0 <= i < a.len() implies a[i] == b[i] by {
            assert(s[i] == a[i]);
            assert(t[i] == b[i]);
        }
    }
    assert(s.len() == a.len() + 1 + x.len());
    assert(t.len() == b.len() + 1 + y.len());
    assert(x =~= y) by {
        assert forall|i: int| 0 <= i < x.len() implies x[i] == y[i] by {
            assert(s[a.len() + 1 + i] == x[i]);
            assert(t[a.len() + 1 + i] == y[i]);
        }
    }
}

/// A transaction ID used at one endpoint never answers for another: scopes
/// agree only where the action, the room and the target do. (Actions and room
/// IDs hold no NUL.)
pub proof fn law_scopes_keep_apart(
    a1: Seq<char>,
    r1: Seq<char>,
    w1: Seq<char>,
    a2: Seq<char>,
    r2: Seq<char>,
    w2: Seq<char>,
)
    requires
        scope_of(a1, r1, w1) == scope_of(a2, r2, w2),
        !a1.contains('\0'),
        !a2.contains('\0'),
        !r1.contains('\0'),
        !r2.contains('\0'),
    ensures
        a1 == a2,
        r1 == r2,
        w1 == w2,
{
    assert(scope_of(a1, r1, w1) =~= a1.push('\0') + (r1.push('\0') + w1));
    assert(scope_of(a2, r2, w2) =~= a2.push('\0') + (r2.push('\0') + w2));
    lemma_same_cut(a1, r1.push('\0') + w1, a2, r2.push('\0') + w2);
    lemma_same_cut(r1, w1, r2, w2);
}

/// The event that an earlier attempt at a transaction made, if any.
pub fn txn_replay(replayed: Option<String>) -> (r: Result<Option<String>, ApiError>)
    ensures
        match replayed {
            Some(id) => if is_event_id(id@) {
                r matches Ok(Some(x)) && x@ == id@
            } else {
                r matches Err(e) && e@ == internal(event_id_fault(id@))
            },
            None => r matches Ok(None),
        },
{
    match replayed {
        Some(id) => match check_event_id(id.as_str()) {
            Ok(()) => Ok(Some(id)),
            Err(fault) => Err(ApiError::internal(fault.as_str())),
        },
        None => Ok(None),
    }
}

/// What is done with a message that a client sends.
#[derive(Clone, Copy, Debug, PartialEq, Eq, Structural)]
pub struct SendPlan {
    /// The rate limit applies: not to retries, and not to exempt appservices.
    pub limited: bool,
    /// A timestamp to send the event at.
    pub ts_override: Option<u64>,
}

/// A timestamp that a caller may set: only appservices may; for everyone else
/// the parameter is ignored.
pub open spec fn ts_for(ts: Option<u64>, appservice: bool) -> Option<u64> {
    if appservice {
        ts
    } else {
        None
    }
}

/// What is done with a message that is no retry.
pub fn send_message_event(auth: &Auth, ts: Option<u64>) -> (r: SendPlan)
    ensures
        r.limited == !(auth.appservice matches Some(reg) && (!auth.masquerade
            || !reg.rate_limited)),
        r.ts_override == ts_for(ts, auth.appservice is Some),
{
    SendPlan {
        limited: !auth.rate_limit_exempt(),
        ts_override: if auth.is_appservice() {
            ts
        } else {
            None
        },
    }
}

/// The content of a redaction.
pub fn redact_event(event_id: &str, reason: Option<String>) -> (r: Json)
    ensures
        ({
            let m = no_fields().insert("redacts"@, JsonV::Str(event_id@));
            r@ == JsonV::Object(
                match opt_text(reason) {
                    Some(s) => m.insert("reason"@, JsonV::Str(s)),
                    None => m,
                },
            )
        }),
{
    let mut m: Vec<(String, Json)> = Vec::new();
    put_str(&mut m, "redacts", text_json(event_id));
    match reason {
        Some(s) => {
            put_str(&mut m, "reason", Json::Str(s));
        },
        None => {},
    }
    Json::Object(m)
}

// -- state events -------------------------------------------------------------

pub open spec fn main_alias(content: JsonV) -> Seq<JsonV> {
    match field(content, "alias"@) {
        None => Seq::empty(),
        Some(JsonV::Null) => Seq::empty(),
        Some(v) => seq![v],
    }
}

/// The values that a canonical-alias event names as aliases.
pub open spec fn named_as_alias(content: JsonV) -> Result<Seq<JsonV>, ApiErrorV> {
    match field(content, "alt_aliases"@) {
        None => Ok(main_alias(content)),
        Some(JsonV::Null) => Ok(main_alias(content)),
        Some(JsonV::Array(items)) => Ok(main_alias(content) + items),
        Some(_) => Err(invalid_param("alt_aliases must be an array"@)),
    }
}

/// What is wrong with the first of the aliases that cannot stand, from `i` on.
/// An empty alias is as good as none; any other must exist and point at the
/// room.
pub open spec fn alias_fault(
    named: Seq<JsonV>,
    room: Seq<char>,
    directory: Seq<(String, String)>,
    i: int,
) -> Option<ApiErrorV>
    decreases named.len() - i,
{
    if i < 0 || i >= named.len() {
        None
    } else {
        match named[i] {
            JsonV::Str(alias) => if alias.len() == 0 {
                alias_fault(named, room, directory, i + 1)
            } else if !is_room_alias(alias) {
                Some(invalid_param("invalid alias: "@ + alias))
            } else if query_value(directory, alias) != Some(room) {
                Some(
                    api_error(400, "M_BAD_ALIAS"@, alias + " does not point to this room"@),
                )
            } else {
                alias_fault(named, room, directory, i + 1)
            },
            _ => Some(invalid_param("aliases must be strings"@)),
        }
    }
}

/// What is wrong with a canonical-alias event: it may only name aliases that
/// exist and point at this room.
pub open spec fn canonical_fault(
    content: JsonV,
    room: Seq<char>,
    directory: Seq<(String, String)>,
) -> Option<ApiErrorV> {
    match named_as_alias(content) {
        Ok(named) => alias_fault(named, room, directory, 0),
        Err(e) => Some(e),
    }
}

fn alias_values(content: &Json) -> (r: Result<Vec<Json>, ApiError>)
    ensures
        match named_as_alias(content@) {
            Ok(named) => r matches Ok(v) && items_view(v@) == named,
            Err(x) => r matches Err(e) && e@ == x,
        },
{
    let mut out: Vec<Json> = Vec::new();
    match content.get("alias") {
        None => {},
        Some(Json::Null) => {},
        Some(v) => {
            let j = v.copy();
            proof {
                assert(out@.push(j).drop_last() =~= out@);
            }
            out.push(j);
            proof {
                lemma_items(out@);
                assert(items_view(out@) =~= seq![v@]);
            }
        },
    }
    let ghost main = items_view(out@);
    proof {
        assert(main =~= main_alias(content@));
    }
    match content.get("alt_aliases") {
        None => Ok(out),
        Some(Json::Null) => Ok(out),
        Some(Json::Array(items)) => {
            let ghost all = items_view(items@);
            proof {
                lemma_items(items@);
                assert(main + all.take(0) =~= main);
            }
            let mut i: usize = 0;
            while i < items.len()
                invariant
                    i <= items.len(),
                    all == items_view(items@),
                    all == items@.map_values(|j: Json| j@),
                    items_view(out@) == main + all.take(i as int),
                decreases items.len() - i,
            {
                let j = items[i].copy();
                proof {
                    assert(out@.push(j).drop_last() =~= out@);
                    assert(main + all.take(i + 1) =~= (main + all.take(i as int)).push(j@));
                }
                out.push(j);
                i += 1;
            }
            proof {
                assert(all.take(all.len() as int) =~= all);
            }
            Ok(out)
        },
        Some(_) => Err(ApiError::invalid_param("alt_aliases must be an array")),
    }
}

/// The aliases that a canonical-alias event names, to be looked up.
pub fn canonical_candidates(content: &Json) -> (r: Vec<String>)
    ensures
        texts(r@) == (match named_as_alias(content@) {
            Ok(named) => strings_among(named),
            Err(_) => Seq::empty(),
        }),
{
    match alias_values(content) {
        Ok(v) => read_strings(&v),
        Err(_) => {
            let none: Vec<String> = Vec::new();
            proof {
                assert(texts(none@) =~= Seq::<Seq<char>>::empty());
            }
            none
        },
    }
}

/// `m.room.canonical_alias` may only name aliases that exist and point at this
/// room. `directory` tells where the aliases that it names point.
pub fn validate_canonical_alias(
    content: &Json,
    room_id: &str,
    directory: &Vec<(String, String)>,
) -> (r: Result<(), ApiError>)
    ensures
        match canonical_fault(content@, room_id@, directory@) {
            Some(x) => r matches Err(e) && e@ == x,
            None => r is Ok,
        },
{
    let named = match alias_values(content) {
        Ok(v) => v,
        Err(e) => {
            return Err(e);
        },
    };
    let ghost views = items_view(named@);
    proof {
        lemma_items(named@);
    }
    let mut i: usize = 0;
    while i < named.len()
        invariant
            i <= named.len(),
            views == items_view(named@),
            views == named@.map_values(|j: Json| j@),
            canonical_fault(content@, room_id@, directory@) == alias_fault(
                views,
                room_id@,
                directory@,
                i as int,
            ),
        decreases named.len() - i,
    {
        proof {
            assert(views[i as int] == named@[i as int]@);
        }
        let alias = match named[i].as_str() {
            Some(s) => s,
            None => {
                return Err(ApiError::invalid_param("aliases must be strings"));
            },
        };
        if !alias.is_empty() {
            match check_room_alias(alias) {
                Ok(()) => {},
                Err(_) => {
                    let message = join_texts("invalid alias: ", alias);
                    return Err(ApiError::invalid_param(message.as_str()));
                },
            }
            let here = match query_get(directory, alias) {
                Some(room) => same_text(room.as_str(), room_id),
                None => false,
            };
            if !here {
                let message = join_texts(alias, " does not point to this room");
                return Err(ApiError::new(400, "M_BAD_ALIAS", message.as_str()));
            }
        }
        i += 1;
    }
    Ok(())
}

/// Is one of the users a creator of the room?
pub open spec fn creator_among(users: Map<Seq<char>, JsonV>, create: JsonV) -> bool {
    exists|k: Seq<char>| #[trigger] users.dom().contains(k) && names_as_creator(create, k)
}

/// Does the content of a power-levels event give a level to a creator of the
/// room? Where creators are privileged, that is forbidden.
pub open spec fn lists_creator(privileged: bool, content: JsonV, create: Option<JsonV>) -> bool {
    match (field(content, "users"@), create) {
        (Some(JsonV::Object(users)), Some(c)) => privileged && creator_among(users, c),
        _ => false,
    }
}

/// Does the content of a power-levels event give a level to a creator of the
/// room?
pub fn power_levels_lists_creator(
    privileged_creators: bool,
    content: &Json,
    create_event: &Option<Json>,
) -> (r: bool)
    ensures
        r == lists_creator(privileged_creators, content@, opt_json(*create_event)),
{
    if !privileged_creators {
        return false;
    }
    let users = match content.get("users") {
        Some(j) => match j.as_object() {
            Some(m) => m,
            None => {
                return false;
            },
        },
        None => {
            return false;
        },
    };
    let create = match create_event {
        Some(c) => c,
        None => {
            return false;
        },
    };
    let more = read_strings_in(create.get2("content", "additional_creators"));
    let ghost m = fields_view(users@);
    let mut i: usize = 0;
    while i < users.len()
        invariant
            i <= users.len(),
            m == fields_view(users@),
            privileged_creators,
            field(content@, "users"@) == Some(JsonV::Object(m)),
            opt_json(*create_event) == Some(create@),
            texts(more@) == crate::json::strings_in(
                crate::json::field2(create@, "content"@, "additional_creators"@),
            ),
            forall|j: int| 0 <= j < i ==> !names_as_creator(create@, (#[trigger] users@[j]).0@),
        decreases users.len() - i,
    {
        let sent = match create.get_str("sender") {
            Some(s) => same_text(s, users[i].0.as_str()),
            None => false,
        };
        if sent || list_has(&more, users[i].0.as_str()) {
            proof {
                let k = users@[i as int].0@;
                lemma_field_of_key(users@, k);
                assert(m.dom().contains(k));
                assert(names_as_creator(create@, k));
                assert(creator_among(m, create@));
            }
            return true;
        }
        i += 1;
    }
    proof {
        assert forall|k: Seq<char>| #[trigger] m.dom().contains(k) implies !names_as_creator(
            create@,
            k,
        ) by {
            lemma_field_of_key(users@, k);
        }
    }
    false
}

/// What is known where a state event is sent.
#[derive(Debug)]
pub struct StateFacts {
    pub room_id: String,
    /// Where the aliases that the event names point.
    pub directory: Vec<(String, String)>,
    pub privileged_creators: bool,
    pub create_event: Option<Json>,
    /// The standing event of this type and key, and its content.
    pub standing: Option<(String, Json)>,
    pub appservice: bool,
    pub ts: Option<u64>,
}

/// What is done with a state event.
#[derive(Debug)]
pub enum StateSend {
    /// It says what already stands: the standing event is the answer.
    Standing(String),
    /// It is sent, at a timestamp where one may be set.
    Send(Json, Option<u64>),
}

pub enum StateSendV {
    Standing(Seq<char>),
    Send(JsonV, Option<u64>),
}

impl View for StateSend {
    type V = StateSendV;

    open spec fn view(&self) -> StateSendV {
        match self {
            StateSend::Standing(id) => StateSendV::Standing(id@),
            StateSend::Send(content, ts) => StateSendV::Send(content@, *ts),
        }
    }
}

/// The content of a state event as it is sent: which server authorises a
/// restricted join is never the client's to say.
pub open spec fn cleaned(event_type: Seq<char>, content: JsonV) -> JsonV {
    match content {
        JsonV::Object(m) => if event_type == "m.room.member"@ {
            JsonV::Object(m.remove("join_authorised_via_users_server"@))
        } else {
            content
        },
        _ => content,
    }
}

/// What is done with a state event that a client sends.
pub open spec fn state_send(event_type: Seq<char>, content: JsonV, f: StateFacts) -> Result<
    StateSendV,
    ApiErrorV,
> {
    let sent = cleaned(event_type, content);
    if event_type == "m.room.create"@ {
        Err(bad_json("Cannot send a m.room.create event"@))
    } else if event_type == "m.room.canonical_alias"@ && canonical_fault(
        sent,
        f.room_id@,
        f.directory@,
    ) is Some {
        Err(canonical_fault(sent, f.room_id@, f.directory@)->0)
    } else if event_type == "m.room.power_levels"@ && lists_creator(
        f.privileged_creators,
        sent,
        opt_json(f.create_event),
    ) {
        Err(bad_json("power_levels.users must not contain a room creator"@))
    } else {
        match f.standing {
            Some((id, old)) => if old@ == sent {
                if is_event_id(id@) {
                    Ok(StateSendV::Standing(id@))
                } else {
                    Err(internal(event_id_fault(id@)))
                }
            } else {
                Ok(StateSendV::Send(sent, ts_for(f.ts, f.appservice)))
            },
            None => Ok(StateSendV::Send(sent, ts_for(f.ts, f.appservice))),
        }
    }
}

/// What is done with a state event that a client sends. Setting identical state
/// twice is idempotent: the standing event is returned rather than a duplicate
/// made.
pub fn send_state_event(event_type: &str, content: Json, f: StateFacts) -> (r: Result<
    StateSend,
    ApiError,
>)
    ensures
        match state_send(event_type@, content@, f) {
            Ok(v) => r matches Ok(s) && s@ == v,
            Err(x) => r matches Err(e) && e@ == x,
        },
{
    if same_text(event_type, "m.room.create") {
        return Err(ApiError::bad_json("Cannot send a m.room.create event"));
    }
    let sent = if same_text(event_type, "m.room.member") {
        match content {
            Json::Object(m) => Json::Object(remove(m, "join_authorised_via_users_server")),
            other => other,
        }
    } else {
        content
    };
    if same_text(event_type, "m.room.canonical_alias") {
        match validate_canonical_alias(&sent, f.room_id.as_str(), &f.directory) {
            Ok(()) => {},
            Err(e) => {
                return Err(e);
            },
        }
    }
    if same_text(event_type, "m.room.power_levels") && power_levels_lists_creator(
        f.privileged_creators,
        &sent,
        &f.create_event,
    ) {
        return Err(ApiError::bad_json("power_levels.users must not contain a room creator"));
    }
    let at = if f.appservice {
        f.ts
    } else {
        None
    };
    match f.standing {
        Some((id, old)) => {
            if same_json(&old, &sent) {
                match check_event_id(id.as_str()) {
                    Ok(()) => {
                        return Ok(StateSend::Standing(id));
                    },
                    Err(fault) => {
                        return Err(ApiError::internal(fault.as_str()));
                    },
                }
            }
        },
        None => {},
    }
    Ok(StateSend::Send(sent, at))
}

/// Sending what already stands sends nothing.
pub proof fn law_standing_state_is_not_sent_again(
    event_type: Seq<char>,
    content: JsonV,
    f: StateFacts,
)
    requires
        f.standing matches Some((id, old)) && old@ == cleaned(event_type, content),
    ensures
        !(state_send(event_type, content, f) matches Ok(StateSendV::Send(_, _))),
{
}

/// A member event never carries an authorising server that a client chose.
pub proof fn law_clients_authorise_no_joins(content: JsonV, f: StateFacts)
    ensures
        state_send("m.room.member"@, content, f) matches Ok(StateSendV::Send(
            JsonV::Object(m),
            _,
        )) ==> !m.dom().contains("join_authorised_via_users_server"@),
{
}

/// Only an appservice sets the time of a state event.
pub proof fn law_only_appservices_set_times(
    event_type: Seq<char>,
    content: JsonV,
    f: StateFacts,
)
    requires
        !f.appservice,
    ensures
        state_send(event_type, content, f) matches Ok(StateSendV::Send(_, at)) ==> at is None,
{
}

/// State that names aliases is sent only where every one of them is a string,
/// is empty or an alias, and points to this room; `alias` counts as well as
/// `alt_aliases`.
pub proof fn law_named_aliases_point_here(
    content: JsonV,
    room: Seq<char>,
    directory: Seq<(String, String)>,
)
    ensures
        ({
            let main_fine = match field(content, "alias"@) {
                None => true,
                Some(JsonV::Null) => true,
                Some(v) => alias_is_fine(v, room, directory),
            };
            let others_fine = match field(content, "alt_aliases"@) {
                None => true,
                Some(JsonV::Null) => true,
                Some(JsonV::Array(items)) => forall|i: int|
                    0 <= i < items.len() ==> alias_is_fine(#[trigger] items[i], room, directory),
                Some(_) => false,
            };
            canonical_fault(content, room, directory) is None <==> main_fine && others_fine
        }),
        canonical_fault(content, room, directory) matches Some(e) ==> e.status == 400,
{
    match named_as_alias(content) {
        Ok(named) => {
            lemma_alias_fault(named, room, directory, 0);
            let main = main_alias(content);
            match field(content, "alt_aliases"@) {
                Some(JsonV::Array(items)) => {
                    assert(named == main + items);
                    if main.len() > 0 {
                        assert(named[0] == main[0]);
                    }
                    assert forall|i: int| 0 <= i < items.len() implies #[trigger] items[i]
                        == named[main.len() + i] by {}
                    if canonical_fault(content, room, directory) is None {
                        assert forall|i: int| 0 <= i < items.len() implies alias_is_fine(
                            #[trigger] items[i],
                            room,
                            directory,
                        ) by {
                            assert(alias_is_fine(named[main.len() + i], room, directory));
                        }
                        assert(main.len() > 0 ==> alias_is_fine(named[0], room, directory));
                    } else {
                        let k = choose|k: int|
                            0 <= k < named.len() && !alias_is_fine(
                                #[trigger] named[k],
                                room,
                                directory,
                            );
                        if k >= main.len() {
                            assert(items[k - main.len()] == named[k]);
                        }
                    }
                },
                _ => {
                    assert(named == main);
                    if main.len() > 0 {
                        assert(alias_is_fine(named[0], room, directory)
                            || !alias_is_fine(named[0], room, directory));
                    }
                },
            }
        },
        Err(e) => {},
    }
}

/// Is one value fine as an alias of a room?
pub open spec fn alias_is_fine(
    v: JsonV,
    room: Seq<char>,
    directory: Seq<(String, String)>,
) -> bool {
    v matches JsonV::Str(alias) && (alias.len() == 0 || (is_room_alias(alias) && query_value(
        directory,
        alias,
    ) == Some(room)))
}

proof fn lemma_alias_fault(
    named: Seq<JsonV>,
    room: Seq<char>,
    directory: Seq<(String, String)>,
    i: int,
)
    requires
        0 <= i <= named.len(),
    ensures
        alias_fault(named, room, directory, i) is None <==> forall|k: int|
            i <= k < named.len() ==> alias_is_fine(#[trigger] named[k], room, directory),
        alias_fault(named, room, directory, i) matches Some(e) ==> e.status == 400,
    decreases named.len() - i,
{
    if i < named.len() {
        lemma_alias_fault(named, room, directory, i + 1);
        assert(alias_is_fine(named[i], room, directory) || !alias_is_fine(
            named[i],
            room,
            directory,
        ));
    }
}

/// State is sent with the content that the client gave: every field of it but
/// the mark by which a server vouches for a join. The one thing that is not
/// sent is what already stands.
pub proof fn law_state_is_sent_as_it_was_given(
    event_type: Seq<char>,
    content: JsonV,
    f: StateFacts,
    k: Seq<char>,
)
    ensures
        state_send(event_type, content, f) matches Ok(StateSendV::Send(sent, ts)) ==> {
            &&& event_type != "m.room.member"@ ==> sent == content
            &&& k != "join_authorised_via_users_server"@ ==> field(sent, k) == field(content, k)
            &&& f.standing matches Some(st) ==> st.1@ != sent
            &&& f.appservice ==> ts == f.ts
        },
        state_send(event_type, content, f) matches Ok(StateSendV::Standing(id))
            ==> (f.standing matches Some(
            st,
        ) && st.0@ == id && (event_type != "m.room.member"@ ==> st.1@ == content)),
{
}

/// State is refused exactly where it would make a room anew, names an alias
/// that is not the room's, gives a privileged creator a level, or stands under
/// an ID that is none.
pub proof fn law_state_is_refused_where_it_may_not_stand(
    event_type: Seq<char>,
    content: JsonV,
    f: StateFacts,
)
    requires
        event_type != "m.room.member"@,
    ensures
        event_type == "m.room.create"@ ==> state_send(event_type, content, f) is Err,
        event_type == "m.room.canonical_alias"@ && canonical_fault(
            content,
            f.room_id@,
            f.directory@,
        ) is Some ==> state_send(event_type, content, f) is Err,
        event_type == "m.room.power_levels"@ && f.privileged_creators && (field(
            content,
            "users"@,
        ) matches Some(JsonV::Object(users)) && f.create_event matches Some(c)
            && exists|u: Seq<char>|
            #[trigger] users.dom().contains(u) && names_as_creator(c@, u)) ==> state_send(
            event_type,
            content,
            f,
        ) is Err,
        state_send(event_type, content, f) is Err && event_type != "m.room.create"@ && event_type
            != "m.room.canonical_alias"@ && event_type != "m.room.power_levels"@
                ==> (f.standing matches Some(
            st,
        ) && st.1@ == content && !is_event_id(st.0@)),
        state_send(event_type, content, f) is Err && event_type == "m.room.power_levels"@
            && !f.privileged_creators ==> (f.standing matches Some(st) && st.1@ == content
            && !is_event_id(st.0@)),
{
    reveal_strlit("m.room.create");
    reveal_strlit("m.room.canonical_alias");
    reveal_strlit("m.room.power_levels");
    assert("m.room.create"@.len() == 13 && "m.room.canonical_alias"@.len() == 22
        && "m.room.power_levels"@.len() == 19);
}

/// A redaction names the event that it redacts, and the reason where there is
/// one.
pub proof fn law_redactions_name_the_event(
    event_id: &str,
    reason: Option<String>,
    r: Json,
)
    requires
        call_ensures(redact_event, (event_id, reason), r),
    ensures
        field(r@, "redacts"@) == Some(JsonV::Str(event_id@)),
        reason matches Some(s) ==> field(r@, "reason"@) == Some(JsonV::Str(s@)),
        reason is None ==> field(r@, "reason"@) is None,
{
    reveal_strlit("redacts");
    reveal_strlit("reason");
    assert("redacts"@.len() == 7 && "reason"@.len() == 6);
}

/// The record of a send is the sender's, their device's, and holds what the
/// send was.
pub proof fn law_sends_are_recorded_for_the_device(
    auth: &Auth,
    scope: &str,
    txn_id: &str,
    ts: u64,
    r: TxnStamp,
)
    requires
        call_ensures(txn_stamp, (auth, scope, txn_id, ts), r),
    ensures
        r.user_id@ == auth.user_id@ && r.device_id@ == auth.device_id@,
        r.scope@ == scope@ && r.txn_id@ == txn_id@ && r.ts == ts,
{
}

/// A user's messages are limited, and stand at the time at which they are sent;
/// an appservice sets the time.
pub proof fn law_users_are_limited(
    auth: &Auth,
    ts: Option<u64>,
    r: SendPlan,
)
    requires
        call_ensures(send_message_event, (auth, ts), r),
    ensures
        auth.appservice is None ==> r.limited && r.ts_override is None,
        auth.appservice is Some ==> r.ts_override == ts,
        auth.appservice is Some && !auth.masquerade ==> !r.limited,
{
}

/// A send that was seen before is answered with the event that it sent.
pub proof fn law_retries_are_answered_as_before(
    replayed: Option<String>,
    r: Result<Option<String>, ApiError>,
)
    requires
        call_ensures(txn_replay, (replayed,), r),
    ensures
        replayed is None ==> (r matches Ok(None)),
        replayed matches Some(id) ==> (is_event_id(id@) ==> (r matches Ok(Some(x)) && x@ == id@)),
{
}

} // verus!

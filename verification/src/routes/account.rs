//! Profiles, account data, filters, devices, presence.
use crate::error::{api_error, bad_json, forbidden, internal, not_found, outcome, ApiError, ApiErrorV};
use crate::ids::{check_room_id, is_room_id, server_in, server_part};
use crate::json::{array_of, as_text, field, field2, fields_view, no_fields, object_of, one_field, put_str, text_json, Json, JsonV};
use crate::percent::{encode, percent_encoded};
use crate::push_gateway::with_text;
use crate::routes::search::text_or_null;
use crate::routes::sync::parsed_filter;
use crate::text::{join_texts, opt_text, same_text, texts};
use vstd::prelude::*;
use vstd::string::StringExecFns;

verus! {

// -- profile ------------------------------------------------------------------

/// What others see of a user.
#[derive(Debug)]
pub struct Profile {
    pub displayname: Option<String>,
    pub avatar_url: Option<String>,
}

/// What the look-up of a profile does next.
#[derive(Clone, Copy, Debug, PartialEq, Eq, Structural)]
pub enum ProfileStep {
    /// The user's own server knows.
    AskServer,
    /// An appservice may register the user while we wait.
    AskAppservice,
    Local,
    Unknown,
}

/// The look-up of a profile. Unknown local users are not found; known users
/// without profile data have the empty profile. A miss is asked of the
/// appservice whose namespace the user is in, once: `asked` is its answer.
pub open spec fn profile_step(
    ours: bool,
    account_exists: bool,
    asked: Option<bool>,
) -> ProfileStep {
    if !ours {
        ProfileStep::AskServer
    } else if account_exists && asked != Some(false) {
        ProfileStep::Local
    } else if asked is None {
        ProfileStep::AskAppservice
    } else {
        ProfileStep::Unknown
    }
}

/// What the look-up of a profile does next.
pub fn load_profile(
    user_id: &str,
    our_name: &str,
    account_exists: bool,
    asked: Option<bool>,
) -> (r: ProfileStep)
    ensures
        r == profile_step(server_in(user_id@) == Some(our_name@), account_exists, asked),
{
    let ours = match server_part(user_id) {
        Some(s) => same_text(s.as_str(), our_name),
        None => false,
    };
    if !ours {
        return ProfileStep::AskServer;
    }
    let refused = match asked {
        Some(a) => !a,
        None => false,
    };
    if account_exists && !refused {
        ProfileStep::Local
    } else if asked.is_none() {
        ProfileStep::AskAppservice
    } else {
        ProfileStep::Unknown
    }
}

/// A local profile is served only for an account that exists.
pub proof fn law_local_profiles_have_accounts(
    ours: bool,
    account_exists: bool,
    asked: Option<bool>,
)
    requires
        profile_step(ours, account_exists, asked) == ProfileStep::Local,
    ensures
        ours && account_exists,
{
}

/// The error where no one knows a user.
pub fn unknown_user() -> (r: ApiError)
    ensures
        r@ == not_found("Unknown user"@),
{
    ApiError::not_found("Unknown user")
}

/// The path that asks another server for a profile.
pub fn remote_profile_path(user_id: &str) -> (r: String)
    ensures
        r@ == "/_matrix/federation/v1/query/profile?user_id="@ + percent_encoded(user_id@),
{
    join_texts(
        "/_matrix/federation/v1/query/profile?user_id=",
        encode_component(user_id).as_str(),
    )
}

/// The error of a server that could not be asked.
pub fn remote_profile_failed(fault: &str) -> (r: ApiError)
    ensures
        r@ == api_error(502, "M_UNKNOWN"@, "remote profile query failed: "@ + fault@),
{
    let message = join_texts("remote profile query failed: ", fault);
    ApiError::new(502, "M_UNKNOWN", message.as_str())
}

/// Reads the profile in another server's answer.
pub fn fetch_remote_profile(answer: &Json) -> (r: Profile)
    ensures
        opt_text(r.displayname) == as_text(field(answer@, "displayname"@)),
        opt_text(r.avatar_url) == as_text(field(answer@, "avatar_url"@)),
{
    let displayname = match answer.get_str("displayname") {
        Some(s) => Some(s.to_owned()),
        None => None,
    };
    let avatar_url = match answer.get_str("avatar_url") {
        Some(s) => Some(s.to_owned()),
        None => None,
    };
    Profile { displayname, avatar_url }
}

/// Percent-encode a query component (user IDs contain `@` and `:`).
pub fn encode_component(s: &str) -> (r: String)
    ensures
        r@ == percent_encoded(s@),
{
    encode(s)
}

/// Some fields with what a profile tells.
pub open spec fn with_profile(
    m: Map<Seq<char>, JsonV>,
    displayname: Option<Seq<char>>,
    avatar_url: Option<Seq<char>>,
) -> Map<Seq<char>, JsonV> {
    with_text(with_text(m, "displayname"@, displayname), "avatar_url"@, avatar_url)
}

fn put_profile(m: &mut Vec<(String, Json)>, p: &Profile)
    ensures
        fields_view(final(m)@) == with_profile(
            fields_view(old(m)@),
            opt_text(p.displayname),
            opt_text(p.avatar_url),
        ),
{
    match &p.displayname {
        Some(d) => {
            put_str(m, "displayname", text_json(d.as_str()));
        },
        None => {},
    }
    match &p.avatar_url {
        Some(a) => {
            put_str(m, "avatar_url", text_json(a.as_str()));
        },
        None => {},
    }
}

/// How a profile is told.
pub fn get_profile(p: &Profile) -> (r: Json)
    ensures
        r@ == JsonV::Object(
            with_profile(no_fields(), opt_text(p.displayname), opt_text(p.avatar_url)),
        ),
{
    let mut m: Vec<(String, Json)> = Vec::new();
    put_profile(&mut m, p);
    Json::Object(m)
}

/// The member event that carries a profile into a joined room.
pub fn propagated_content(p: &Profile) -> (r: Json)
    ensures
        r@ == JsonV::Object(
            with_profile(
                no_fields().insert("membership"@, JsonV::Str("join"@)),
                opt_text(p.displayname),
                opt_text(p.avatar_url),
            ),
        ),
{
    let mut m: Vec<(String, Json)> = Vec::new();
    put_str(&mut m, "membership", text_json("join"));
    put_profile(&mut m, p);
    Json::Object(m)
}

/// A room that a user has to do with, and how.
#[derive(Debug)]
pub struct RoomMembership {
    pub room_id: String,
    pub membership: String,
}

/// The rooms that a profile change is told to: those that the user is in.
pub open spec fn told_rooms(list: Seq<RoomMembership>) -> Seq<Seq<char>>
    decreases list.len(),
{
    if list.len() == 0 {
        Seq::empty()
    } else {
        let init = told_rooms(list.drop_last());
        if list.last().membership@ == "join"@ && is_room_id(list.last().room_id@) {
            init.push(list.last().room_id@)
        } else {
            init
        }
    }
}

/// The rooms that a profile change is told to.
pub fn propagate_profile(list: &Vec<RoomMembership>) -> (r: Vec<String>)
    ensures
        texts(r@) == told_rooms(list@),
{
    let mut out: Vec<String> = Vec::new();
    proof {
        assert(texts(out@) =~= told_rooms(list@.take(0)));
    }
    let mut i: usize = 0;
    while i < list.len()
        invariant
            i <= list.len(),
            texts(out@) == told_rooms(list@.take(i as int)),
        decreases list.len() - i,
    {
        proof {
            assert(list@.take(i + 1).drop_last() =~= list@.take(i as int));
        }
        if same_text(list[i].membership.as_str(), "join") && check_room_id(
            list[i].room_id.as_str(),
        ).is_ok() {
            let s = list[i].room_id.as_str().to_owned();
            proof {
                assert(texts(out@.push(s)) =~= texts(out@).push(s@));
            }
            out.push(s);
        }
        i += 1;
    }
    proof {
        assert(list@.take(list@.len() as int) =~= list@);
    }
    out
}

// -- what is one's own --------------------------------------------------------

/// What a caller may do only to what is their own.
#[derive(Clone, Copy, Debug, PartialEq, Eq, Structural)]
pub enum OwnAction {
    SetProfile,
    SetData,
    ReadData,
    CreateFilter,
    ReadFilter,
    SetPresence,
}

/// The refusal of an action on what is another's.
pub open spec fn not_own(action: OwnAction) -> Seq<char> {
    match action {
        OwnAction::SetProfile => "Cannot set another user's profile"@,
        OwnAction::SetData => "Cannot set another user's data"@,
        OwnAction::ReadData => "Cannot read another user's data"@,
        OwnAction::CreateFilter => "Cannot create another user's filter"@,
        OwnAction::ReadFilter => "Cannot read another user's filter"@,
        OwnAction::SetPresence => "Cannot set another user's presence"@,
    }
}

/// May the caller act on what belongs to `owner`?
pub fn require_own(owner: &str, caller: &str, action: OwnAction) -> (r: Result<(), ApiError>)
    ensures
        outcome(r) == (if owner@ == caller@ {
            Ok::<(), ApiErrorV>(())
        } else {
            Err(forbidden(not_own(action)))
        }),
{
    if same_text(owner, caller) {
        return Ok(());
    }
    Err(
        match action {
            OwnAction::SetProfile => ApiError::forbidden("Cannot set another user's profile"),
            OwnAction::SetData => ApiError::forbidden("Cannot set another user's data"),
            OwnAction::ReadData => ApiError::forbidden("Cannot read another user's data"),
            OwnAction::CreateFilter => ApiError::forbidden("Cannot create another user's filter"),
            OwnAction::ReadFilter => ApiError::forbidden("Cannot read another user's filter"),
            OwnAction::SetPresence => ApiError::forbidden("Cannot set another user's presence"),
        },
    )
}

/// Account-data types clients may not set directly.
pub fn check_settable(data_type: &str) -> (r: Result<(), ApiError>)
    ensures
        outcome(r) == (if data_type@ == "m.fully_read"@ || data_type@ == "m.push_rules"@ {
            Err(api_error(405, "M_BAD_JSON"@, data_type@ + " cannot be set directly"@))
        } else {
            Ok::<(), ApiErrorV>(())
        }),
{
    if same_text(data_type, "m.fully_read") || same_text(data_type, "m.push_rules") {
        let message = join_texts(data_type, " cannot be set directly");
        return Err(ApiError::new(405, "M_BAD_JSON", message.as_str()));
    }
    Ok(())
}

/// Something of the caller's that is stored, or the error where it is not.
pub fn stored<T>(found: Option<T>, message: &str) -> (r: Result<T, ApiError>)
    ensures
        match found {
            Some(x) => r matches Ok(y) && y == x,
            None => r matches Err(e) && e@ == not_found(message@),
        },
{
    match found {
        Some(x) => Ok(x),
        None => Err(ApiError::not_found(message)),
    }
}

// -- filters ------------------------------------------------------------------

/// The JSON text of the filter that a text defines, or what `serde_json` says is
/// wrong with the text.
pub uninterp spec fn rewritten_filter(json: Seq<char>) -> Result<Seq<char>, Seq<char>>;

/// Does a filter that was written out stay as it is when it is written again, and
/// is it the same filter to a sync?
pub open spec fn is_settled(sent: Seq<char>, written: Seq<char>) -> bool {
    &&& rewritten_filter(written) == Ok::<Seq<char>, Seq<char>>(written)
    &&& parsed_filter(sent) is Ok
    &&& parsed_filter(written) == parsed_filter(sent)
}

/// `serde_json::from_str` into a `ruma::api::client::filter::FilterDefinition`,
/// written out again. Which texts it reads, what it keeps of them, and the wording
/// of the fault are named and not stated. What it wrote it writes again as it is,
/// and a sync takes it for the same filter.
#[verifier::external_body]
fn rewrite_filter(json: &str) -> (r: Result<String, String>)
    ensures
        match rewritten_filter(json@) {
            Ok(t) => r matches Ok(x) && x@ == t,
            Err(t) => r matches Err(e) && e@ == t,
        },
        r is Ok ==> is_settled(json@, r->Ok_0@),
{
    serde_json::from_str::<ruma::api::client::filter::FilterDefinition>(json)
        .and_then(|filter| serde_json::to_string(&filter))
        .map_err(|e| e.to_string())
}

/// The text that is stored of a filter that a user makes, of the body of the
/// request. Read again it is shown as it was stored, and a sync takes it for the
/// filter that was sent.
pub fn create_filter(body: &str) -> (r: Result<String, ApiError>)
    ensures
        match rewritten_filter(body@) {
            Ok(t) => r matches Ok(x) && x@ == t,
            Err(t) => r matches Err(e) && e@ == bad_json(t),
        },
        r is Ok ==> is_settled(body@, r->Ok_0@),
{
    match rewrite_filter(body) {
        Ok(t) => Ok(t),
        Err(e) => Err(ApiError::bad_json(e.as_str())),
    }
}

/// A filter as its user sees it, of the text that is stored.
pub fn get_filter(stored: Option<&str>) -> (r: Result<String, ApiError>)
    ensures
        match stored {
            Some(json) => match rewritten_filter(json@) {
                Ok(t) => r matches Ok(x) && x@ == t,
                Err(t) => r matches Err(e) && e@ == internal(t),
            },
            None => r matches Err(e) && e@ == not_found("Unknown filter"@),
        },
{
    match stored {
        Some(json) => match rewrite_filter(json) {
            Ok(t) => Ok(t),
            Err(e) => Err(ApiError::internal(e.as_str())),
        },
        None => Err(ApiError::not_found("Unknown filter")),
    }
}

// -- re-authentication --------------------------------------------------------

/// What a user must authenticate again for.
#[derive(Debug)]
pub enum Sensitive {
    DeleteDevice(String),
    ChangePassword,
    Deactivate,
}

/// The operation that a re-authentication is bound to.
pub open spec fn operation_id(user: Seq<char>, op: Sensitive) -> Seq<char> {
    match op {
        Sensitive::DeleteDevice(d) => "delete_device:"@ + user + ":"@ + d@,
        Sensitive::ChangePassword => "change_password:"@ + user,
        Sensitive::Deactivate => "deactivate:"@ + user,
    }
}

/// The operation that a re-authentication is bound to.
pub fn request_id(user_id: &str, op: &Sensitive) -> (r: String)
    ensures
        r@ == operation_id(user_id@, *op),
{
    match op {
        Sensitive::DeleteDevice(d) => {
            let mut out = "delete_device:".to_owned();
            out.append(user_id);
            out.append(":");
            out.append(d.as_str());
            out
        },
        Sensitive::ChangePassword => join_texts("change_password:", user_id),
        Sensitive::Deactivate => join_texts("deactivate:", user_id),
    }
}

pub open spec fn same_kind(a: Sensitive, b: Sensitive) -> bool {
    match (a, b) {
        (Sensitive::DeleteDevice(_), Sensitive::DeleteDevice(_)) => true,
        (Sensitive::ChangePassword, Sensitive::ChangePassword) => true,
        (Sensitive::Deactivate, Sensitive::Deactivate) => true,
        _ => false,
    }
}

/// Two different operations never share an identifier: an authentication completed
/// for the milder one cannot be spent on the harsher. Nor do two users share one
/// for what concerns their whole account.
pub proof fn law_operations_keep_apart(u1: Seq<char>, a: Sensitive, u2: Seq<char>, b: Sensitive)
    requires
        operation_id(u1, a) == operation_id(u2, b),
    ensures
        same_kind(a, b),
        !(a is DeleteDevice) ==> u1 == u2,
{
    reveal_strlit("delete_device:");
    reveal_strlit("change_password:");
    reveal_strlit("deactivate:");
    let x = operation_id(u1, a);
    let y = operation_id(u2, b);
    assert(x[0] == y[0] && x[2] == y[2]);
    match a {
        Sensitive::DeleteDevice(d) => {
            assert(x[0] == 'd' && x[2] == 'l');
        },
        Sensitive::ChangePassword => {
            assert(x[0] == 'c');
        },
        Sensitive::Deactivate => {
            assert(x[0] == 'd' && x[2] == 'a');
        },
    }
    match b {
        Sensitive::DeleteDevice(d) => {
            assert(y[0] == 'd' && y[2] == 'l');
        },
        Sensitive::ChangePassword => {
            assert(y[0] == 'c');
        },
        Sensitive::Deactivate => {
            assert(y[0] == 'd' && y[2] == 'a');
        },
    }
    match a {
        Sensitive::DeleteDevice(d) => {},
        Sensitive::ChangePassword => {
            let n = "change_password:"@.len() as int;
            assert(u1 =~= x.skip(n));
            assert(u2 =~= y.skip(n));
        },
        Sensitive::Deactivate => {
            let n = "deactivate:"@.len() as int;
            assert(u1 =~= x.skip(n));
            assert(u2 =~= y.skip(n));
        },
    }
}

/// Two deletions of devices on one server have one identifier only where the user
/// and the device agree. (What stands before the server in a user ID holds no
/// colon.)
pub proof fn law_device_deletions_keep_apart(
    l1: Seq<char>,
    d1: String,
    l2: Seq<char>,
    d2: String,
    server: Seq<char>,
)
    requires
        !l1.contains(':'),
        !l2.contains(':'),
        operation_id(l1 + ":"@ + server, Sensitive::DeleteDevice(d1)) == operation_id(
            l2 + ":"@ + server,
            Sensitive::DeleteDevice(d2),
        ),
    ensures
        l1 == l2,
        d1@ == d2@,
{
    reveal_strlit(":");
    reveal_strlit("delete_device:");
    let n = "delete_device:"@.len() as int;
    let x = operation_id(l1 + ":"@ + server, Sensitive::DeleteDevice(d1));
    let y = operation_id(l2 + ":"@ + server, Sensitive::DeleteDevice(d2));
    assert(x[n + l1.len()] == ':');
    assert(y[n + l2.len()] == ':');
    if l1.len() < l2.len() {
        assert(y[n + l1.len()] == l2[l1.len() as int]);
        assert(l2.contains(':'));
    }
    if l2.len() < l1.len() {
        assert(x[n + l2.len()] == l1[l2.len() as int]);
        assert(l1.contains(':'));
    }
    assert(l1 =~= x.subrange(n, n + l1.len()));
    assert(l2 =~= y.subrange(n, n + l2.len()));
    let m = n + l1.len() + 1 + server.len() + 1;
    assert(d1@ =~= x.skip(m));
    assert(d2@ =~= y.skip(m));
}

/// Does an operation take a re-authentication? Appservices skip it where they
/// delete a device: that is part of their device management, and they have no
/// password.
pub fn takes_password(op: &Sensitive, appservice: bool) -> (r: bool)
    ensures
        r == !(*op is DeleteDevice && appservice),
{
    match op {
        Sensitive::DeleteDevice(_) => !appservice,
        _ => true,
    }
}

/// The devices but one, in order.
pub open spec fn others(devices: Seq<Seq<char>>, own: Seq<char>) -> Seq<Seq<char>>
    decreases devices.len(),
{
    if devices.len() == 0 {
        Seq::empty()
    } else {
        let init = others(devices.drop_last(), own);
        if devices.last() == own {
            init
        } else {
            init.push(devices.last())
        }
    }
}

/// The devices that a change of the password logs out: all but the caller's
/// own, where the caller asks for it.
pub fn logged_out(devices: &Vec<String>, own: &str, logout_devices: bool) -> (r: Vec<String>)
    ensures
        texts(r@) == (if logout_devices {
            others(texts(devices@), own@)
        } else {
            Seq::empty()
        }),
{
    let mut out: Vec<String> = Vec::new();
    let ghost all = texts(devices@);
    proof {
        assert(texts(out@) =~= others(all.take(0), own@));
    }
    if !logout_devices {
        return out;
    }
    let mut i: usize = 0;
    while i < devices.len()
        invariant
            i <= devices.len(),
            all == texts(devices@),
            texts(out@) == others(all.take(i as int), own@),
        decreases devices.len() - i,
    {
        proof {
            assert(all.take(i + 1).drop_last() =~= all.take(i as int));
            assert(all.take(i + 1).last() == devices@[i as int]@);
        }
        if !same_text(devices[i].as_str(), own) {
            let s = devices[i].as_str().to_owned();
            proof {
                assert(texts(out@.push(s)) =~= texts(out@).push(s@));
            }
            out.push(s);
        }
        i += 1;
    }
    proof {
        assert(all.take(all.len() as int) =~= all);
    }
    out
}

/// A change of the password never logs the caller out.
pub proof fn law_caller_stays_logged_in(devices: Seq<Seq<char>>, own: Seq<char>)
    ensures
        !others(devices, own).contains(own),
    decreases devices.len(),
{
    if devices.len() > 0 {
        law_caller_stays_logged_in(devices.drop_last(), own);
        let init = others(devices.drop_last(), own);
        let all = others(devices, own);
        if all.contains(own) {
            let i = choose|i: int| 0 <= i < all.len() && all[i] == own;
            if i < init.len() {
                assert(init[i] == own);
                assert(init.contains(own));
            }
        }
    }
}

// -- presence -----------------------------------------------------------------

/// A presence report as other servers are told it.
pub open spec fn presence_edu_json(
    user: Seq<char>,
    presence: Seq<char>,
    status: Option<Seq<char>>,
) -> JsonV {
    JsonV::Object(
        no_fields().insert("edu_type"@, JsonV::Str("m.presence"@)).insert(
            "content"@,
            one_field(
                "push"@,
                JsonV::Array(
                    seq![
                        JsonV::Object(
                            no_fields().insert("user_id"@, JsonV::Str(user)).insert(
                                "presence"@,
                                JsonV::Str(presence),
                            ).insert("status_msg"@, text_or_null(status)).insert(
                                "last_active_ago"@,
                                JsonV::Int(0),
                            ).insert(
                                "currently_active"@,
                                JsonV::Bool(presence == "online"@),
                            ),
                        ),
                    ],
                ),
            ),
        ),
    )
}

/// A presence report as other servers are told it.
pub fn presence_edu(user_id: &str, presence: &str, status_msg: Option<String>) -> (r: Json)
    ensures
        r@ == presence_edu_json(user_id@, presence@, opt_text(status_msg)),
{
    let status = match status_msg {
        Some(s) => Json::Str(s),
        None => Json::Null,
    };
    let mut p: Vec<(String, Json)> = Vec::new();
    put_str(&mut p, "user_id", text_json(user_id));
    put_str(&mut p, "presence", text_json(presence));
    put_str(&mut p, "status_msg", status);
    put_str(&mut p, "last_active_ago", Json::Int(0));
    put_str(&mut p, "currently_active", Json::Bool(same_text(presence, "online")));
    let mut m: Vec<(String, Json)> = Vec::new();
    put_str(&mut m, "edu_type", text_json("m.presence"));
    put_str(&mut m, "content", object_of("push", array_of(Json::Object(p))));
    Json::Object(m)
}

/// What is told of a user's presence.
#[derive(Debug)]
pub struct PresenceAnswer {
    pub presence: String,
    pub status_msg: Option<String>,
    pub last_active_ago_ms: Option<u64>,
    pub currently_active: Option<bool>,
}

/// What is told of a user's presence: offline where nothing is known. `known`
/// is the state, the message, and how long ago the user was active.
pub fn get_presence(known: Option<(String, Option<String>, u64)>) -> (r: PresenceAnswer)
    ensures
        match known {
            Some((presence, status, ago)) => r.presence@ == presence@ && r.status_msg == status
                && r.last_active_ago_ms == Some(ago) && r.currently_active == Some(
                presence@ == "online"@,
            ),
            None => r.presence@ == "offline"@ && r.status_msg is None && r.last_active_ago_ms is None
                && r.currently_active is None,
        },
{
    match known {
        Some((presence, status_msg, ago)) => {
            let active = same_text(presence.as_str(), "online");
            PresenceAnswer {
                presence,
                status_msg,
                last_active_ago_ms: Some(ago),
                currently_active: Some(active),
            }
        },
        None => PresenceAnswer {
            presence: "offline".to_owned(),
            status_msg: None,
            last_active_ago_ms: None,
            currently_active: None,
        },
    }
}

/// What a change to a device does.
#[derive(Clone, Copy, Debug, PartialEq, Eq, Structural)]
pub enum DeviceChange {
    /// An appservice makes the device where it is not there.
    Upsert,
    Rename,
}

/// What a change to a device does.
pub fn update_device(appservice: bool) -> (r: DeviceChange)
    ensures
        r == (if appservice {
            DeviceChange::Upsert
        } else {
            DeviceChange::Rename
        }),
{
    if appservice {
        DeviceChange::Upsert
    } else {
        DeviceChange::Rename
    }
}

/// A change of profile goes to the rooms that the user has joined.
pub proof fn law_joined_rooms_are_told_of_a_profile(
    a: Seq<RoomMembership>,
    b: Seq<RoomMembership>,
    x: RoomMembership,
)
    ensures
        told_rooms(a + b) == told_rooms(a) + told_rooms(b),
        told_rooms(seq![x]) == (if x.membership@ == "join"@ && is_room_id(x.room_id@) {
            seq![x.room_id@]
        } else {
            Seq::empty()
        }),
    decreases b.len(),
{
    reveal_with_fuel(told_rooms, 2);
    assert(seq![x].drop_last() =~= Seq::<RoomMembership>::empty());
    if b.len() == 0 {
        assert(a + b =~= a);
    } else {
        law_joined_rooms_are_told_of_a_profile(a, b.drop_last(), x);
        assert((a + b).drop_last() =~= a + b.drop_last());
        assert((a + b).last() == b.last());
    }

    assert(told_rooms(a + b) =~= told_rooms(a) + told_rooms(b));
}

/// Logging out the others logs out every device but the caller's.
pub proof fn law_all_other_devices_are_logged_out(
    a: Seq<Seq<char>>,
    b: Seq<Seq<char>>,
    x: Seq<char>,
    own: Seq<char>,
)
    ensures
        others(a + b, own) == others(a, own) + others(b, own),
        others(seq![x], own) == (if x == own {
            Seq::empty()
        } else {
            seq![x]
        }),
    decreases b.len(),
{
    reveal_with_fuel(others, 2);
    assert(seq![x].drop_last() =~= Seq::<Seq<char>>::empty());
    if b.len() == 0 {
        assert(a + b =~= a);
    } else {
        law_all_other_devices_are_logged_out(a, b.drop_last(), x, own);
        assert((a + b).drop_last() =~= a + b.drop_last());
        assert((a + b).last() == b.last());
    }

    assert(others(a + b, own) =~= others(a, own) + others(b, own));
}

/// A profile is asked of the server that has it; where that is ours, it is
/// known exactly where there is an account, or an appservice makes one when it
/// is asked.
pub proof fn law_profiles_are_looked_up(account_exists: bool, asked: Option<bool>)
    ensures
        profile_step(false, account_exists, asked) is AskServer,
        account_exists && asked != Some(false) ==> profile_step(true, account_exists,
            asked) is Local,
        !account_exists && asked is None ==> profile_step(true, account_exists,
            asked) is AskAppservice,
        asked == Some(false) ==> profile_step(true, account_exists, asked) is Unknown,
        !account_exists && asked is Some ==> profile_step(true, account_exists, asked) is Unknown,
{
}

/// A profile tells the name and the picture, where there are any, and leaves
/// everything else as it is.
pub proof fn law_profiles_tell_name_and_picture(
    m: Map<Seq<char>, JsonV>,
    displayname: Option<Seq<char>>,
    avatar_url: Option<Seq<char>>,
    k: Seq<char>,
)
    ensures
        ({
            let j = JsonV::Object(with_profile(m, displayname, avatar_url));
            &&& displayname matches Some(n) ==> field(j, "displayname"@) == Some(JsonV::Str(n))
            &&& avatar_url matches Some(a) ==> field(j, "avatar_url"@) == Some(JsonV::Str(a))
            &&& k != "displayname"@ && k != "avatar_url"@ ==> field(j, k) == field(
                JsonV::Object(m),
                k,
            )
            &&& displayname is None ==> field(j, "displayname"@) == field(
                JsonV::Object(m),
                "displayname"@,
            )
            &&& avatar_url is None ==> field(j, "avatar_url"@) == field(
                JsonV::Object(m),
                "avatar_url"@,
            )
        }),
{
    reveal_strlit("displayname");
    reveal_strlit("avatar_url");
    assert("displayname"@.len() == 11 && "avatar_url"@.len() == 10);
}

/// Other servers are told who is there, and how: the presence, what the user
/// says of it, and that they are active exactly where they are online.
pub proof fn law_other_servers_are_told_of_presence(
    user: Seq<char>,
    presence: Seq<char>,
    status: Option<Seq<char>>,
)
    ensures
        ({
            let e = presence_edu_json(user, presence, status);
            &&& field(e, "edu_type"@) == Some(JsonV::Str("m.presence"@))
            &&& field2(e, "content"@, "push"@) matches Some(JsonV::Array(items)) && items.len() == 1
                && field(items[0], "user_id"@) == Some(JsonV::Str(user)) && field(
                items[0],
                "presence"@,
            ) == Some(JsonV::Str(presence)) && field(items[0], "currently_active"@) == Some(
                JsonV::Bool(presence == "online"@),
            ) && (status matches Some(s) ==> field(items[0], "status_msg"@) == Some(JsonV::Str(s)))
        }),
{
    reveal_strlit("edu_type");
    reveal_strlit("content");
    reveal_strlit("user_id");
    reveal_strlit("presence");
    reveal_strlit("status_msg");
    reveal_strlit("last_active_ago");
    reveal_strlit("currently_active");
    assert("edu_type"@.len() == 8 && "content"@.len() == 7 && "user_id"@.len() == 7
        && "presence"@.len() == 8 && "status_msg"@.len() == 10 && "last_active_ago"@.len() == 15
        && "currently_active"@.len() == 16);
    assert("edu_type"@[0] == 'e' && "presence"@[0] == 'p');
    assert("content"@[0] == 'c' && "user_id"@[0] == 'u');
}

/// A user reads and sets only what is their own; anything else is forbidden.
pub proof fn law_users_change_only_their_own(
    owner: &str,
    caller: &str,
    action: OwnAction,
    r: Result<(), ApiError>,
)
    requires
        call_ensures(require_own, (owner, caller, action), r),
    ensures
        r is Ok <==> owner@ == caller@,
        r matches Err(e) ==> e@.status == 403,
{
}

/// Account data can be set but for what the server keeps there: the read
/// position and the push rules.
pub proof fn law_the_servers_data_is_not_set(
    data_type: &str,
    r: Result<(), ApiError>,
)
    requires
        call_ensures(check_settable, (data_type,), r),
    ensures
        r is Err <==> data_type@ == "m.fully_read"@ || data_type@ == "m.push_rules"@,
        r matches Err(e) ==> e@.status == 405,
{
}

/// What is known of a user's presence is told; of whom nothing is known is
/// offline.
pub proof fn law_presence_is_told(
    known: Option<(String, Option<String>, u64)>,
    r: PresenceAnswer,
)
    requires
        call_ensures(get_presence, (known,), r),
    ensures
        known is None ==> r.presence@ == "offline"@,
        known is Some ==> r.presence@ == (known->0).0@ && r.status_msg == (known->0).1
            && r.last_active_ago_ms == Some((known->0).2) && r.currently_active == Some(
            (known->0).0@ == "online"@,
        ),
{
}

/// A filter that can be read is kept and means what it meant; any other is
/// refused.
pub proof fn law_filters_are_kept(
    body: &str,
    r: Result<String, ApiError>,
)
    requires
        call_ensures(create_filter, (body,), r),
    ensures
        r matches Ok(t) ==> parsed_filter(body@) is Ok && parsed_filter(t@) == parsed_filter(body@),
        r matches Err(e) ==> e@.status == 400,
{
}

/// The profile that another server tells is read: the name and the picture.
pub proof fn law_remote_profiles_are_read(
    answer: &Json,
    r: Profile,
)
    requires
        call_ensures(fetch_remote_profile, (answer,), r),
    ensures
        field(answer@, "displayname"@) matches Some(JsonV::Str(n))
            ==> (r.displayname matches Some(d) && d@ == n),
        field(answer@, "avatar_url"@) matches Some(JsonV::Str(n))
            ==> (r.avatar_url matches Some(d) && d@ == n),
        !(field(answer@, "displayname"@) matches Some(JsonV::Str(_))) ==> r.displayname is None,
        !(field(answer@, "avatar_url"@) matches Some(JsonV::Str(_))) ==> r.avatar_url is None,
{
}

/// Every sensitive operation asks for authentication, but where an appservice
/// deletes a device of its users.
pub proof fn law_sensitive_operations_ask_for_the_password(
    op: &Sensitive,
    appservice: bool,
    r: bool,
)
    requires
        call_ensures(takes_password, (op, appservice), r),
    ensures
        !appservice ==> r,
        *op is ChangePassword || *op is Deactivate ==> r,
        *op is DeleteDevice && appservice ==> !r,
{
}

/// Only an appservice makes a device by naming it.
pub proof fn law_appservices_make_devices(
    appservice: bool,
    r: DeviceChange,
)
    requires
        call_ensures(update_device, (appservice,), r),
    ensures
        r is Upsert <==> appservice,
{
}

} // verus!

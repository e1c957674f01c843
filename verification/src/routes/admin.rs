//! The admin API: what its requests carry, and what they default to.
use crate::error::{invalid_param, ApiError};
use crate::ids::{check_room_id, check_user_id, is_room_id, is_user_id, room_id_fault, user_id_fault};
use crate::json::Json;
use crate::text::{quote, quoted};
use vstd::prelude::*;
use vstd::string::StringExecFns;

verus! {

#[derive(Debug)]
pub struct ListUsersQuery {
    /// User id to start the page at, inclusive — pass the previous
    /// response's `next_from`.
    pub from: Option<String>,
    pub limit: Option<usize>,
}

#[derive(Debug)]
pub struct DeactivateBody {
    /// Also mark the account erased and clear its profile. Does **not**
    /// redact the user's messages — that is not implemented.
    pub erase: bool,
}

#[derive(Debug)]
pub struct ResetPasswordBody {
    pub new_password: String,
    /// Revoke every existing session. Defaults to true: an admin reset is
    /// usually a response to compromise, so leaving the old sessions alive
    /// is the wrong default.
    pub logout_devices: bool,
}

#[derive(Debug)]
pub struct SetAdminBody {
    pub admin: bool,
}

#[derive(Debug)]
pub struct LinkBody {
    /// The provider's own identifier for this user (an OIDC `sub`, say).
    pub external_id: String,
}

#[derive(Debug)]
pub struct ListRoomsQuery {
    pub from: Option<String>,
    pub limit: Option<usize>,
}

#[derive(Debug)]
pub struct ShutdownBody {
    /// Also close the room to further joins. Defaults to true: a shutdown
    /// that leaves the door open is not one.
    pub block: bool,
    /// Recorded on each member's leave event.
    pub reason: Option<String>,
}

#[derive(Debug)]
pub struct SetBlockedBody {
    pub blocked: bool,
}

#[derive(Debug)]
pub struct NoticeBody {
    /// The content of the message event, passed through so that an operator
    /// can send any message type their users' clients render.
    pub content: Json,
}

#[derive(Debug)]
pub struct CreateTokenBody {
    /// Omit to have the server mint one.
    pub token: Option<String>,
    /// Omit for unlimited uses.
    pub uses_allowed: Option<u64>,
    /// Omit for no expiry (ms since epoch).
    pub expiry_ts: Option<u64>,
}

/// The default of a switch that is on unless a request turns it off.
pub fn default_true() -> (r: bool)
    ensures
        r,
{
    true
}

/// The user that a path names. A malformed ID is said to be one, rather than
/// being a miss that looks like "no such user".
pub fn target(user_id: &str) -> (r: Result<String, ApiError>)
    ensures
        if is_user_id(user_id@) {
            r matches Ok(s) && s@ == user_id@
        } else {
            r matches Err(e) && e@ == invalid_param(
                quoted(user_id@) + " is not a user id: "@ + user_id_fault(user_id@),
            )
        },
{
    match check_user_id(user_id) {
        Ok(()) => Ok(user_id.to_owned()),
        Err(fault) => {
            let mut message = quote(user_id);
            message.append(" is not a user id: ");
            message.append(fault.as_str());
            Err(ApiError::invalid_param(message.as_str()))
        },
    }
}

/// The room that a path names. The block endpoint takes rooms this server has
/// never heard of, so a typo has nothing else to bounce off.
pub fn room_target(room_id: &str) -> (r: Result<String, ApiError>)
    ensures
        if is_room_id(room_id@) {
            r matches Ok(s) && s@ == room_id@
        } else {
            r matches Err(e) && e@ == invalid_param(
                quoted(room_id@) + " is not a room id: "@ + room_id_fault(room_id@),
            )
        },
{
    match check_room_id(room_id) {
        Ok(()) => Ok(room_id.to_owned()),
        Err(fault) => {
            let mut message = quote(room_id);
            message.append(" is not a room id: ");
            message.append(fault.as_str());
            Err(ApiError::invalid_param(message.as_str()))
        },
    }
}

/// Whether a deactivation erases: only where the body says so.
pub fn deactivate_user(body: Option<DeactivateBody>) -> (r: bool)
    ensures
        r == (body matches Some(b) && b.erase),
{
    match body {
        Some(b) => b.erase,
        None => false,
    }
}

/// How a room is shut down: closed to further joins unless the body says
/// otherwise, and with the reason it gives.
pub fn shutdown_room(body: Option<ShutdownBody>) -> (r: (bool, Option<String>))
    ensures
        match body {
            Some(b) => r == (b.block, b.reason),
            None => r.0 && r.1 is None,
        },
{
    match body {
        Some(b) => (b.block, b.reason),
        None => (true, None),
    }
}

/// What a registration token is made with: unlimited, without expiry, and with
/// a name that the server picks, unless the body says otherwise.
pub fn create_registration_token(body: Option<CreateTokenBody>) -> (r: CreateTokenBody)
    ensures
        match body {
            Some(b) => r == b,
            None => r.token is None && r.uses_allowed is None && r.expiry_ts is None,
        },
{
    match body {
        Some(b) => b,
        None => CreateTokenBody { token: None, uses_allowed: None, expiry_ts: None },
    }
}

/// The content of a server notice must be an object.
pub fn send_notice(body: NoticeBody) -> (r: Result<Json, ApiError>)
    ensures
        if body.content@ is Object {
            r matches Ok(j) && j == body.content
        } else {
            r matches Err(e) && e@ == invalid_param("content must be an object"@)
        },
{
    match body.content.as_object() {
        Some(_) => Ok(body.content),
        None => Err(ApiError::invalid_param("content must be an object")),
    }
}

/// A room that is shut down is blocked unless the request says otherwise.
pub proof fn law_shutdowns_block_by_default(
    body: Option<ShutdownBody>,
    r: (bool, Option<String>),
)
    requires
        call_ensures(shutdown_room, (body,), r),
    ensures
        r.0 <==> (body is None || body->0.block),
        body is Some ==> r.1 == body->0.reason,
        body is None ==> r.1 is None,
{
}

/// An account is erased only where the request says so.
pub proof fn law_erasing_is_asked_for(
    body: Option<DeactivateBody>,
    r: bool,
)
    requires
        call_ensures(deactivate_user, (body,), r),
    ensures
        r <==> body is Some && body->0.erase,
{
}

/// A notice is sent as it was given, and must be an object.
pub proof fn law_notices_are_objects(
    body: NoticeBody,
    r: Result<Json, ApiError>,
)
    requires
        call_ensures(send_notice, (body,), r),
    ensures
        r is Ok <==> body.content@ is Object,
        r matches Ok(j) ==> j@ == body.content@,
        r matches Err(e) ==> e@.status == 400,
{
}

/// An operation on a user names one by a user ID.
pub proof fn law_admins_name_users(
    user_id: &str,
    r: Result<String, ApiError>,
)
    requires
        call_ensures(target, (user_id,), r),
    ensures
        r is Ok <==> is_user_id(user_id@),
        r matches Ok(s) ==> s@ == user_id@,
        r matches Err(e) ==> e@.status == 400,
{
}

/// An operation on a room names one by a room ID.
pub proof fn law_admins_name_rooms(
    room_id: &str,
    r: Result<String, ApiError>,
)
    requires
        call_ensures(room_target, (room_id,), r),
    ensures
        r is Ok <==> is_room_id(room_id@),
        r matches Ok(s) ==> s@ == room_id@,
        r matches Err(e) ==> e@.status == 400,
{
}

/// A registration token is made as it was asked for; without a request it is
/// unlimited.
pub proof fn law_tokens_are_made_as_asked(
    body: Option<CreateTokenBody>,
    r: CreateTokenBody,
)
    requires
        call_ensures(create_registration_token, (body,), r),
    ensures
        body is Some ==> r == body->0,
        body is None ==> r.token is None && r.uses_allowed is None && r.expiry_ts is None,
{
}

} // verus!

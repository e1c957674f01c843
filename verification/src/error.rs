//! The Matrix standard error response: `{"errcode": ..., "error": ...}`
//! with an appropriate HTTP status.
use crate::decimal::{decimal, show_u64};
use crate::json::{fields_view, get, items_view, lemma_items, no_fields, put_str, Json, JsonV};
use crate::text::texts;
use vstd::prelude::*;

verus! {

/// An error on its way to the client.
#[derive(Debug)]
pub struct ApiError {
    pub status: u16,
    pub errcode: String,
    pub message: String,
    /// Extra top-level properties (UIA bodies, `soft_logout`, ...).
    pub extra: Vec<(String, Json)>,
}

/// What an error is.
#[verifier::ext_equal]
pub struct ApiErrorV {
    pub status: int,
    pub errcode: Seq<char>,
    pub message: Seq<char>,
    pub extra: Map<Seq<char>, JsonV>,
}

impl View for ApiError {
    type V = ApiErrorV;

    open spec fn view(&self) -> ApiErrorV {
        ApiErrorV {
            status: self.status as int,
            errcode: self.errcode@,
            message: self.message@,
            extra: fields_view(self.extra@),
        }
    }
}

/// A result with its error taken by what it is.
pub open spec fn outcome<T>(r: Result<T, ApiError>) -> Result<T, ApiErrorV> {
    match r {
        Ok(t) => Ok(t),
        Err(e) => Err(e@),
    }
}

/// An error without extra properties.
pub open spec fn api_error(status: int, errcode: Seq<char>, message: Seq<char>) -> ApiErrorV {
    ApiErrorV { status, errcode, message, extra: no_fields() }
}

pub open spec fn forbidden(message: Seq<char>) -> ApiErrorV {
    api_error(403, "M_FORBIDDEN"@, message)
}

pub open spec fn not_found(message: Seq<char>) -> ApiErrorV {
    api_error(404, "M_NOT_FOUND"@, message)
}

pub open spec fn bad_json(message: Seq<char>) -> ApiErrorV {
    api_error(400, "M_BAD_JSON"@, message)
}

pub open spec fn invalid_param(message: Seq<char>) -> ApiErrorV {
    api_error(400, "M_INVALID_PARAM"@, message)
}

pub open spec fn missing_token() -> ApiErrorV {
    api_error(401, "M_MISSING_TOKEN"@, "Missing access token"@)
}

pub open spec fn unknown_token() -> ApiErrorV {
    api_error(401, "M_UNKNOWN_TOKEN"@, "Unrecognised access token"@)
}

pub open spec fn internal(message: Seq<char>) -> ApiErrorV {
    api_error(500, "M_UNKNOWN"@, message)
}

/// One login flow in a UIA challenge.
pub open spec fn flow_json(stages: Seq<Seq<char>>) -> JsonV {
    JsonV::Object(no_fields().insert("stages"@, strings_json(stages)))
}

/// A JSON array of strings.
pub open spec fn strings_json(list: Seq<Seq<char>>) -> JsonV {
    JsonV::Array(list.map_values(|s: Seq<char>| JsonV::Str(s)))
}

/// The stages of each flow.
pub open spec fn stage_lists(flows: Seq<Vec<String>>) -> Seq<Seq<Seq<char>>> {
    flows.map_values(|f: Vec<String>| texts(f@))
}

/// A User-Interactive Authentication challenge.
pub open spec fn uiaa_error(flows: Seq<Seq<Seq<char>>>, session: Seq<char>) -> ApiErrorV {
    ApiErrorV {
        status: 401,
        errcode: "M_FORBIDDEN"@,
        message: "More authentication required"@,
        extra: no_fields().insert(
            "flows"@,
            JsonV::Array(flows.map_values(|f: Seq<Seq<char>>| flow_json(f))),
        ).insert("params"@, JsonV::Object(no_fields())).insert("session"@, JsonV::Str(session)),
    }
}

/// A JSON array of the strings in `list`.
pub fn string_array(list: &Vec<String>) -> (r: Json)
    ensures
        r@ == strings_json(texts(list@)),
{
    let mut out: Vec<Json> = Vec::new();
    let mut i: usize = 0;
    while i < list.len()
        invariant
            i <= list.len(),
            out.len() == i,
            forall|j: int| 0 <= j < i ==> (#[trigger] out@[j])@ == JsonV::Str(list@[j]@),
        decreases list.len() - i,
    {
        out.push(Json::Str(list[i].as_str().to_owned()));
        i += 1;
    }
    proof {
        lemma_items(out@);
        assert(items_view(out@) =~= texts(list@).map_values(|s: Seq<char>| JsonV::Str(s)));
    }
    Json::Array(out)
}

impl ApiError {
    pub fn new(status: u16, errcode: &str, message: &str) -> (r: ApiError)
        ensures
            r@ == api_error(status as int, errcode@, message@),
    {
        ApiError {
            status,
            errcode: errcode.to_owned(),
            message: message.to_owned(),
            extra: Vec::new(),
        }
    }

    pub fn forbidden(message: &str) -> (r: ApiError)
        ensures
            r@ == forbidden(message@),
    {
        Self::new(403, "M_FORBIDDEN", message)
    }

    pub fn not_found(message: &str) -> (r: ApiError)
        ensures
            r@ == not_found(message@),
    {
        Self::new(404, "M_NOT_FOUND", message)
    }

    pub fn bad_json(message: &str) -> (r: ApiError)
        ensures
            r@ == bad_json(message@),
    {
        Self::new(400, "M_BAD_JSON", message)
    }

    pub fn limit_exceeded(retry_after_ms: u64) -> (r: ApiError)
        ensures
            r@ == (ApiErrorV {
                extra: no_fields().insert("retry_after_ms"@, JsonV::Int(retry_after_ms as int)),
                ..api_error(429, "M_LIMIT_EXCEEDED"@, "Too many requests"@)
            }),
    {
        let mut err = Self::new(429, "M_LIMIT_EXCEEDED", "Too many requests");
        put_str(&mut err.extra, "retry_after_ms", Json::Int(retry_after_ms as i128));
        err
    }

    pub fn invalid_param(message: &str) -> (r: ApiError)
        ensures
            r@ == invalid_param(message@),
    {
        Self::new(400, "M_INVALID_PARAM", message)
    }

    pub fn missing_token() -> (r: ApiError)
        ensures
            r@ == missing_token(),
    {
        Self::new(401, "M_MISSING_TOKEN", "Missing access token")
    }

    pub fn unknown_token() -> (r: ApiError)
        ensures
            r@ == unknown_token(),
    {
        Self::new(401, "M_UNKNOWN_TOKEN", "Unrecognised access token")
    }

    pub fn unrecognized() -> (r: ApiError)
        ensures
            r@ == api_error(404, "M_UNRECOGNIZED"@, "Unrecognized request"@),
    {
        Self::new(404, "M_UNRECOGNIZED", "Unrecognized request")
    }

    /// A known path called with an unsupported method: 405 with the
    /// `M_UNRECOGNIZED` body clients expect (not a bare 405).
    pub fn method_not_allowed() -> (r: ApiError)
        ensures
            r@ == api_error(405, "M_UNRECOGNIZED"@, "Unrecognized request"@),
    {
        Self::new(405, "M_UNRECOGNIZED", "Unrecognized request")
    }

    pub fn internal(message: &str) -> (r: ApiError)
        ensures
            r@ == internal(message@),
    {
        Self::new(500, "M_UNKNOWN", message)
    }

    /// A 401 UIA challenge after a *failed* auth attempt: the challenge
    /// shape plus `errcode`/`error` (wrong credentials during UIA are 401
    /// `M_FORBIDDEN` with the flows, not 403).
    pub fn uiaa_forbidden(flows: &Vec<Vec<String>>, session: String) -> (r: ApiError)
        ensures
            r@ == ({
                let e = uiaa_error(stage_lists(flows@), session@);
                ApiErrorV {
                    extra: e.extra.insert("errcode"@, JsonV::Str("M_FORBIDDEN"@)).insert(
                        "error"@,
                        JsonV::Str("Invalid password"@),
                    ),
                    ..e
                }
            }),
    {
        let mut e = Self::uiaa(flows, session);
        put_str(&mut e.extra, "errcode", Json::Str("M_FORBIDDEN".to_owned()));
        put_str(&mut e.extra, "error", Json::Str("Invalid password".to_owned()));
        e
    }

    /// A 401 User-Interactive Authentication challenge.
    pub fn uiaa(flows: &Vec<Vec<String>>, session: String) -> (r: ApiError)
        ensures
            r@ == uiaa_error(stage_lists(flows@), session@),
    {
        let mut list: Vec<Json> = Vec::new();
        let mut i: usize = 0;
        while i < flows.len()
            invariant
                i <= flows.len(),
                list.len() == i,
                forall|j: int|
                    0 <= j < i ==> (#[trigger] list@[j])@ == flow_json(texts(flows@[j]@)),
            decreases flows.len() - i,
        {
            let mut flow: Vec<(String, Json)> = Vec::new();
            put_str(&mut flow, "stages", string_array(&flows[i]));
            list.push(Json::Object(flow));
            i += 1;
        }
        proof {
            lemma_items(list@);
            assert(items_view(list@) =~= stage_lists(flows@).map_values(
                |f: Seq<Seq<char>>| flow_json(f),
            ));
        }
        let mut e = Self::new(401, "M_FORBIDDEN", "More authentication required");
        put_str(&mut e.extra, "flows", Json::Array(list));
        put_str(&mut e.extra, "params", Json::Object(Vec::new()));
        put_str(&mut e.extra, "session", Json::Str(session));
        e
    }

    /// Add the `completed` list to a UIA challenge. Omitted when empty:
    /// clients read "no key" and "empty list" the same way.
    pub fn with_completed(self, completed: &Vec<String>) -> (r: ApiError)
        ensures
            r@ == (ApiErrorV {
                extra: if completed@.len() == 0 {
                    self@.extra
                } else {
                    self@.extra.insert("completed"@, strings_json(texts(completed@)))
                },
                ..self@
            }),
    {
        let mut e = self;
        if completed.len() > 0 {
            put_str(&mut e.extra, "completed", string_array(completed));
        }
        e
    }

    /// The HTTP response: the status, the body's fields, and the value of the
    /// `Retry-After` header. A rate-limit answer carries the header alongside
    /// the body's `retry_after_ms`; a UIA challenge is the one shape where
    /// `errcode` and `error` are not filled in.
    pub fn into_response(self) -> (r: ErrorResponse)
        ensures
            r.status == self.status,
            fields_view(r.body@) == response_fields(self@),
            match retry_after_secs(self@.extra) {
                Some(secs) => r.retry_after matches Some(t) && t@ == decimal(secs),
                None => r.retry_after is None,
            },
    {
        let retry_after: Option<String> = match get(&self.extra, "retry_after_ms") {
            Some(v) => match v.as_u64() {
                Some(ms) => {
                    let secs: u64 = ms / 1000 + (if ms % 1000 == 0 {
                        0u64
                    } else {
                        1u64
                    });
                    Some(
                        show_u64(
                            if secs == 0 {
                                1
                            } else {
                                secs
                            },
                        ),
                    )
                },
                None => None,
            },
            None => None,
        };
        let challenge = get(&self.extra, "flows").is_some();
        let mut body = self.extra;
        if !challenge {
            put_str(&mut body, "errcode", Json::Str(self.errcode));
            put_str(&mut body, "error", Json::Str(self.message));
        }
        ErrorResponse { status: self.status, body, retry_after }
    }
}

/// An error response, ready to be sent.
#[derive(Debug)]
pub struct ErrorResponse {
    pub status: u16,
    pub body: Vec<(String, Json)>,
    pub retry_after: Option<String>,
}

/// The body of an error response.
pub open spec fn response_fields(e: ApiErrorV) -> Map<Seq<char>, JsonV> {
    if e.extra.dom().contains("flows"@) {
        e.extra
    } else {
        e.extra.insert("errcode"@, JsonV::Str(e.errcode)).insert("error"@, JsonV::Str(e.message))
    }
}

/// The whole seconds to wait, rounded up and at least one, where a wait in
/// milliseconds is given.
pub open spec fn retry_after_secs(extra: Map<Seq<char>, JsonV>) -> Option<nat> {
    if extra.dom().contains("retry_after_ms"@) {
        match extra["retry_after_ms"@] {
            JsonV::Int(ms) => if 0 <= ms <= u64::MAX {
                Some(
                    if ms == 0 {
                        1
                    } else {
                        ((ms + 999) / 1000) as nat
                    },
                )
            } else {
                None
            },
            _ => None,
        }
    } else {
        None
    }
}

// -- faults of other parts ----------------------------------------------------

/// What went wrong with an account.
#[derive(Clone, Copy, Debug, PartialEq, Eq, Structural)]
pub enum UserError {
    UserExists,
    InvalidUsername,
    InvalidPassword,
    Forbidden,
    InvalidGrant,
    NotFound,
    InvalidState,
    UiaRequestMismatch,
    InvalidToken,
    TokenExists,
    ExternalIdInUse,
    AliasExists,
    Internal,
}

/// How a fault with an account is answered.
pub open spec fn user_fault(e: UserError, text: Seq<char>) -> ApiErrorV {
    match e {
        UserError::UserExists => api_error(400, "M_USER_IN_USE"@, text),
        UserError::InvalidUsername => api_error(400, "M_INVALID_USERNAME"@, text),
        UserError::InvalidPassword => api_error(400, "M_INVALID_PARAM"@, text),
        UserError::Forbidden => forbidden(text),
        UserError::InvalidGrant => unknown_token(),
        UserError::NotFound => not_found(text),
        UserError::InvalidState => invalid_param(text),
        UserError::UiaRequestMismatch => forbidden(text),
        UserError::InvalidToken => forbidden(text),
        UserError::TokenExists => api_error(409, "M_INVALID_PARAM"@, text),
        UserError::ExternalIdInUse => api_error(409, "M_INVALID_PARAM"@, text),
        UserError::AliasExists => api_error(409, "M_UNKNOWN"@, "Alias already exists"@),
        UserError::Internal => internal(text),
    }
}

/// What went wrong in a room.
#[derive(Clone, Copy, Debug, PartialEq, Eq, Structural)]
pub enum RoomError {
    UnknownRoom,
    TooLarge,
    /// Validation, verification, format, or a malformed event.
    Malformed,
    Version,
    CannotAuthoriseJoin,
    Internal,
}

/// How a fault in a room is answered.
pub open spec fn room_fault(e: RoomError, text: Seq<char>) -> ApiErrorV {
    match e {
        RoomError::UnknownRoom => not_found(text),
        RoomError::TooLarge => api_error(413, "M_TOO_LARGE"@, text),
        RoomError::Malformed => bad_json(text),
        RoomError::Version => api_error(400, "M_UNSUPPORTED_ROOM_VERSION"@, text),
        RoomError::CannotAuthoriseJoin => forbidden(text),
        RoomError::Internal => internal(text),
    }
}

/// What went wrong with media.
#[derive(Clone, Copy, Debug, PartialEq, Eq, Structural)]
pub enum MediaError {
    NotAnImage,
    BadId,
    Internal,
}

/// How a fault with media is answered.
pub open spec fn media_fault(e: MediaError, text: Seq<char>) -> ApiErrorV {
    match e {
        MediaError::NotAnImage => api_error(400, "M_UNKNOWN"@, "Cannot thumbnail this content"@),
        MediaError::BadId => invalid_param("Invalid media ID"@),
        MediaError::Internal => internal(text),
    }
}

impl ApiError {
    /// The answer to a fault with an account, whose text says what it is.
    pub fn from_user_error(e: UserError, text: &str) -> (r: ApiError)
        ensures
            r@ == user_fault(e, text@),
    {
        match e {
            UserError::UserExists => Self::new(400, "M_USER_IN_USE", text),
            UserError::InvalidUsername => Self::new(400, "M_INVALID_USERNAME", text),
            UserError::InvalidPassword => Self::new(400, "M_INVALID_PARAM", text),
            UserError::Forbidden => Self::forbidden(text),
            UserError::InvalidGrant => Self::unknown_token(),
            UserError::NotFound => Self::not_found(text),
            UserError::InvalidState => Self::invalid_param(text),
            UserError::UiaRequestMismatch => Self::forbidden(text),
            UserError::InvalidToken => Self::forbidden(text),
            UserError::TokenExists => Self::new(409, "M_INVALID_PARAM", text),
            UserError::ExternalIdInUse => Self::new(409, "M_INVALID_PARAM", text),
            UserError::AliasExists => Self::new(409, "M_UNKNOWN", "Alias already exists"),
            UserError::Internal => Self::internal(text),
        }
    }

    /// The answer to a fault in a room.
    pub fn from_room_error(e: RoomError, text: &str) -> (r: ApiError)
        ensures
            r@ == room_fault(e, text@),
    {
        match e {
            RoomError::UnknownRoom => Self::not_found(text),
            RoomError::TooLarge => Self::new(413, "M_TOO_LARGE", text),
            RoomError::Malformed => Self::bad_json(text),
            RoomError::Version => Self::new(400, "M_UNSUPPORTED_ROOM_VERSION", text),
            RoomError::CannotAuthoriseJoin => Self::forbidden(text),
            RoomError::Internal => Self::internal(text),
        }
    }

    /// The answer to a fault with media.
    pub fn from_media_error(e: MediaError, text: &str) -> (r: ApiError)
        ensures
            r@ == media_fault(e, text@),
    {
        match e {
            MediaError::NotAnImage => Self::new(400, "M_UNKNOWN", "Cannot thumbnail this content"),
            MediaError::BadId => Self::invalid_param("Invalid media ID"),
            MediaError::Internal => Self::internal(text),
        }
    }
}

/// Errors carry the status and the code that clients go by.
pub proof fn law_errors_carry_their_codes(message: Seq<char>)
    ensures
        forbidden(message).status == 403 && forbidden(message).errcode == "M_FORBIDDEN"@,
        not_found(message).status == 404 && not_found(message).errcode == "M_NOT_FOUND"@,
        bad_json(message).status == 400 && bad_json(message).errcode == "M_BAD_JSON"@,
        invalid_param(message).status == 400 && invalid_param(message).errcode
            == "M_INVALID_PARAM"@,
        internal(message).status == 500 && internal(message).errcode == "M_UNKNOWN"@,
        missing_token().status == 401 && missing_token().errcode == "M_MISSING_TOKEN"@,
        unknown_token().status == 401 && unknown_token().errcode == "M_UNKNOWN_TOKEN"@,
        forbidden(message).message == message,
        not_found(message).message == message,
        bad_json(message).message == message,
        invalid_param(message).message == message,
        internal(message).message == message,
{
}

/// A refusal says what it is: its code and its text; a demand for
/// authentication says how, and nothing else.
pub proof fn law_refusals_say_what_they_are(e: ApiErrorV, k: Seq<char>)
    ensures
        ({
            let body = JsonV::Object(response_fields(e));
            &&& !e.extra.dom().contains("flows"@) ==> {
                &&& body->Object_0.dom().contains("errcode"@) && body->Object_0["errcode"@]
                    == JsonV::Str(e.errcode)
                &&& body->Object_0.dom().contains("error"@) && body->Object_0["error"@]
                    == JsonV::Str(e.message)
            }
            &&& k != "errcode"@ && k != "error"@ ==> (body->Object_0.dom().contains(k)
                == e.extra.dom().contains(k)) && (e.extra.dom().contains(k) ==> body->Object_0[k]
                == e.extra[k])
            &&& e.extra.dom().contains("flows"@) ==> response_fields(e) == e.extra
        }),
{
    reveal_strlit("errcode");
    reveal_strlit("error");
    assert("errcode"@.len() == 7 && "error"@.len() == 5);
}

/// A client is told to wait for whole seconds: no less than the time that is
/// left, less than a second more, and at least one.
pub proof fn law_waits_are_whole_seconds(extra: Map<Seq<char>, JsonV>, ms: int)
    requires
        extra.dom().contains("retry_after_ms"@),
        extra["retry_after_ms"@] == JsonV::Int(ms),
        0 <= ms <= u64::MAX,
    ensures
        retry_after_secs(extra) matches Some(s) && s >= 1 && s * 1000 >= ms && (ms > 0 ==> (s - 1)
            * 1000 < ms),
{
}

/// What the stores refuse is answered as what it is.
pub proof fn law_faults_are_answered_as_what_they_are(text: Seq<char>)
    ensures
        user_fault(UserError::UserExists, text).errcode == "M_USER_IN_USE"@,
        user_fault(UserError::UserExists, text).status == 400,
        user_fault(UserError::InvalidUsername, text).errcode == "M_INVALID_USERNAME"@,
        user_fault(UserError::InvalidPassword, text).status == 400,
        user_fault(UserError::Forbidden, text).status == 403,
        user_fault(UserError::InvalidGrant, text) == unknown_token(),
        user_fault(UserError::NotFound, text).status == 404,
        user_fault(UserError::InvalidState, text).status == 400,
        user_fault(UserError::UiaRequestMismatch, text).status == 403,
        user_fault(UserError::InvalidToken, text).status == 403,
        user_fault(UserError::TokenExists, text).status == 409,
        user_fault(UserError::ExternalIdInUse, text).status == 409,
        user_fault(UserError::AliasExists, text).status == 409,
        user_fault(UserError::Internal, text).status == 500,
        room_fault(RoomError::UnknownRoom, text).status == 404,
        room_fault(RoomError::TooLarge, text).status == 413,
        room_fault(RoomError::Malformed, text).status == 400,
        room_fault(RoomError::Version, text).errcode == "M_UNSUPPORTED_ROOM_VERSION"@,
        room_fault(RoomError::CannotAuthoriseJoin, text).status == 403,
        room_fault(RoomError::Internal, text).status == 500,
        media_fault(MediaError::NotAnImage, text).status == 400,
        media_fault(MediaError::BadId, text).status == 400,
        media_fault(MediaError::Internal, text).status == 500,
{
}

/// A client that asks too often is told so, and how long to wait.
pub proof fn law_limited_clients_are_told_to_wait(
    ms: u64,
    r: ApiError,
)
    requires
        call_ensures(ApiError::limit_exceeded, (ms,), r),
    ensures
        r@.status == 429,
        r@.errcode == "M_LIMIT_EXCEEDED"@,
        r@.extra.dom().contains("retry_after_ms"@),
        r@.extra["retry_after_ms"@] == JsonV::Int(ms as int),
{
}

/// A demand for authentication lists the flows, each with its stages, and names
/// the session.
pub proof fn law_authentication_is_asked_for_by_flows(
    flows: &Vec<Vec<String>>,
    session: String,
    i: int,
    j: int,
    r: ApiError,
)
    requires
        call_ensures(ApiError::uiaa, (flows, session), r),
    ensures
        r@.status == 401,
        r@.extra.dom().contains("session"@) && r@.extra["session"@] == JsonV::Str(session@),
        r@.extra.dom().contains("flows"@) && (r@.extra["flows"@] matches JsonV::Array(items)
            && items.len() == flows@.len() && (0 <= i < items.len()
                ==> (items[i] matches JsonV::Object(m)
            && m.dom().contains("stages"@) && (m["stages"@] matches JsonV::Array(stages)
                && stages.len()
            == flows@[i]@.len() && (0 <= j < stages.len() ==> stages[j] == JsonV::Str(
            flows@[i]@[j]@,
        )))))),
{
    reveal_strlit("flows");
    reveal_strlit("params");
    reveal_strlit("session");
    assert("flows"@.len() == 5 && "params"@.len() == 6 && "session"@.len() == 7);
}

} // verus!

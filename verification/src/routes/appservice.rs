//! Pinging: an appservice verifying that the homeserver can reach it.
use crate::error::{api_error, forbidden, missing_token, unknown_token, ApiError, ApiErrorV};
use crate::extract::AsAuth;
use crate::json::{entry, fields_view, get, no_fields, object_of, one_field, put_str, Json, JsonV};
use crate::text::{opt_text, same_text};
use vstd::prelude::*;

verus! {

/// What is sent along with a ping, or why it is not sent: only the appservice
/// itself may ask, and it must have a URL.
pub open spec fn ping_request(
    reg_id: Option<Seq<char>>,
    token_present: bool,
    asked_id: Seq<char>,
    has_url: bool,
    body: Map<Seq<char>, JsonV>,
) -> Result<Option<Seq<char>>, ApiErrorV> {
    match reg_id {
        None => if token_present {
            Err(unknown_token())
        } else {
            Err(missing_token())
        },
        Some(id) => if id != asked_id {
            Err(forbidden("Appservice ID does not match the authenticated appservice"@))
        } else if !has_url {
            Err(
                api_error(400, "M_URL_NOT_SET"@, "The appservice is registered with no url"@),
            )
        } else {
            match entry(body, "transaction_id"@) {
                None => Ok(None),
                Some(JsonV::Str(s)) => Ok(Some(s)),
                Some(_) => Err(
                    api_error(400, "M_BAD_JSON"@, "transaction_id must be a string"@),
                ),
            }
        },
    }
}

/// The transaction ID that a ping carries, if any, or why it is not sent.
pub fn ping(
    as_auth: AsAuth,
    appservice_id: &str,
    has_url: bool,
    body: &Vec<(String, Json)>,
) -> (r: Result<Option<String>, ApiError>)
    ensures
        match ping_request(
            match as_auth.reg {
                Some(reg) => Some(reg.id@),
                None => None,
            },
            as_auth.token_present,
            appservice_id@,
            has_url,
            fields_view(body@),
        ) {
            Ok(t) => r matches Ok(x) && opt_text(x) == t,
            Err(x) => r matches Err(e) && e@ == x,
        },
{
    let reg = match as_auth.require() {
        Ok(reg) => reg,
        Err(e) => {
            return Err(e);
        },
    };
    if !same_text(reg.id.as_str(), appservice_id) {
        return Err(
            ApiError::forbidden("Appservice ID does not match the authenticated appservice"),
        );
    }
    if !has_url {
        return Err(
            ApiError::new(400, "M_URL_NOT_SET", "The appservice is registered with no url"),
        );
    }
    match get(body, "transaction_id") {
        None => Ok(None),
        Some(Json::Str(s)) => Ok(Some(s.as_str().to_owned())),
        Some(_) => Err(ApiError::new(400, "M_BAD_JSON", "transaction_id must be a string")),
    }
}

/// How a ping went.
#[derive(Debug)]
pub enum PingOutcome {
    Answered { duration_ms: u64 },
    BadStatus { status: u16, body: String },
    ConnectionFailed,
}

/// The answer to the one who asked for a ping.
pub fn ping_answer(o: PingOutcome) -> (r: Result<Json, ApiError>)
    ensures
        match o {
            PingOutcome::Answered { duration_ms } => r matches Ok(j) && j@ == one_field(
                "duration_ms"@,
                JsonV::Int(duration_ms as int),
            ),
            PingOutcome::BadStatus { status, body } => r matches Err(e) && e@ == (ApiErrorV {
                extra: no_fields().insert("status"@, JsonV::Int(status as int)).insert(
                    "body"@,
                    JsonV::Str(body@),
                ),
                ..api_error(502, "M_BAD_STATUS"@, "The appservice returned a bad status"@)
            }),
            PingOutcome::ConnectionFailed => r matches Err(e) && e@ == api_error(
                502,
                "M_CONNECTION_FAILED"@,
                "The connection to the appservice failed"@,
            ),
        },
{
    match o {
        PingOutcome::Answered { duration_ms } => Ok(
            object_of("duration_ms", Json::Int(duration_ms as i128)),
        ),
        PingOutcome::BadStatus { status, body } => {
            let mut err = ApiError::new(
                502,
                "M_BAD_STATUS",
                "The appservice returned a bad status",
            );
            put_str(&mut err.extra, "status", Json::Int(status as i128));
            put_str(&mut err.extra, "body", Json::Str(body));
            Err(err)
        },
        PingOutcome::ConnectionFailed => Err(
            ApiError::new(502, "M_CONNECTION_FAILED", "The connection to the appservice failed"),
        ),
    }
}

/// An appservice can ask to be pinged exactly where it is known, asks for
/// itself and has an address, and names its transaction by a string or not at
/// all.
pub proof fn law_appservices_are_pinged(
    reg_id: Option<Seq<char>>,
    token_present: bool,
    asked_id: Seq<char>,
    has_url: bool,
    body: Map<Seq<char>, JsonV>,
)
    ensures
        ({
            let r = ping_request(reg_id, token_present, asked_id, has_url, body);
            let named = body.dom().contains("transaction_id"@);
            &&& r is Ok <==> reg_id == Some(asked_id) && has_url && (named ==> body[
                "transaction_id"@] is Str)
            &&& r matches Ok(t) ==> (named ==> t == Some(body["transaction_id"@]->Str_0)) && (!named
                ==> t is None)
            &&& reg_id is None ==> (r matches Err(e) && e.status == 401)
            &&& reg_id is Some && reg_id->0 != asked_id ==> (r matches Err(e) && e.status == 403)
        }),
{
}

/// A ping that was answered tells how long it took; one that was not tells what
/// went wrong, with 502.
pub proof fn law_pings_are_answered(
    o: PingOutcome,
    r: Result<Json, ApiError>,
)
    requires
        call_ensures(ping_answer, (o,), r),
    ensures
        r is Ok <==> o is Answered,
        o matches PingOutcome::Answered { duration_ms }
            ==> (r matches Ok(j) && (j@ matches JsonV::Object(m)
            && m.dom().contains("duration_ms"@) && m["duration_ms"@]
            == JsonV::Int(duration_ms as int))),
        r matches Err(e) ==> e@.status == 502,
        o is BadStatus ==> (r matches Err(e) && e@.errcode == "M_BAD_STATUS"@),
        o is ConnectionFailed ==> (r matches Err(e) && e@.errcode == "M_CONNECTION_FAILED"@),
{
}

} // verus!

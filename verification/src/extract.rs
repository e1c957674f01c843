//! What requests carry: bodies, tokens, and the identity behind a token.
use crate::error::{api_error, bad_json, forbidden, missing_token, outcome, unknown_token, ApiError, ApiErrorV};
use crate::ids::{check_user_id, is_user_id};
use crate::json::{field, fields_view, items_view, lemma_items, Json, JsonV};
use crate::percent::{decode, has_whole_escapes, percent_decoded, whole_escapes};
use crate::text::{begins_with, join_texts, list_has, opt_str, opt_text, same_text, split, split_on, starts_with, strip_prefix, texts};
use vstd::prelude::*;
use vstd::string::StringExecFns;
use vstd::utf8::valid_utf8;

verus! {

/// A parsed request. Authentication is a separate matter: handlers state their
/// own requirements.
#[derive(Debug)]
pub struct Ar<T>(pub T);

/// An answer.
#[derive(Debug)]
pub struct Ra<T>(pub T);

// -- bodies -------------------------------------------------------------------

/// Body cap for the JSON surface, where a whole body is held in memory before
/// it is parsed.
pub const MAX_JSON_BODY: usize = 8_388_608;

/// Body cap for binary uploads.
pub const MAX_MEDIA_BODY: usize = 67_108_864;

/// Is a body JSON by its content type? One without a content type is.
pub fn is_json_body(content_type: Option<&str>) -> (r: bool)
    ensures
        r == (content_type matches Some(ct) ==> begins_with(ct@, "application/json"@)),
{
    match content_type {
        Some(ct) => starts_with(ct, "application/json"),
        None => true,
    }
}

/// How large a body may be.
pub fn body_cap(is_json: bool) -> (r: usize)
    ensures
        r == (if is_json {
            MAX_JSON_BODY
        } else {
            MAX_MEDIA_BODY
        }),
{
    if is_json {
        MAX_JSON_BODY
    } else {
        MAX_MEDIA_BODY
    }
}

/// `std::str::from_utf8`, asked only whether it succeeds: on bytes that are
/// valid UTF-8 and on no others.
#[verifier::external_body]
fn utf8_ok(bytes: &[u8]) -> (r: bool)
    ensures
        r == valid_utf8(bytes@),
{
    std::str::from_utf8(bytes).is_ok()
}

/// The bytes of `{}`.
pub open spec fn empty_object() -> Seq<u8> {
    seq![123u8, 125u8]
}

/// A body as it is parsed: JSON must be UTF-8, an absent JSON body means `{}`,
/// and binary bodies pass through untouched.
pub fn check_body(is_json: bool, bytes: Vec<u8>) -> (r: Result<Vec<u8>, ApiError>)
    ensures
        if is_json && !valid_utf8(bytes@) {
            r matches Err(e) && e@ == api_error(
                400,
                "M_NOT_JSON"@,
                "Request body is not valid UTF-8"@,
            )
        } else if is_json && bytes@.len() == 0 {
            r matches Ok(b) && b@ == empty_object()
        } else {
            r matches Ok(b) && b@ == bytes@
        },
{
    if is_json && !utf8_ok(bytes.as_slice()) {
        return Err(ApiError::new(400, "M_NOT_JSON", "Request body is not valid UTF-8"));
    }
    if is_json && bytes.len() == 0 {
        let mut out: Vec<u8> = Vec::new();
        out.push(123);
        out.push(125);
        proof {
            assert(out@ =~= empty_object());
        }
        return Ok(out);
    }
    Ok(bytes)
}

/// A raw JSON object body, for endpoints that take fields beyond those of their
/// request type.
#[derive(Debug)]
pub struct Jb(pub Vec<(String, Json)>);

impl Jb {
    /// The body of a request: nothing where it is absent, else what it was
    /// parsed as, or what was wrong with it.
    pub fn from_body(parsed: Option<Result<Json, String>>) -> (r: Result<Jb, ApiError>)
        ensures
            match parsed {
                None => r matches Ok(b) && b.0@.len() == 0,
                Some(Ok(j)) => match j@ {
                    JsonV::Object(m) => r matches Ok(b) && fields_view(b.0@) == m,
                    _ => r matches Err(e) && e@ == api_error(
                        400,
                        "M_NOT_JSON"@,
                        "Request body is not a JSON object"@,
                    ),
                },
                Some(Err(fault)) => r matches Err(e) && e@ == api_error(
                    400,
                    "M_NOT_JSON"@,
                    "Request body is not valid JSON: "@ + fault@,
                ),
            },
    {
        match parsed {
            None => Ok(Jb(Vec::new())),
            Some(Ok(Json::Object(m))) => Ok(Jb(m)),
            Some(Ok(_)) => Err(
                ApiError::new(400, "M_NOT_JSON", "Request body is not a JSON object"),
            ),
            Some(Err(fault)) => {
                let message = join_texts("Request body is not valid JSON: ", fault.as_str());
                Err(ApiError::new(400, "M_NOT_JSON", message.as_str()))
            },
        }
    }
}

// -- tokens -------------------------------------------------------------------

/// Decodes one query value.
pub fn url_decode(s: &str) -> (r: String)
    requires
        whole_escapes(s@),
    ensures
        r@ == percent_decoded(s@),
        r@.len() == 0 <==> s@.len() == 0,
{
    decode(s)
}

/// The value that a pair gives a parameter, still encoded.
pub open spec fn raw_value(pair: Seq<char>, name: Seq<char>) -> Option<Seq<char>> {
    if begins_with(pair, name.push('=')) {
        Some(pair.skip(name.len() as int + 1))
    } else {
        None
    }
}

/// Can the values of a parameter be decoded without cutting a character in two,
/// from pair `i` on and up to the one that counts? `nonempty` passes over empty
/// values.
pub open spec fn readable_from(
    pairs: Seq<Seq<char>>,
    name: Seq<char>,
    nonempty: bool,
    i: int,
) -> bool
    decreases pairs.len() - i,
{
    if i < 0 || i >= pairs.len() {
        true
    } else {
        match raw_value(pairs[i], name) {
            Some(v) => if nonempty && v.len() == 0 {
                readable_from(pairs, name, nonempty, i + 1)
            } else {
                whole_escapes(v)
            },
            None => readable_from(pairs, name, nonempty, i + 1),
        }
    }
}

/// Can the value that counts for a parameter be decoded without cutting a
/// character in two?
pub open spec fn readable(query: Seq<char>, name: Seq<char>, nonempty: bool) -> bool {
    readable_from(split_on(query, '&'), name, nonempty, 0)
}

fn value_in(pair: &str, name: &str) -> (r: Option<String>)
    ensures
        match raw_value(pair@, name@) {
            Some(v) => r matches Some(s) && s@ == v,
            None => r is None,
        },
{
    let mut prefix = name.to_owned();
    prefix.push('=');
    proof {
        assert(prefix@ =~= name@.push('='));
    }
    strip_prefix(pair, prefix.as_str())
}

/// Can the value that counts for a parameter be decoded? Where `nonempty`, empty
/// values do not count.
pub fn is_readable(query: &str, name: &str, nonempty: bool) -> (r: bool)
    ensures
        r == readable(query@, name@, nonempty),
{
    let pairs = split(query, '&');
    let ghost views = texts(pairs@);
    let mut i: usize = 0;
    while i < pairs.len()
        invariant
            i <= pairs.len(),
            views == texts(pairs@),
            views == split_on(query@, '&'),
            readable(query@, name@, nonempty) == readable_from(views, name@, nonempty, i as int),
        decreases pairs.len() - i,
    {
        proof {
            assert(views[i as int] == pairs@[i as int]@);
        }
        match value_in(pairs[i].as_str(), name) {
            Some(v) => if !nonempty || !v.as_str().is_empty() {
                return has_whole_escapes(v.as_str());
            },
            None => {},
        }
        i += 1;
    }
    true
}

/// The first value of a parameter from pair `i` on, decoded; `nonempty` passes
/// over empty values.
pub open spec fn first_value(
    pairs: Seq<Seq<char>>,
    name: Seq<char>,
    nonempty: bool,
    i: int,
) -> Option<Seq<char>>
    decreases pairs.len() - i,
{
    if i < 0 || i >= pairs.len() {
        None
    } else {
        match raw_value(pairs[i], name) {
            Some(v) => if nonempty && percent_decoded(v).len() == 0 {
                first_value(pairs, name, nonempty, i + 1)
            } else {
                Some(percent_decoded(v))
            },
            None => first_value(pairs, name, nonempty, i + 1),
        }
    }
}

fn find_value(query: &str, name: &str, nonempty: bool) -> (r: Option<String>)
    requires
        readable(query@, name@, nonempty),
    ensures
        match first_value(split_on(query@, '&'), name@, nonempty, 0) {
            Some(v) => r matches Some(s) && s@ == v,
            None => r is None,
        },
{
    let pairs = split(query, '&');
    let ghost views = texts(pairs@);
    let mut i: usize = 0;
    while i < pairs.len()
        invariant
            i <= pairs.len(),
            views == texts(pairs@),
            views == split_on(query@, '&'),
            readable_from(views, name@, nonempty, i as int),
            first_value(views, name@, nonempty, 0) == first_value(
                views,
                name@,
                nonempty,
                i as int,
            ),
        decreases pairs.len() - i,
    {
        proof {
            assert(views[i as int] == pairs@[i as int]@);
        }
        match value_in(pairs[i].as_str(), name) {
            Some(v) => {
                let decoded = url_decode(v.as_str());
                if !nonempty || !decoded.as_str().is_empty() {
                    return Some(decoded);
                }
            },
            None => {},
        }
        i += 1;
    }
    None
}

/// The value of a parameter of a query string.
pub open spec fn param_value(query: Option<Seq<char>>, name: Seq<char>) -> Option<Seq<char>> {
    match query {
        Some(q) => first_value(split_on(q, '&'), name, false, 0),
        None => None,
    }
}

/// One parameter of a query string, decoded: its first value counts.
pub fn query_param(query: Option<&str>, name: &str) -> (r: Option<String>)
    requires
        query matches Some(q) ==> readable(q@, name@, false),
    ensures
        match param_value(opt_str(query), name@) {
            Some(v) => r matches Some(s) && s@ == v,
            None => r is None,
        },
{
    match query {
        Some(q) => find_value(q, name, false),
        None => None,
    }
}

/// Whether a request carries a bearer token in its header at all.
pub fn bearer_header(authorization: Option<&str>) -> (r: bool)
    ensures
        r == (authorization matches Some(s) && begins_with(s@, "Bearer "@)),
{
    match authorization {
        Some(s) => starts_with(s, "Bearer "),
        None => false,
    }
}

/// The token of a request: the bearer header, falling back to the query.
pub open spec fn token_of(authorization: Option<Seq<char>>, query: Option<Seq<char>>) -> Option<
    Seq<char>,
> {
    if authorization matches Some(s) && begins_with(s, "Bearer "@) {
        Some(authorization->0.skip("Bearer "@.len() as int))
    } else {
        match query {
            Some(q) => first_value(split_on(q, '&'), "access_token"@, true, 0),
            None => None,
        }
    }
}

/// The token of a request.
pub fn token_from_parts(authorization: Option<&str>, query: Option<&str>) -> (r: Option<String>)
    requires
        !(authorization matches Some(s) && begins_with(s@, "Bearer "@)) ==> (query matches Some(q)
            ==> readable(q@, "access_token"@, true)),
    ensures
        match token_of(opt_str(authorization), opt_str(query)) {
            Some(v) => r matches Some(s) && s@ == v,
            None => r is None,
        },
{
    match authorization {
        Some(s) => match strip_prefix(s, "Bearer ") {
            Some(t) => {
                return Some(t);
            },
            None => {},
        },
        None => {},
    }
    match query {
        Some(q) => find_value(q, "access_token", true),
        None => None,
    }
}

// -- identities ---------------------------------------------------------------

/// What is known of a registered application service.
#[derive(Debug)]
pub struct Registration {
    pub id: String,
    pub sender_localpart: String,
    pub rate_limited: bool,
}

/// The authenticated caller.
#[derive(Debug)]
pub struct Auth {
    pub user_id: String,
    pub device_id: String,
    /// Set when the caller authenticated with the token of an application
    /// service.
    pub appservice: Option<Registration>,
    /// An appservice acting as a namespaced user rather than its own sender.
    pub masquerade: bool,
}

/// Is a caller a server administrator?
pub open spec fn holds_admin(a: Auth, admin_users: Seq<Seq<char>>, account_flag: bool) -> bool {
    a.appservice is None && (admin_users.contains(a.user_id@) || account_flag)
}

impl Auth {
    pub fn is_appservice(&self) -> (r: bool)
        ensures
            r == (self.appservice is Some),
    {
        self.appservice.is_some()
    }

    /// Whether this caller skips rate limiting: the sender of an appservice
    /// always does; users it acts as do where the registration opted out.
    pub fn rate_limit_exempt(&self) -> (r: bool)
        ensures
            r == (self.appservice matches Some(reg) && (!self.masquerade || !reg.rate_limited)),
    {
        match &self.appservice {
            Some(reg) => !self.masquerade || !reg.rate_limited,
            None => false,
        }
    }

    /// Whether the caller is a server administrator: named in the
    /// configuration, or flagged on the account. Appservices never are: they
    /// have no account that could carry the flag.
    pub fn is_admin(&self, admin_users: &Vec<String>, account_flag: bool) -> (r: bool)
        ensures
            r == holds_admin(*self, texts(admin_users@), account_flag),
    {
        if self.appservice.is_some() {
            return false;
        }
        list_has(admin_users, self.user_id.as_str()) || account_flag
    }
}

/// No application service is an administrator, whatever the configuration and
/// the accounts say.
pub proof fn law_appservices_are_no_admins(a: Auth, admin_users: Seq<Seq<char>>, flag: bool)
    requires
        a.appservice is Some,
    ensures
        !holds_admin(a, admin_users, flag),
{
}

/// The appservice that a request's token belongs to, if any, for endpoints that
/// know of appservices but where there is no user yet.
#[derive(Debug)]
pub struct AsAuth {
    pub reg: Option<Registration>,
    pub token_present: bool,
}

impl AsAuth {
    /// The registration, or the error of the paths that are for appservices
    /// only.
    pub fn require(self) -> (r: Result<Registration, ApiError>)
        ensures
            outcome(r) == (match self.reg {
                Some(reg) => Ok::<Registration, ApiErrorV>(reg),
                None => if self.token_present {
                    Err(unknown_token())
                } else {
                    Err(missing_token())
                },
            }),
    {
        match self.reg {
            Some(reg) => Ok(reg),
            None => if self.token_present {
                Err(ApiError::unknown_token())
            } else {
                Err(ApiError::missing_token())
            },
        }
    }
}

/// What is found behind a token.
#[derive(Debug)]
pub enum TokenOwner {
    User { user_id: String, device_id: String },
    Nobody,
}

/// The caller behind a token that is no appservice's.
pub fn user_auth(token: Option<&str>, owner: TokenOwner) -> (r: Result<Auth, ApiError>)
    ensures
        match (token, owner) {
            (None, _) => r matches Err(e) && e@ == missing_token(),
            (Some(_), TokenOwner::User { user_id, device_id }) => r matches Ok(a) && a.user_id
                == user_id && a.device_id == device_id && a.appservice is None && !a.masquerade,
            (Some(_), TokenOwner::Nobody) => r matches Err(e) && e@ == unknown_token(),
        },
{
    if token.is_none() {
        return Err(ApiError::missing_token());
    }
    match owner {
        TokenOwner::User { user_id, device_id } => Ok(
            Auth { user_id, device_id, appservice: None, masquerade: false },
        ),
        TokenOwner::Nobody => Err(ApiError::unknown_token()),
    }
}

/// Whom an appservice acts as: any user of its namespaces that it has
/// registered, and its own sender where it names nobody else.
pub open spec fn asserted_user(
    sender: Seq<char>,
    param: Option<Seq<char>>,
    in_namespace: bool,
    registered: bool,
) -> Result<(Seq<char>, bool), ApiErrorV> {
    let masquerade = param is Some && param->0 != sender;
    let user = if masquerade {
        param->0
    } else {
        sender
    };
    if masquerade && !in_namespace {
        Err(forbidden("Application service cannot masquerade as this user"@))
    } else if masquerade && !registered {
        Err(forbidden("Application service has not registered this user"@))
    } else if !is_user_id(user) {
        Err(api_error(400, "M_INVALID_PARAM"@, "Invalid user_id parameter"@))
    } else {
        Ok((user, masquerade))
    }
}

/// Whom an appservice acts as, and whether that is another than its sender.
pub fn assert_user(
    sender: &str,
    param: Option<&str>,
    in_namespace: bool,
    registered: bool,
) -> (r: Result<(String, bool), ApiError>)
    ensures
        match asserted_user(sender@, opt_str(param), in_namespace, registered) {
            Ok((user, masquerade)) => r matches Ok(p) && p.0@ == user && p.1 == masquerade,
            Err(x) => r matches Err(e) && e@ == x,
        },
{
    let (user, masquerade) = match param {
        Some(uid) => if same_text(uid, sender) {
            (sender, false)
        } else {
            if !in_namespace {
                return Err(
                    ApiError::forbidden("Application service cannot masquerade as this user"),
                );
            }
            if !registered {
                return Err(
                    ApiError::forbidden("Application service has not registered this user"),
                );
            }
            (uid, true)
        },
        None => (sender, false),
    };
    match check_user_id(user) {
        Ok(()) => Ok((user.to_owned(), masquerade)),
        Err(_) => Err(ApiError::new(400, "M_INVALID_PARAM", "Invalid user_id parameter")),
    }
}

/// An appservice acts as a user other than its sender only where that user is
/// in its namespaces and was registered by it.
pub proof fn law_masquerade_is_earned(
    sender: Seq<char>,
    param: Option<Seq<char>>,
    in_namespace: bool,
    registered: bool,
)
    ensures
        asserted_user(sender, param, in_namespace, registered) matches Ok((user, masquerade)) ==> (
        user != sender ==> masquerade && in_namespace && registered),
{
}

/// The device that an appservice acts through: a device of the user that it
/// names and that exists, or a synthetic one, which is stable so that
/// transaction IDs keep their scope.
pub fn assert_device(
    user_id: &str,
    param: Option<&str>,
    known: bool,
    sender_localpart: &str,
) -> (r: Result<String, ApiError>)
    ensures
        match param {
            Some(d) => if known {
                r matches Ok(s) && s@ == d@
            } else {
                r matches Err(e) && e@ == api_error(
                    400,
                    "M_UNKNOWN_DEVICE"@,
                    "Unknown device '"@ + d@ + "' for "@ + user_id@,
                )
            },
            None => r matches Ok(s) && s@ == "appservice_"@ + sender_localpart@,
        },
{
    match param {
        Some(d) => if known {
            Ok(d.to_owned())
        } else {
            let mut message = "Unknown device '".to_owned();
            message.append(d);
            message.append("' for ");
            message.append(user_id);
            Err(ApiError::new(400, "M_UNKNOWN_DEVICE", message.as_str()))
        },
        None => Ok(join_texts("appservice_", sender_localpart)),
    }
}

/// An authenticated caller who is also a server administrator.
#[derive(Debug)]
pub struct AdminAuth(pub Auth);

impl AdminAuth {
    /// The acting administrator.
    pub fn user_id(&self) -> (r: &str)
        ensures
            r@ == self.0.user_id@,
    {
        self.0.user_id.as_str()
    }

    /// Lets an administrator in. The token must have come in the header, never
    /// in the query; and the answer is the same whether the account lacks the
    /// flag or does not exist.
    pub fn from_auth(bearer: bool, auth: Result<Auth, ApiError>, is_admin: bool) -> (r: Result<
        AdminAuth,
        ApiError,
    >)
        ensures
            if !bearer {
                r matches Err(e) && e@ == missing_token()
            } else {
                match auth {
                    Ok(a) => if is_admin {
                        r matches Ok(x) && x.0 == a
                    } else {
                        r matches Err(e) && e@ == forbidden("You are not a server administrator"@)
                    },
                    Err(x) => r matches Err(e) && e@ == x@,
                }
            },
    {
        if !bearer {
            return Err(ApiError::missing_token());
        }
        match auth {
            Ok(a) => if is_admin {
                Ok(AdminAuth(a))
            } else {
                Err(ApiError::forbidden("You are not a server administrator"))
            },
            Err(e) => Err(e),
        }
    }
}

/// What an appservice asserts of itself, and what is known of it.
#[derive(Debug)]
pub struct Assertion<'a> {
    /// The user ID of its sender.
    pub sender: &'a str,
    pub user_id: Option<&'a str>,
    /// The named user is in its namespaces.
    pub in_namespace: bool,
    /// The named user has an account.
    pub registered: bool,
    pub device_id: Option<&'a str>,
    /// The named device is one of the user's.
    pub device_known: bool,
}

/// Resolves a request with the token of an appservice to its effective identity.
pub fn appservice_auth(reg: Registration, a: Assertion<'_>) -> (r: Result<Auth, ApiError>)
    ensures
        match asserted_user(a.sender@, opt_str(a.user_id), a.in_namespace, a.registered) {
            Err(x) => r matches Err(e) && e@ == x,
            Ok((user, masquerade)) => match a.device_id {
                Some(d) => if a.device_known {
                    r matches Ok(auth) && auth.user_id@ == user && auth.device_id@ == d@
                        && auth.appservice == Some(reg) && auth.masquerade == masquerade
                } else {
                    r matches Err(e) && e@ == api_error(
                        400,
                        "M_UNKNOWN_DEVICE"@,
                        "Unknown device '"@ + d@ + "' for "@ + user,
                    )
                },
                None => r matches Ok(auth) && auth.user_id@ == user && auth.device_id@
                    == "appservice_"@ + reg.sender_localpart@ && auth.appservice == Some(reg)
                    && auth.masquerade == masquerade,
            },
        },
{
    let (user_id, masquerade) = match assert_user(
        a.sender,
        a.user_id,
        a.in_namespace,
        a.registered,
    ) {
        Ok(p) => p,
        Err(e) => {
            return Err(e);
        },
    };
    let device_id = match assert_device(
        user_id.as_str(),
        a.device_id,
        a.device_known,
        reg.sender_localpart.as_str(),
    ) {
        Ok(d) => d,
        Err(e) => {
            return Err(e);
        },
    };
    Ok(Auth { user_id, device_id, appservice: Some(reg), masquerade })
}

// -- fields of a body ---------------------------------------------------------

/// The text in a field of a body. One that is absent or null is none, and anything
/// else is refused.
pub open spec fn text_in_body(body: JsonV, key: Seq<char>) -> Result<Option<Seq<char>>, ApiErrorV> {
    match field(body, key) {
        None => Ok(None),
        Some(JsonV::Null) => Ok(None),
        Some(JsonV::Str(t)) => Ok(Some(t)),
        Some(_) => Err(bad_json(key + ": expected a string"@)),
    }
}

/// The text in a field of a body.
pub fn text_field(body: &Json, key: &str) -> (r: Result<Option<String>, ApiError>)
    ensures
        match text_in_body(body@, key@) {
            Ok(t) => r matches Ok(x) && opt_text(x) == t,
            Err(x) => r matches Err(e) && e@ == x,
        },
{
    match body.get(key) {
        None => Ok(None),
        Some(Json::Null) => Ok(None),
        Some(Json::Str(t)) => Ok(Some(t.as_str().to_owned())),
        Some(_) => Err(ApiError::bad_json(join_texts(key, ": expected a string").as_str())),
    }
}

/// The flag in a field of a body, down where it is absent.
pub open spec fn flag_in_body(body: JsonV, key: Seq<char>) -> Result<bool, ApiErrorV> {
    match field(body, key) {
        None => Ok(false),
        Some(JsonV::Bool(b)) => Ok(b),
        Some(_) => Err(bad_json(key + ": expected a boolean"@)),
    }
}

/// The flag in a field of a body.
pub fn flag_field(body: &Json, key: &str) -> (r: Result<bool, ApiError>)
    ensures
        outcome(r) == flag_in_body(body@, key@),
{
    match body.get(key) {
        None => Ok(false),
        Some(Json::Bool(b)) => Ok(*b),
        Some(_) => Err(ApiError::bad_json(join_texts(key, ": expected a boolean").as_str())),
    }
}

/// Are all of these user IDs?
pub open spec fn all_user_ids(items: Seq<JsonV>) -> bool {
    forall|i: int|
        0 <= i < items.len() ==> ((#[trigger] items[i]) matches JsonV::Str(s) && is_user_id(s))
}

/// The user IDs in a field of a body, none where it is absent.
pub open spec fn users_in_body(body: JsonV, key: Seq<char>) -> Result<Seq<Seq<char>>, ApiErrorV> {
    match field(body, key) {
        None => Ok(Seq::empty()),
        Some(JsonV::Array(items)) => if all_user_ids(items) {
            Ok(items.map_values(|j: JsonV| j->Str_0))
        } else {
            Err(bad_json(key + ": expected a list of user IDs"@))
        },
        Some(_) => Err(bad_json(key + ": expected a list of user IDs"@)),
    }
}

/// The user IDs in a field of a body.
pub fn users_field(body: &Json, key: &str) -> (r: Result<Vec<String>, ApiError>)
    ensures
        match users_in_body(body@, key@) {
            Ok(t) => r matches Ok(x) && texts(x@) == t,
            Err(x) => r matches Err(e) && e@ == x,
        },
{
    let mut out: Vec<String> = Vec::new();
    proof {
        assert(texts(out@) =~= Seq::<Seq<char>>::empty());
    }
    let items = match body.get(key) {
        None => {
            return Ok(out);
        },
        Some(Json::Array(items)) => items,
        Some(_) => {
            return Err(not_users(key));
        },
    };
    let ghost all = items_view(items@);
    proof {
        lemma_items(items@);
    }
    let mut i: usize = 0;
    while i < items.len()
        invariant
            i <= items.len(),
            all == items_view(items@),
            all == items@.map_values(|j: Json| j@),
            field(body@, key@) == Some(JsonV::Array(all)),
            texts(out@) == all.take(i as int).map_values(|j: JsonV| j->Str_0),
            forall|k: int|
                0 <= k < i ==> ((#[trigger] all[k]) matches JsonV::Str(s) && is_user_id(s)),
        decreases items.len() - i,
    {
        proof {
            assert(all[i as int] == items@[i as int]@);
        }
        match &items[i] {
            Json::Str(id) => {
                if check_user_id(id.as_str()).is_err() {
                    return Err(not_users(key));
                }
                let id = id.as_str().to_owned();
                proof {
                    assert(texts(out@.push(id)) =~= texts(out@).push(id@));
                    assert(all.take(i + 1).map_values(|j: JsonV| j->Str_0) =~= all.take(
                        i as int,
                    ).map_values(|j: JsonV| j->Str_0).push(id@));
                }
                out.push(id);
            },
            _ => {
                return Err(not_users(key));
            },
        }
        i += 1;
    }
    proof {
        assert(all.take(all.len() as int) =~= all);
    }
    Ok(out)
}

fn not_users(key: &str) -> (r: ApiError)
    ensures
        r@ == bad_json(key@ + ": expected a list of user IDs"@),
{
    ApiError::bad_json(join_texts(key, ": expected a list of user IDs").as_str())
}

/// A parameter's value is that of the first pair with its name, decoded; where
/// an empty value does not count, of the first that is not empty.
pub proof fn law_the_first_value_counts(
    pairs: Seq<Seq<char>>,
    name: Seq<char>,
    value: Seq<char>,
    nonempty: bool,
    k: int,
    i: int,
)
    requires
        0 <= i <= k < pairs.len(),
        pairs[k] == name + seq!['='] + value,
        nonempty ==> percent_decoded(value).len() > 0,
        forall|j: int|
            i <= j < k ==> !begins_with(#[trigger] pairs[j], name + seq!['=']) || (nonempty
                && percent_decoded(pairs[j].skip(name.len() as int + 1)).len() == 0),
    ensures
        first_value(pairs, name, nonempty, i) == Some(percent_decoded(value)),
    decreases k - i,
{
    assert(name.push('=') =~= name + seq!['=']);
    if i < k {
        law_the_first_value_counts(pairs, name, value, nonempty, k, i + 1);
        assert(!begins_with(pairs[i], name + seq!['=']) || (nonempty && percent_decoded(
            pairs[i].skip(name.len() as int + 1),
        ).len() == 0));
    } else {
        assert(pairs[k].take(name.len() as int + 1) =~= name.push('='));
        assert(pairs[k].skip(name.len() as int + 1) =~= value);
    }
}

/// Where no pair has the name there is no value.
pub proof fn law_absent_parameters_have_no_value(
    pairs: Seq<Seq<char>>,
    name: Seq<char>,
    nonempty: bool,
    i: int,
)
    requires
        0 <= i <= pairs.len(),
        forall|j: int| i <= j < pairs.len() ==> !begins_with(#[trigger] pairs[j], name + seq!['=']),
    ensures
        first_value(pairs, name, nonempty, i) is None,
    decreases pairs.len() - i,
{
    assert(name.push('=') =~= name + seq!['=']);
    if i < pairs.len() {
        assert(!begins_with(pairs[i], name + seq!['=']));
        law_absent_parameters_have_no_value(pairs, name, nonempty, i + 1);
    }
}

/// The token in the header counts before the one in the query.
pub proof fn law_the_header_counts_first(token: Seq<char>, query: Option<Seq<char>>)
    ensures
        token_of(Some("Bearer "@ + token), query) == Some(token),
        token_of(None, None) is None,
        query matches Some(q) ==> token_of(None, query) == first_value(
            split_on(q, '&'),
            "access_token"@,
            true,
            0,
        ),
{
    let s = "Bearer "@ + token;
    let n = "Bearer "@.len() as int;
    assert(s.take(n) =~= "Bearer "@);
    assert(s.skip(n) =~= token);
}

/// Administrators are those who are listed and those whose account says so, and
/// never an appservice.
pub proof fn law_admins_are_listed_or_flagged(
    a: Auth,
    admin_users: Seq<Seq<char>>,
    account_flag: bool,
)
    ensures
        holds_admin(a, admin_users, account_flag) <==> a.appservice is None && (
        admin_users.contains(a.user_id@) || account_flag),
{
}

/// An appservice acts as its own sender unless it names another user; it may act
/// as another only in its namespaces, and only once they are registered.
pub proof fn law_appservices_act_within_their_namespaces(
    sender: Seq<char>,
    other: Seq<char>,
    in_namespace: bool,
    registered: bool,
)
    requires
        other != sender,
        is_user_id(sender),
        is_user_id(other),
    ensures
        asserted_user(sender, None, in_namespace, registered) == Ok::<(Seq<char>, bool), ApiErrorV>(
            (sender, false),
        ),
        asserted_user(sender, Some(sender), in_namespace, registered) == Ok::<
            (Seq<char>, bool),
            ApiErrorV,
        >((sender, false)),
        in_namespace && registered ==> asserted_user(sender, Some(other), in_namespace, registered)
            == Ok::<(Seq<char>, bool), ApiErrorV>((other, true)),
        !in_namespace || !registered ==> (asserted_user(
            sender,
            Some(other),
            in_namespace,
            registered,
        ) matches Err(e) && e.status == 403),
{
}

/// A field of a body is read as what it is to be; anything else is refused.
pub proof fn law_fields_are_read_as_what_they_are(body: JsonV, key: Seq<char>, i: int)
    ensures
        field(body, key) matches Some(JsonV::Str(t)) ==> text_in_body(body, key) == Ok::<
            Option<Seq<char>>,
            ApiErrorV,
        >(Some(t)),
        field(body, key) is None || field(body, key) == Some(JsonV::Null)
            ==> text_in_body(body, key)
            == Ok::<Option<Seq<char>>, ApiErrorV>(None),
        text_in_body(body, key) is Err <==> !(field(body, key) is None || field(body, key) == Some(
            JsonV::Null,
        ) || field(body, key)->0 is Str),
        field(body, key) matches Some(JsonV::Bool(b)) ==> flag_in_body(body, key) == Ok::<
            bool,
            ApiErrorV,
        >(b),
        field(body, key) is None ==> flag_in_body(body, key) == Ok::<bool, ApiErrorV>(false),
        flag_in_body(body, key) is Err <==> field(body, key) is Some
            && !(field(body, key)->0 is Bool),
        field(body, key) is None ==> (users_in_body(body, key) matches Ok(u) && u.len() == 0),
        users_in_body(body, key) is Err <==> field(body, key) is Some
            && !(field(body, key) matches Some(
            JsonV::Array(items),
        ) && forall|k: int|
            0 <= k < items.len() ==> ((#[trigger] items[k]) is Str && is_user_id(
                items[k]->Str_0,
            ))),
        field(body, key) matches Some(JsonV::Array(items))
            ==> (users_in_body(body, key) matches Ok(u)
            ==> u.len() == items.len() && (0 <= i < items.len() ==> items[i] == JsonV::Str(u[i]))),
{
    match field(body, key) {
        Some(JsonV::Array(items)) => {
            if all_user_ids(items) {
                assert forall|k: int| 0 <= k < items.len() implies (#[trigger] items[k]) is Str
                    && is_user_id(items[k]->Str_0) by {}
                if 0 <= i < items.len() {
                    assert(items[i] is Str);
                }
            }
        },
        _ => {},
    }
}

/// A JSON body is text, and an empty one is an empty object; any other body is
/// taken as it is.
pub proof fn law_bodies_are_text(
    is_json: bool,
    bytes: Vec<u8>,
    r: Result<Vec<u8>, ApiError>,
)
    requires
        call_ensures(check_body, (is_json, bytes), r),
    ensures
        !is_json ==> (r matches Ok(b) && b@ == bytes@),
        is_json && !valid_utf8(bytes@) ==> (r matches Err(e) && e@.status == 400),
        is_json && valid_utf8(bytes@) && bytes@.len() > 0 ==> (r matches Ok(b) && b@ == bytes@),
        is_json && bytes@.len() == 0 && r is Ok ==> r->Ok_0@.len() == 2 && r->Ok_0@[0] == 123
            && r->Ok_0@[1]
            == 125,
{
}

/// A body is an object; one that is absent has no fields, and anything else is
/// refused.
pub proof fn law_bodies_are_objects(
    parsed: Option<Result<Json, String>>,
    r: Result<Jb, ApiError>,
)
    requires
        call_ensures(Jb::from_body, (parsed,), r),
    ensures
        parsed is None ==> (r matches Ok(b) && b.0@.len() == 0),
        parsed matches Some(Ok(j)) ==> (j@ is Object ==> (r matches Ok(b)
            && j@ == JsonV::Object(fields_view(b.0@)))),
        parsed matches Some(Ok(j)) ==> (!(j@ is Object) ==> (r matches Err(e) && e@.status == 400)),
        parsed matches Some(Err(_)) ==> (r matches Err(e) && e@.status == 400),
{
}

/// Rate limits hold for all but appservices: one that acts as its own sender is
/// exempt, and one that acts as a user where its registration says so.
pub proof fn law_own_senders_are_not_limited(
    a: &Auth,
    r: bool,
)
    requires
        call_ensures(Auth::rate_limit_exempt, (a,), r),
    ensures
        a.appservice is None ==> !r,
        a.appservice is Some && !a.masquerade ==> r,
        a.appservice is Some && a.masquerade ==> r == !a.appservice->0.rate_limited,
{
}

/// A request without a token, or with one that nobody has, is refused with 401;
/// else it is its owner's.
pub proof fn law_tokens_name_their_owner(
    token: Option<&str>,
    owner: TokenOwner,
    r: Result<Auth, ApiError>,
)
    requires
        call_ensures(user_auth, (token, owner), r),
    ensures
        token is None || owner is Nobody ==> (r matches Err(e) && e@.status == 401),
        token is Some && owner is User ==> (r matches Ok(a) && a.user_id == owner->user_id
            && a.device_id == owner->device_id && a.appservice is None),
{
}

/// An appservice uses the device that it names, where it is the user's; without
/// a name it has one of its own.
pub proof fn law_appservices_name_known_devices(
    user_id: &str,
    param: Option<&str>,
    known: bool,
    sender_localpart: &str,
    r: Result<String, ApiError>,
)
    requires
        call_ensures(assert_device, (user_id, param, known, sender_localpart), r),
    ensures
        param matches Some(d) ==> (known ==> (r matches Ok(s) && s@ == d@)) && (!known
            ==> (r matches Err(e) && e@.status == 400)),
        param is None ==> (r matches Ok(s) && s@ == "appservice_"@ + sender_localpart@),
{
}

/// Nobody is let in as an administrator but an administrator, with a token in
/// the header.
pub proof fn law_admins_come_by_the_header(
    bearer: bool,
    auth: Result<Auth, ApiError>,
    is_admin: bool,
    r: Result<AdminAuth, ApiError>,
)
    requires
        call_ensures(AdminAuth::from_auth, (bearer, auth, is_admin), r),
    ensures
        r is Ok <==> bearer && auth is Ok && is_admin,
        r matches Ok(x) ==> auth is Ok && x.0 == auth->Ok_0,
        !bearer ==> (r matches Err(e) && e@.status == 401),
        bearer && auth is Ok && !is_admin ==> (r matches Err(e) && e@.status == 403),
{
}

} // verus!

//! Single sign-on: the provider picker, the callback's decisions, and which
//! account a verified subject becomes.
use crate::error::{
    forbidden, internal, invalid_param, not_found, user_fault, ApiError, ApiErrorV, UserError,
};
use crate::ids::{check_user_id, is_user_id, user_id_fault};
use crate::percent::{encode, percent_encoded};
use crate::routes::media::pair_texts;
use crate::routes::search::{is_ascii_text, lowercase, to_lowercase};
use crate::text::{ascii_lower, chars_of, has_text, list_has, occurs_in, query_get, query_value, texts};
use vstd::prelude::*;
use vstd::string::StringExecFns;

verus! {

/// What a browser flow is for.
#[derive(Debug)]
pub enum PendingKind {
    Login { client_redirect: String },
    UiaFallback { session_id: String },
}

/// A flow that ends in a login.
pub fn login_kind(redirect_url: &str) -> (r: PendingKind)
    ensures
        r matches PendingKind::Login { client_redirect } && client_redirect@ == redirect_url@,
{
    PendingKind::Login { client_redirect: redirect_url.to_owned() }
}

/// A query parameter that must be there and must not be empty.
pub open spec fn required_param(
    q: Seq<(String, String)>,
    key: Seq<char>,
    message: Seq<char>,
) -> Result<Seq<char>, ApiErrorV> {
    match query_value(q, key) {
        Some(v) => if v.len() > 0 {
            Ok(v)
        } else {
            Err(invalid_param(message))
        },
        None => Err(invalid_param(message)),
    }
}

fn required<'a>(q: &'a Vec<(String, String)>, key: &str, message: &str) -> (r: Result<
    &'a String,
    ApiError,
>)
    ensures
        match required_param(q@, key@, message@) {
            Ok(v) => r matches Ok(s) && s@ == v,
            Err(e) => r matches Err(x) && x@ == e,
        },
{
    match query_get(q, key) {
        Some(v) => if !v.as_str().is_empty() {
            Ok(v)
        } else {
            Err(ApiError::invalid_param(message))
        },
        None => Err(ApiError::invalid_param(message)),
    }
}

/// The URL to send the browser back to.
pub fn client_redirect_param(q: &Vec<(String, String)>) -> (r: Result<&String, ApiError>)
    ensures
        match required_param(q@, "redirectUrl"@, "Missing redirectUrl parameter"@) {
            Ok(v) => r matches Ok(s) && s@ == v,
            Err(e) => r matches Err(x) && x@ == e,
        },
{
    required(q, "redirectUrl", "Missing redirectUrl parameter")
}

/// How a flow begins.
#[derive(Debug)]
pub enum SsoStart {
    /// Send the browser to the provider at this index of the configured list.
    Begin { provider: usize, kind: PendingKind },
    /// Let the user pick: the page's HTML.
    Pick { page: String },
}

/// A configured identity provider, as the picker shows it.
#[derive(Debug)]
pub struct ProviderEntry {
    pub idp_id: String,
    pub name: String,
}

/// Where the provider with an ID stands in the list.
pub open spec fn provider_index(list: Seq<ProviderEntry>, idp_id: Seq<char>, from: int) -> Option<int>
    decreases list.len() - from,
{
    if from < 0 || from >= list.len() {
        None
    } else if list[from].idp_id@ == idp_id {
        Some(from)
    } else {
        provider_index(list, idp_id, from + 1)
    }
}

fn find_provider(list: &Vec<ProviderEntry>, idp_id: &str) -> (r: Option<usize>)
    ensures
        r is Some <==> provider_index(list@, idp_id@, 0) is Some,
        r matches Some(i) ==> i < list.len() && provider_index(list@, idp_id@, 0) == Some(i as int),
{
    let mut i: usize = 0;
    while i < list.len()
        invariant
            i <= list.len(),
            provider_index(list@, idp_id@, 0) == provider_index(list@, idp_id@, i as int),
        decreases list.len() - i,
    {
        if crate::text::same_text(list[i].idp_id.as_str(), idp_id) {
            return Some(i);
        }
        i += 1;
    }
    None
}

/// `GET /login/sso/redirect` — no provider named: with one configured, use it;
/// with several, a minimal picker page.
pub fn sso_redirect(q: &Vec<(String, String)>, providers: &Vec<ProviderEntry>) -> (r: Result<
    SsoStart,
    ApiError,
>)
    ensures
        match required_param(q@, "redirectUrl"@, "Missing redirectUrl parameter"@) {
            Err(e) => r matches Err(x) && x@ == e,
            Ok(url) => if providers@.len() == 0 {
                r matches Err(x) && x@ == not_found("SSO is not configured"@)
            } else if providers@.len() == 1 {
                r matches Ok(SsoStart::Begin {
                    provider,
                    kind: PendingKind::Login { client_redirect },
                }) && provider == 0 && client_redirect@ == url
            } else {
                r matches Ok(SsoStart::Pick { page }) && page@ == picker_html(
                    providers@,
                    "/login/sso/redirect"@,
                    seq![("redirectUrl"@, url)],
                )
            },
        },
{
    let url = match client_redirect_param(q) {
        Ok(u) => u,
        Err(e) => {
            return Err(e);
        },
    };
    if providers.len() == 0 {
        return Err(ApiError::not_found("SSO is not configured"));
    }
    if providers.len() == 1 {
        return Ok(SsoStart::Begin { provider: 0, kind: login_kind(url.as_str()) });
    }
    let mut params: Vec<(String, String)> = Vec::new();
    params.push(("redirectUrl".to_owned(), url.as_str().to_owned()));
    proof {
        assert(pair_texts(params@) =~= seq![("redirectUrl"@, url@)]);
    }
    Ok(SsoStart::Pick { page: picker_page(providers, "/login/sso/redirect", &params) })
}

/// `GET /login/sso/redirect/{idp_id}` — the client chose.
pub fn sso_redirect_idp(
    q: &Vec<(String, String)>,
    idp_id: &str,
    providers: &Vec<ProviderEntry>,
) -> (r: Result<SsoStart, ApiError>)
    ensures
        match required_param(q@, "redirectUrl"@, "Missing redirectUrl parameter"@) {
            Err(e) => r matches Err(x) && x@ == e,
            Ok(url) => match provider_index(providers@, idp_id@, 0) {
                Some(i) => r matches Ok(SsoStart::Begin {
                    provider,
                    kind: PendingKind::Login { client_redirect },
                }) && provider == i && client_redirect@ == url,
                None => r matches Err(x) && x@ == not_found("Unknown identity provider"@),
            },
        },
{
    let url = match client_redirect_param(q) {
        Ok(u) => u,
        Err(e) => {
            return Err(e);
        },
    };
    match find_provider(providers, idp_id) {
        Some(provider) => Ok(SsoStart::Begin { provider, kind: login_kind(url.as_str()) }),
        None => Err(ApiError::not_found("Unknown identity provider")),
    }
}

/// `GET /auth/m.login.sso/fallback/web?session=…` — the UIA fallback: a
/// browser page that, once SSO succeeds, lets the client re-submit its
/// original request with this session.
pub fn sso_fallback_web(q: &Vec<(String, String)>, providers: &Vec<ProviderEntry>) -> (r: Result<
    SsoStart,
    ApiError,
>)
    ensures
        match required_param(q@, "session"@, "Missing session parameter"@) {
            Err(e) => r matches Err(x) && x@ == e,
            Ok(session) => match query_value(q@, "idp"@) {
                Some(idp) => match provider_index(providers@, idp, 0) {
                    Some(i) => r matches Ok(SsoStart::Begin {
                        provider,
                        kind: PendingKind::UiaFallback { session_id },
                    }) && provider == i && session_id@ == session,
                    None => r matches Err(x) && x@ == not_found("Unknown identity provider"@),
                },
                None => if providers@.len() == 0 {
                    r matches Err(x) && x@ == not_found("SSO is not configured"@)
                } else if providers@.len() == 1 {
                    r matches Ok(SsoStart::Begin {
                        provider,
                        kind: PendingKind::UiaFallback { session_id },
                    }) && provider == 0 && session_id@ == session
                } else {
                    r matches Ok(SsoStart::Pick { page }) && page@ == picker_html(
                        providers@,
                        "/auth/m.login.sso/fallback/web"@,
                        seq![("session"@, session)],
                    )
                },
            },
        },
{
    let session = match required(q, "session", "Missing session parameter") {
        Ok(s) => s,
        Err(e) => {
            return Err(e);
        },
    };
    let kind = PendingKind::UiaFallback { session_id: session.as_str().to_owned() };
    match query_get(q, "idp") {
        Some(idp_id) => {
            return match find_provider(providers, idp_id.as_str()) {
                Some(provider) => Ok(SsoStart::Begin { provider, kind }),
                None => Err(ApiError::not_found("Unknown identity provider")),
            };
        },
        None => {},
    }
    if providers.len() == 0 {
        return Err(ApiError::not_found("SSO is not configured"));
    }
    if providers.len() == 1 {
        return Ok(SsoStart::Begin { provider: 0, kind });
    }
    let mut params: Vec<(String, String)> = Vec::new();
    params.push(("session".to_owned(), session.as_str().to_owned()));
    proof {
        assert(pair_texts(params@) =~= seq![("session"@, session@)]);
    }
    Ok(SsoStart::Pick { page: picker_page(providers, "/auth/m.login.sso/fallback/web", &params) })
}

/// The code that the identity provider's callback carries, where the flow may
/// go on: the flow must be one that was started here and is still open, the
/// provider must not have refused, and a code must be there.
pub fn callback_code(
    q: &Vec<(String, String)>,
    sso_configured: bool,
    flow_pending: bool,
    provider_known: bool,
) -> (r: Result<String, ApiError>)
    ensures
        match callback_outcome(q@, sso_configured, flow_pending, provider_known) {
            Ok(code) => r matches Ok(c) && c@ == code,
            Err(e) => r matches Err(x) && x@ == e,
        },
{
    if !sso_configured {
        return Err(ApiError::not_found("SSO is not configured"));
    }
    if !flow_pending {
        return Err(ApiError::forbidden("Unknown or expired SSO attempt; start again"));
    }
    match query_get(q, "error") {
        Some(error) => {
            let mut message = "Identity provider refused: ".to_owned();
            message.append(error.as_str());
            message.push(' ');
            match query_get(q, "error_description") {
                Some(d) => {
                    message.append(d.as_str());
                    proof {
                        assert(message@ =~= refusal_text(error@, d@));
                    }
                },
                None => {
                    proof {
                        assert(message@ =~= refusal_text(error@, Seq::empty()));
                    }
                },
            }
            return Err(ApiError::forbidden(message.as_str()));
        },
        None => {},
    }
    match query_get(q, "code") {
        Some(code) => if provider_known {
            Ok(code.as_str().to_owned())
        } else {
            Err(ApiError::internal("provider vanished mid-flow"))
        },
        None => Err(ApiError::invalid_param("Missing code parameter")),
    }
}

pub open spec fn refusal_text(error: Seq<char>, description: Seq<char>) -> Seq<char> {
    ("Identity provider refused: "@ + error).push(' ') + description
}

pub open spec fn callback_outcome(
    q: Seq<(String, String)>,
    sso_configured: bool,
    flow_pending: bool,
    provider_known: bool,
) -> Result<Seq<char>, ApiErrorV> {
    if !sso_configured {
        Err(not_found("SSO is not configured"@))
    } else if !flow_pending {
        Err(forbidden("Unknown or expired SSO attempt; start again"@))
    } else {
        match (query_value(q, "error"@), query_value(q, "code"@)) {
            (Some(error), _) => Err(
                forbidden(
                    refusal_text(
                        error,
                        match query_value(q, "error_description"@) {
                            Some(d) => d,
                            None => Seq::empty(),
                        },
                    ),
                ),
            ),
            (None, Some(code)) => if provider_known {
                Ok(code)
            } else {
                Err(internal("provider vanished mid-flow"@))
            },
            (None, None) => Err(invalid_param("Missing code parameter"@)),
        }
    }
}

/// The URL `url` with the query pair `key=value` added, or how the URL parser
/// words what is wrong with `url`.
pub uninterp spec fn url_with_pair(
    url: Seq<char>,
    key: Seq<char>,
    value: Seq<char>,
) -> Result<Seq<char>, Seq<char>>;

/// `reqwest::Url::parse`, then `query_pairs_mut().append_pair`: the parsed URL
/// written out with one more query pair, or the parser's error. What URL
/// parsing normalises, and how the pair is encoded, is named and not stated.
#[verifier::external_body]
fn append_query_pair(url: &str, key: &str, value: &str) -> (r: Result<String, String>)
    ensures
        match r {
            Ok(u) => url_with_pair(url@, key@, value@) == Ok::<Seq<char>, Seq<char>>(u@),
            Err(e) => url_with_pair(url@, key@, value@) == Err::<Seq<char>, Seq<char>>(e@),
        },
{
    let mut u = reqwest::Url::parse(url).map_err(|e| e.to_string())?;
    u.query_pairs_mut().append_pair(key, value);
    Ok(u.into())
}

/// Where the browser goes after a login: the client's URL with the login
/// token.
pub fn login_redirect(client_redirect: &str, token: &str) -> (r: Result<String, ApiError>)
    ensures
        match url_with_pair(client_redirect@, "loginToken"@, token@) {
            Ok(u) => r matches Ok(s) && s@ == u,
            Err(t) => r matches Err(e) && e@ == invalid_param("redirectUrl: "@ + t),
        },
{
    match append_query_pair(client_redirect, "loginToken", token) {
        Ok(u) => Ok(u),
        Err(t) => {
            let mut message = "redirectUrl: ".to_owned();
            message.append(t.as_str());
            Err(ApiError::invalid_param(message.as_str()))
        },
    }
}

// -- which account a subject becomes ------------------------------------------

/// What the policy needs to know of a provider.
#[derive(Debug)]
pub struct ProviderPolicy {
    /// The provider's key in the identity link table.
    pub key: String,
    pub localpart_claim: String,
    pub enable_registration: bool,
    pub allow_existing_users: bool,
}

/// The identity that a provider vouched for.
#[derive(Debug)]
pub struct VerifiedIdentity {
    pub subject: String,
    pub localpart: Option<String>,
    pub display_name: Option<String>,
}

/// What to do next on the way from a subject to an account.
#[derive(Debug)]
pub enum MapStep {
    /// Look the subject up in the identity link table.
    FindOwner,
    /// Look the derived account up.
    FindAccount { user_id: String, localpart: String },
    /// Create the account, without a password.
    Register { user_id: String, localpart: String },
    /// Set the display name if there is one, then link the new account.
    LinkNew { user_id: String },
    /// Look up at which providers the account is linked.
    FindLinks { user_id: String },
    /// Link the existing account.
    LinkExisting { user_id: String },
    /// The answer.
    Done(Result<String, ApiError>),
}

/// What came of a step.
#[derive(Debug)]
pub enum MapEvent {
    /// The owner in the link table.
    Owner(Option<String>),
    /// Whether the account exists.
    Account(bool),
    Registered,
    /// Another account took the name first.
    NameTaken,
    /// The keys of the providers at which the account is linked.
    Links(Vec<String>),
    Linked,
    /// The subject is linked to another account.
    SubjectInUse,
    /// The step failed.
    Failed(ApiError),
}

/// `MapStep` as a value.
pub enum MapStepV {
    FindOwner,
    FindAccount { user_id: Seq<char>, localpart: Seq<char> },
    Register { user_id: Seq<char>, localpart: Seq<char> },
    LinkNew { user_id: Seq<char> },
    FindLinks { user_id: Seq<char> },
    LinkExisting { user_id: Seq<char> },
    Done(Result<Seq<char>, ApiErrorV>),
}

impl View for MapStep {
    type V = MapStepV;

    open spec fn view(&self) -> MapStepV {
        match self {
            MapStep::FindOwner => MapStepV::FindOwner,
            MapStep::FindAccount { user_id, localpart } => MapStepV::FindAccount {
                user_id: user_id@,
                localpart: localpart@,
            },
            MapStep::Register { user_id, localpart } => MapStepV::Register {
                user_id: user_id@,
                localpart: localpart@,
            },
            MapStep::LinkNew { user_id } => MapStepV::LinkNew { user_id: user_id@ },
            MapStep::FindLinks { user_id } => MapStepV::FindLinks { user_id: user_id@ },
            MapStep::LinkExisting { user_id } => MapStepV::LinkExisting { user_id: user_id@ },
            MapStep::Done(r) => MapStepV::Done(
                match r {
                    Ok(u) => Ok(u@),
                    Err(e) => Err(e@),
                },
            ),
        }
    }
}

/// `MapEvent` as a value.
pub enum MapEventV {
    Owner(Option<Seq<char>>),
    Account(bool),
    Registered,
    NameTaken,
    Links(Seq<Seq<char>>),
    Linked,
    SubjectInUse,
    Failed(ApiErrorV),
}

impl View for MapEvent {
    type V = MapEventV;

    open spec fn view(&self) -> MapEventV {
        match self {
            MapEvent::Owner(o) => MapEventV::Owner(crate::text::opt_text(*o)),
            MapEvent::Account(b) => MapEventV::Account(*b),
            MapEvent::Registered => MapEventV::Registered,
            MapEvent::NameTaken => MapEventV::NameTaken,
            MapEvent::Links(v) => MapEventV::Links(texts(v@)),
            MapEvent::Linked => MapEventV::Linked,
            MapEvent::SubjectInUse => MapEventV::SubjectInUse,
            MapEvent::Failed(e) => MapEventV::Failed(e@),
        }
    }
}

/// `@localpart:server`.
pub open spec fn user_id_text(localpart: Seq<char>, server: Seq<char>) -> Seq<char> {
    seq!['@'] + localpart.push(':') + server
}

/// The step behind the link table's answer that no account is linked: derive a
/// username from the provider's claim.
pub open spec fn derive_step(
    policy: ProviderPolicy,
    claim: Option<Seq<char>>,
    server: Seq<char>,
) -> MapStepV {
    let local = match claim {
        Some(c) => sanitized(c),
        None => Seq::empty(),
    };
    let user_id = user_id_text(local, server);
    if local.len() == 0 {
        MapStepV::Done(
            Err(
                forbidden(
                    "No usable "@ + policy.localpart_claim@ + " claim to derive a username from"@,
                ),
            ),
        )
    } else if !is_user_id(user_id) {
        MapStepV::Done(
            Err(forbidden("Derived username is invalid: "@ + user_id_fault(user_id))),
        )
    } else {
        MapStepV::FindAccount { user_id, localpart: local }
    }
}

/// The step behind the finding that the account exists and is not linked by
/// the table.
pub open spec fn claim_step(policy: ProviderPolicy, user_id: Seq<char>) -> MapStepV {
    if policy.allow_existing_users {
        MapStepV::FindLinks { user_id }
    } else {
        MapStepV::Done(Err(forbidden(NOT_LINKED@)))
    }
}

/// The next step. An event that does not answer the step changes nothing.
pub open spec fn map_next(
    step: MapStepV,
    event: MapEventV,
    policy: ProviderPolicy,
    claim: Option<Seq<char>>,
    server: Seq<char>,
) -> MapStepV {
    match (step, event) {
        (MapStepV::Done(_), _) => step,
        (_, MapEventV::Failed(e)) => MapStepV::Done(Err(e)),
        (MapStepV::FindOwner, MapEventV::Owner(Some(owner))) => MapStepV::Done(
            if is_user_id(owner) {
                Ok(owner)
            } else {
                Err(internal(user_id_fault(owner)))
            },
        ),
        (MapStepV::FindOwner, MapEventV::Owner(None)) => derive_step(policy, claim, server),
        (MapStepV::FindAccount { user_id, localpart }, MapEventV::Account(exists)) => if exists {
            claim_step(policy, user_id)
        } else if policy.enable_registration {
            MapStepV::Register { user_id, localpart }
        } else {
            MapStepV::Done(Err(forbidden(NO_ACCOUNT@)))
        },
        (MapStepV::Register { user_id, localpart }, MapEventV::Registered) => MapStepV::LinkNew {
            user_id,
        },
        (MapStepV::Register { user_id, localpart }, MapEventV::NameTaken) => claim_step(
            policy,
            user_id,
        ),
        (MapStepV::LinkNew { user_id }, MapEventV::Linked) => MapStepV::Done(Ok(user_id)),
        (MapStepV::FindLinks { user_id }, MapEventV::Links(keys)) => if keys.contains(policy.key@) {
            MapStepV::Done(
                Err(
                    forbidden("That account is linked to a different identity at this provider"@),
                ),
            )
        } else {
            MapStepV::LinkExisting { user_id }
        },
        (MapStepV::LinkExisting { user_id }, MapEventV::Linked) => MapStepV::Done(Ok(user_id)),
        (MapStepV::LinkExisting { user_id }, MapEventV::SubjectInUse) => MapStepV::Done(
            Err(forbidden("This identity is already linked to a different account"@)),
        ),
        _ => step,
    }
}

pub const NOT_LINKED: &'static str = "An account with this name exists but is not linked to this identity; pre-link it via the admin API or enable allow_existing_users";

pub const NO_ACCOUNT: &'static str = "No account for this identity, and this provider may not create one";

fn user_id_for(localpart: &str, server: &str) -> (r: String)
    ensures
        r@ == user_id_text(localpart@, server@),
{
    let mut out = String::new();
    out.push('@');
    out.append(localpart);
    out.push(':');
    out.append(server);
    proof {
        assert(out@ =~= user_id_text(localpart@, server@));
    }
    out
}

fn derive(policy: &ProviderPolicy, identity: &VerifiedIdentity, server_name: &str) -> (r: MapStep)
    ensures
        r@ == derive_step(*policy, crate::text::opt_text(identity.localpart), server_name@),
{
    let localpart = match &identity.localpart {
        Some(c) => sanitize_localpart(c.as_str()),
        None => String::new(),
    };
    if localpart.as_str().is_empty() {
        let mut message = "No usable ".to_owned();
        message.append(policy.localpart_claim.as_str());
        message.append(" claim to derive a username from");
        return MapStep::Done(Err(ApiError::forbidden(message.as_str())));
    }
    let user_id = user_id_for(localpart.as_str(), server_name);
    match check_user_id(user_id.as_str()) {
        Ok(()) => MapStep::FindAccount { user_id, localpart },
        Err(t) => {
            let mut message = "Derived username is invalid: ".to_owned();
            message.append(t.as_str());
            MapStep::Done(Err(ApiError::forbidden(message.as_str())))
        },
    }
}

fn claim(policy: &ProviderPolicy, user_id: String) -> (r: MapStep)
    ensures
        r@ == claim_step(*policy, user_id@),
{
    if policy.allow_existing_users {
        MapStep::FindLinks { user_id }
    } else {
        MapStep::Done(Err(ApiError::forbidden(NOT_LINKED)))
    }
}

/// The account a provider-verified subject logs in as. In order: the identity
/// link table decides; failing that, `allow_existing_users` may claim a
/// matching unlinked account; failing that, `enable_registration` may create
/// one. Both fallbacks write the link, so they run once per account, ever.
pub fn map_subject(
    step: MapStep,
    event: MapEvent,
    policy: &ProviderPolicy,
    identity: &VerifiedIdentity,
    server_name: &str,
) -> (r: MapStep)
    ensures
        r@ == map_next(
            step@,
            event@,
            *policy,
            crate::text::opt_text(identity.localpart),
            server_name@,
        ),
{
    match (step, event) {
        (MapStep::Done(x), _) => MapStep::Done(x),
        (_, MapEvent::Failed(e)) => MapStep::Done(Err(e)),
        (MapStep::FindOwner, MapEvent::Owner(Some(owner))) => match check_user_id(owner.as_str()) {
            Ok(()) => MapStep::Done(Ok(owner)),
            Err(t) => MapStep::Done(Err(ApiError::internal(t.as_str()))),
        },
        (MapStep::FindOwner, MapEvent::Owner(None)) => derive(policy, identity, server_name),
        (MapStep::FindAccount { user_id, localpart }, MapEvent::Account(exists)) => if exists {
            claim(policy, user_id)
        } else if policy.enable_registration {
            MapStep::Register { user_id, localpart }
        } else {
            MapStep::Done(Err(ApiError::forbidden(NO_ACCOUNT)))
        },
        (MapStep::Register { user_id, localpart }, MapEvent::Registered) => MapStep::LinkNew {
            user_id,
        },
        (MapStep::Register { user_id, localpart }, MapEvent::NameTaken) => claim(policy, user_id),
        (MapStep::LinkNew { user_id }, MapEvent::Linked) => MapStep::Done(Ok(user_id)),
        (MapStep::FindLinks { user_id }, MapEvent::Links(keys)) => if list_has(
            &keys,
            policy.key.as_str(),
        ) {
            MapStep::Done(
                Err(
                    ApiError::forbidden(
                        "That account is linked to a different identity at this provider",
                    ),
                ),
            )
        } else {
            MapStep::LinkExisting { user_id }
        },
        (MapStep::LinkExisting { user_id }, MapEvent::Linked) => MapStep::Done(Ok(user_id)),
        (MapStep::LinkExisting { user_id }, MapEvent::SubjectInUse) => MapStep::Done(
            Err(ApiError::forbidden("This identity is already linked to a different account")),
        ),
        (s, _) => s,
    }
}

/// Where a run of events leads.
pub open spec fn map_run(
    events: Seq<MapEventV>,
    policy: ProviderPolicy,
    claim: Option<Seq<char>>,
    server: Seq<char>,
) -> MapStepV
    decreases events.len(),
{
    if events.len() == 0 {
        MapStepV::FindOwner
    } else {
        map_next(
            map_run(events.drop_last(), policy, claim, server),
            events.last(),
            policy,
            claim,
            server,
        )
    }
}

/// A login succeeds only for the owner that the link table names, or after a
/// link was written.
pub proof fn law_login_needs_a_link(
    events: Seq<MapEventV>,
    policy: ProviderPolicy,
    claim: Option<Seq<char>>,
    server: Seq<char>,
)
    ensures
        map_run(events, policy, claim, server) matches MapStepV::Done(Ok(user_id)) ==> {
            ||| events.contains(MapEventV::Owner(Some(user_id)))
            ||| events.contains(MapEventV::Linked)
        },
    decreases events.len(),
{
    if events.len() > 0 {
        let init = events.drop_last();
        law_login_needs_a_link(init, policy, claim, server);
        assert(events.contains(events[events.len() - 1]));
        assert forall|e: MapEventV| init.contains(e) implies events.contains(e) by {
            let i = choose|i: int| 0 <= i < init.len() && init[i] == e;
            assert(events[i] == e);
        }
    }
}

/// An existing account is only ever claimed where the provider may do so and
/// the account was found unlinked at this provider; an account is only ever
/// created where the provider may do so.
pub proof fn law_claims_and_registrations_are_allowed(
    events: Seq<MapEventV>,
    policy: ProviderPolicy,
    claim: Option<Seq<char>>,
    server: Seq<char>,
)
    ensures
        map_run(events, policy, claim, server) is LinkExisting ==> policy.allow_existing_users
            && exists|keys: Seq<Seq<char>>| #[trigger]
            events.contains(MapEventV::Links(keys)) && !keys.contains(policy.key@),
        map_run(events, policy, claim, server) is FindLinks ==> policy.allow_existing_users,
        map_run(events, policy, claim, server) is Register ==> policy.enable_registration,
        map_run(events, policy, claim, server) is LinkNew ==> policy.enable_registration,
    decreases events.len(),
{
    if events.len() > 0 {
        let init = events.drop_last();
        law_claims_and_registrations_are_allowed(init, policy, claim, server);
        let last = events[events.len() - 1];
        assert(events.contains(last));
        assert forall|e: MapEventV| init.contains(e) implies events.contains(e) by {
            let i = choose|i: int| 0 <= i < init.len() && init[i] == e;
            assert(events[i] == e);
        }
        let before = map_run(init, policy, claim, server);
        if map_run(events, policy, claim, server) is LinkExisting {
            if before is LinkExisting {
                let keys = choose|keys: Seq<Seq<char>>| #[trigger]
                    init.contains(MapEventV::Links(keys)) && !keys.contains(policy.key@);
                assert(events.contains(MapEventV::Links(keys)));
            } else {
                assert(last is Links);
                let keys = last->Links_0;
                assert(last == MapEventV::Links(keys));
            }
        }
    }
}

// -- text ---------------------------------------------------------------------

/// A character that a new localpart may hold.
pub open spec fn localpart_char(c: char) -> bool {
    ||| 'a' <= c <= 'z'
    ||| '0' <= c <= '9'
    ||| c == '.'
    ||| c == '_'
    ||| c == '='
    ||| c == '/'
    ||| c == '-'
}

/// The localpart that a claim becomes.
pub open spec fn sanitized(raw: Seq<char>) -> Seq<char> {
    lowercase(raw).filter(|c: char| localpart_char(c))
}

/// New names are strict (`[a-z0-9._=/-]`): lowercase what can be, drop what
/// cannot.
pub fn sanitize_localpart(raw: &str) -> (r: String)
    ensures
        r@ == sanitized(raw@),
        forall|i: int| 0 <= i < r@.len() ==> localpart_char(#[trigger] r@[i]),
{
    let low = to_lowercase(raw);
    let chars = chars_of(low.as_str());
    let mut out = String::new();
    let mut i: usize = 0;
    let ghost keep = |c: char| localpart_char(c);
    proof {
        assert(chars@.take(0).filter(keep) =~= Seq::<char>::empty()) by {
            reveal(Seq::filter);
        }
    }
    while i < chars.len()
        invariant
            i <= chars.len(),
            keep == (|c: char| localpart_char(c)),
            out@ == chars@.take(i as int).filter(keep),
            forall|j: int| 0 <= j < out@.len() ==> localpart_char(#[trigger] out@[j]),
        decreases chars.len() - i,
    {
        let c = chars[i];
        proof {
            assert(chars@.take(i + 1).drop_last() =~= chars@.take(i as int));
            assert(chars@.take(i + 1).last() == c);
            reveal(Seq::filter);
        }
        if ('a' <= c && c <= 'z') || ('0' <= c && c <= '9') || c == '.' || c == '_' || c == '='
            || c == '/' || c == '-' {
            out.push(c);
        }
        i += 1;
    }
    proof {
        assert(chars@.take(chars@.len() as int) =~= chars@);
    }
    out
}

/// A new name stays as it is when it is made strict once more.
pub proof fn law_strict_names_stay(raw: Seq<char>)
    ensures
        sanitized(sanitized(raw)) == sanitized(raw),
{
    let keep = |c: char| localpart_char(c);
    let s = sanitized(raw);
    assert forall|i: int| 0 <= i < s.len() implies localpart_char(#[trigger] s[i]) by {
        lowercase(raw).lemma_filter_pred(keep, i);
    }
    assert(is_ascii_text(s));
    assert(ascii_lower(s) =~= s);
    lemma_filter_all(s, keep);
}

proof fn lemma_filter_all(s: Seq<char>, keep: spec_fn(char) -> bool)
    requires
        forall|i: int| 0 <= i < s.len() ==> keep(#[trigger] s[i]),
    ensures
        s.filter(keep) == s,
    decreases s.len(),
{
    reveal(Seq::filter);
    if s.len() > 0 {
        let init = s.drop_last();
        assert forall|i: int| 0 <= i < init.len() implies keep(#[trigger] init[i]) by {
            assert(init[i] == s[i]);
        }
        lemma_filter_all(init, keep);
        assert(keep(s[s.len() - 1]));
        assert(init.push(s.last()) =~= s);
    } else {
        assert(s.filter(keep) =~= s);
    }
}

/// Of an ASCII claim the letters are put in lower case, what a name cannot hold is
/// dropped, and the rest keeps its order.
pub proof fn law_ascii_claims_are_lowered(raw: Seq<char>)
    requires
        is_ascii_text(raw),
    ensures
        sanitized(raw) == ascii_lower(raw).filter(|c: char| localpart_char(c)),
{
}

/// How one character is written in HTML text.
pub open spec fn html_char(c: char) -> Seq<char> {
    if c == '&' {
        "&amp;"@
    } else if c == '<' {
        "&lt;"@
    } else if c == '>' {
        "&gt;"@
    } else if c == '"' {
        "&quot;"@
    } else if c == '\'' {
        "&#39;"@
    } else {
        seq![c]
    }
}

/// A text as HTML.
pub open spec fn html_text(s: Seq<char>) -> Seq<char>
    decreases s.len(),
{
    if s.len() == 0 {
        Seq::empty()
    } else {
        html_text(s.drop_last()) + html_char(s.last())
    }
}

/// A character that could end a text or an attribute in HTML.
pub open spec fn html_special(c: char) -> bool {
    c == '<' || c == '>' || c == '"' || c == '\''
}

/// Escaped text holds no character that could open a tag or end an attribute.
pub proof fn law_escaped_text_is_inert(s: Seq<char>)
    ensures
        forall|i: int| 0 <= i < html_text(s).len() ==> !html_special(#[trigger] html_text(s)[i]),
    decreases s.len(),
{
    if s.len() > 0 {
        law_escaped_text_is_inert(s.drop_last());
        reveal_strlit("&amp;");
        reveal_strlit("&lt;");
        reveal_strlit("&gt;");
        reveal_strlit("&quot;");
        reveal_strlit("&#39;");
        let a = html_text(s.drop_last());
        let b = html_char(s.last());
        assert forall|i: int| 0 <= i < b.len() implies !html_special(#[trigger] b[i]) by {}
        assert forall|i: int| 0 <= i < (a + b).len() implies !html_special(#[trigger] (a + b)[i]) by {
            if i < a.len() {
                assert((a + b)[i] == a[i]);
            } else {
                assert((a + b)[i] == b[i - a.len()]);
            }
        }
    }
}

/// Escapes a text for HTML.
pub fn escape_html(s: &str) -> (r: String)
    ensures
        r@ == html_text(s@),
{
    let chars = chars_of(s);
    let mut out = String::new();
    let mut i: usize = 0;
    while i < chars.len()
        invariant
            i <= chars.len(),
            out@ == html_text(chars@.take(i as int)),
        decreases chars.len() - i,
    {
        let c = chars[i];
        proof {
            assert(chars@.take(i + 1).drop_last() =~= chars@.take(i as int));
            assert(chars@.take(i + 1).last() == c);
            assert(out@ + seq![c] =~= out@.push(c));
        }
        if c == '&' {
            out.append("&amp;");
        } else if c == '<' {
            out.append("&lt;");
        } else if c == '>' {
            out.append("&gt;");
        } else if c == '"' {
            out.append("&quot;");
        } else if c == '\'' {
            out.append("&#39;");
        } else {
            out.push(c);
        }
        i += 1;
    }
    proof {
        assert(chars@.take(chars@.len() as int) =~= chars@);
    }
    out
}

/// Percent-encodes a query value.
pub fn urlencode(s: &str) -> (r: String)
    ensures
        r@ == percent_encoded(s@),
{
    encode(s)
}

/// The query that carries `params`, where `more` says that one is open.
pub open spec fn link_query(params: Seq<(Seq<char>, Seq<char>)>, more: bool) -> Seq<char>
    decreases params.len(),
{
    if params.len() == 0 {
        Seq::empty()
    } else {
        let sep = if more || params.len() > 1 {
            '&'
        } else {
            '?'
        };
        link_query(params.drop_last(), more).push(sep) + params.last().0.push('=')
            + percent_encoded(params.last().1)
    }
}

/// The link that picks a provider. The fallback path has no provider segment:
/// it takes `idp` as a query parameter instead.
pub open spec fn picker_link(
    base: Seq<char>,
    idp_id: Seq<char>,
    params: Seq<(Seq<char>, Seq<char>)>,
) -> Seq<char> {
    if occurs_in("fallback"@, base) {
        base + "?idp="@ + percent_encoded(idp_id) + link_query(params, true)
    } else {
        base + "/"@ + percent_encoded(idp_id) + link_query(params, false)
    }
}

/// The list items of the picker page.
pub open spec fn picker_items(
    providers: Seq<ProviderEntry>,
    base: Seq<char>,
    params: Seq<(Seq<char>, Seq<char>)>,
) -> Seq<char>
    decreases providers.len(),
{
    if providers.len() == 0 {
        Seq::empty()
    } else {
        let p = providers.last();
        picker_items(providers.drop_last(), base, params) + "<li><a href=\""@ + html_text(
            picker_link(base, p.idp_id@, params),
        ) + "\">"@ + html_text(p.name@) + "</a></li>\n"@
    }
}

pub const PICKER_HEAD: &'static str = "<!DOCTYPE html><html><head><title>Sign in</title></head><body><h1>Sign in with</h1><ul>";

pub const PICKER_TAIL: &'static str = "</ul></body></html>";

/// The picker page.
pub open spec fn picker_html(
    providers: Seq<ProviderEntry>,
    base: Seq<char>,
    params: Seq<(Seq<char>, Seq<char>)>,
) -> Seq<char> {
    PICKER_HEAD@ + picker_items(providers, base, params) + PICKER_TAIL@
}

fn link_to(base_path: &str, idp_id: &str, params: &Vec<(String, String)>) -> (r: String)
    ensures
        r@ == picker_link(base_path@, idp_id@, pair_texts(params@)),
{
    let mut href = base_path.to_owned();
    let more = has_text(base_path, "fallback");
    if more {
        href.append("?idp=");
    } else {
        href.append("/");
    }
    href.append(urlencode(idp_id).as_str());
    let ghost head = href@;
    let ghost all = pair_texts(params@);
    let mut i: usize = 0;
    proof {
        assert(head + link_query(all.take(0), more) =~= head);
    }
    while i < params.len()
        invariant
            i <= params.len(),
            all == pair_texts(params@),
            href@ == head + link_query(all.take(i as int), more),
        decreases params.len() - i,
    {
        let ghost before = href@;
        let sep = if more || i > 0 {
            '&'
        } else {
            '?'
        };
        href.push(sep);
        href.append(params[i].0.as_str());
        href.push('=');
        href.append(urlencode(params[i].1.as_str()).as_str());
        proof {
            assert(all.take(i + 1).drop_last() =~= all.take(i as int));
            assert(all.take(i + 1).last() == all[i as int]);
            assert(href@ =~= head + link_query(all.take(i + 1), more));
        }
        i += 1;
    }
    proof {
        assert(all.take(all.len() as int) =~= all);
    }
    href
}

/// A minimal page on which the user picks a provider.
pub fn picker_page(
    providers: &Vec<ProviderEntry>,
    base_path: &str,
    params: &Vec<(String, String)>,
) -> (r: String)
    ensures
        r@ == picker_html(providers@, base_path@, pair_texts(params@)),
{
    let mut page = PICKER_HEAD.to_owned();
    let ghost all = pair_texts(params@);
    let mut i: usize = 0;
    proof {
        assert(page@ =~= PICKER_HEAD@ + picker_items(providers@.take(0), base_path@, all));
    }
    while i < providers.len()
        invariant
            i <= providers.len(),
            all == pair_texts(params@),
            page@ == PICKER_HEAD@ + picker_items(providers@.take(i as int), base_path@, all),
        decreases providers.len() - i,
    {
        let href = link_to(base_path, providers[i].idp_id.as_str(), params);
        page.append("<li><a href=\"");
        page.append(escape_html(href.as_str()).as_str());
        page.append("\">");
        page.append(escape_html(providers[i].name.as_str()).as_str());
        page.append("</a></li>\n");
        proof {
            assert(providers@.take(i + 1).drop_last() =~= providers@.take(i as int));
            assert(page@ =~= PICKER_HEAD@ + picker_items(providers@.take(i + 1), base_path@, all));
        }
        i += 1;
    }
    proof {
        assert(providers@.take(providers@.len() as int) =~= providers@);
    }
    page.append(PICKER_TAIL);
    page
}

/// Re-authentication proves an existing identity: only a linked account will do.
pub fn uia_owner(owner: Option<String>) -> (r: Result<String, ApiError>)
    ensures
        match owner {
            Some(o) => r matches Ok(s) && s@ == o@,
            None => r matches Err(e) && e@ == forbidden(
                "This identity is not linked to any account here"@,
            ),
        },
{
    match owner {
        Some(o) => Ok(o),
        None => Err(ApiError::forbidden("This identity is not linked to any account here")),
    }
}

/// A login token is refused to an account that is gone or may not log in, and
/// the answer does not say which.
pub fn login_token_fault(e: UserError, text: &str) -> (r: ApiError)
    ensures
        r@ == (if e == UserError::NotFound || e == UserError::InvalidState {
            forbidden("This identity may not log in"@)
        } else {
            user_fault(e, text@)
        }),
{
    match e {
        UserError::NotFound => ApiError::forbidden("This identity may not log in"),
        UserError::InvalidState => ApiError::forbidden("This identity may not log in"),
        _ => ApiError::from_user_error(e, text),
    }
}

// -- what signing in comes to ---------------------------------------------------------

/// An identity that is linked logs its account in: nothing else is asked.
pub proof fn law_linked_identities_log_in(
    policy: ProviderPolicy,
    claim: Option<Seq<char>>,
    server: Seq<char>,
    owner: Seq<char>,
)
    requires
        is_user_id(owner),
    ensures
        map_run(seq![MapEventV::Owner(Some(owner))], policy, claim, server) == MapStepV::Done(
            Ok(owner),
        ),
{
    reveal_with_fuel(map_run, 2);
    assert(seq![MapEventV::Owner(Some(owner))].drop_last() =~= Seq::<MapEventV>::empty());
}

/// An identity that is not linked gets the account that its claim names: a new
/// one, which is then linked to it, where there is none and the provider may
/// make one.
pub proof fn law_new_users_are_registered(
    policy: ProviderPolicy,
    claim: Seq<char>,
    server: Seq<char>,
    exists_first: bool,
)
    requires
        sanitized(claim).len() > 0,
        is_user_id(seq!['@'] + sanitized(claim) + seq![':'] + server),
    ensures
        ({
            let id = seq!['@'] + sanitized(claim) + seq![':'] + server;
            let a = map_next(
                MapStepV::FindOwner,
                MapEventV::Owner(None),
                policy,
                Some(claim),
                server,
            );
            let b = map_next(a, MapEventV::Account(false), policy, Some(claim), server);
            let c = map_next(b, MapEventV::Registered, policy, Some(claim), server);
            &&& a == (MapStepV::FindAccount { user_id: id, localpart: sanitized(claim) })
            &&& policy.enable_registration ==> {
                &&& b == (MapStepV::Register { user_id: id, localpart: sanitized(claim) })
                &&& c == (MapStepV::LinkNew { user_id: id })
                &&& map_next(c, MapEventV::Linked, policy, Some(claim), server) == MapStepV::Done(
                    Ok(id),
                )
            }
            &&& !policy.enable_registration ==> (b matches MapStepV::Done(Err(e)) && e.status
                == 403)
        }),
{
    assert(user_id_text(sanitized(claim), server) =~= seq!['@'] + sanitized(claim) + seq![':']
        + server);
}

/// An account that exists is linked where the provider may claim accounts and
/// the account is not linked at the provider yet; else nobody is logged in.
pub proof fn law_existing_accounts_are_linked(
    policy: ProviderPolicy,
    claim: Option<Seq<char>>,
    server: Seq<char>,
    id: Seq<char>,
    local: Seq<char>,
    keys: Seq<Seq<char>>,
)
    ensures
        ({
            let found = MapStepV::FindAccount { user_id: id, localpart: local };
            let making = MapStepV::Register { user_id: id, localpart: local };
            let b = map_next(found, MapEventV::Account(true), policy, claim, server);
            let c = map_next(b, MapEventV::Links(keys), policy, claim, server);
            &&& map_next(making, MapEventV::NameTaken, policy, claim, server) == b
            &&& !policy.allow_existing_users ==> (b matches MapStepV::Done(Err(e)) && e.status
                == 403)
            &&& policy.allow_existing_users ==> {
                &&& b == (MapStepV::FindLinks { user_id: id })
                &&& keys.contains(policy.key@) ==> (c matches MapStepV::Done(Err(e)) && e.status
                    == 403)
                &&& !keys.contains(policy.key@) ==> {
                    &&& c == (MapStepV::LinkExisting { user_id: id })
                    &&& map_next(c, MapEventV::Linked, policy, claim, server) == MapStepV::Done(
                        Ok(id),
                    )
                    &&& map_next(c, MapEventV::SubjectInUse, policy, claim,
                        server) matches MapStepV::Done(
                        Err(e),
                    ) && e.status == 403
                }
            }
        }),
{
}

/// What fails is the answer, and an answer stands.
pub proof fn law_answers_stand(
    step: MapStepV,
    event: MapEventV,
    e: ApiErrorV,
    policy: ProviderPolicy,
    claim: Option<Seq<char>>,
    server: Seq<char>,
)
    ensures
        step is Done ==> map_next(step, event, policy, claim, server) == step,
        !(step is Done) ==> map_next(step, MapEventV::Failed(e), policy, claim, server)
            == MapStepV::Done(Err(e)),
{
}

/// A provider is picked by its ID: the first that has it.
pub proof fn law_providers_are_picked_by_id(list: Seq<ProviderEntry>, k: int, from: int)
    requires
        0 <= from <= k < list.len(),
        forall|j: int| from <= j < k ==> (#[trigger] list[j]).idp_id@ != list[k].idp_id@,
    ensures
        provider_index(list, list[k].idp_id@, from) == Some(k),
    decreases k - from,
{
    if from < k {
        law_providers_are_picked_by_id(list, k, from + 1);
    }
}

/// A return from a provider goes on exactly where sign-on is set up, the attempt
/// is pending, the provider is known and refused nothing, and there is a code.
pub proof fn law_returns_bring_a_code(
    q: Seq<(String, String)>,
    sso_configured: bool,
    flow_pending: bool,
    provider_known: bool,
)
    ensures
        callback_outcome(q, sso_configured, flow_pending, provider_known) is Ok <==> sso_configured
            && flow_pending && provider_known && query_value(q, "error"@) is None && query_value(
            q,
            "code"@,
        ) is Some,
        callback_outcome(q, sso_configured, flow_pending, provider_known) matches Ok(c)
            ==> query_value(q, "code"@) == Some(c),
        sso_configured && (!flow_pending || query_value(q, "error"@) is Some) ==> (callback_outcome(
            q,
            sso_configured,
            flow_pending,
            provider_known,
        ) matches Err(e) && e.status == 403),
{
}

/// A parameter that is needed must be there and not be empty.
pub proof fn law_needed_parameters_are_there(
    q: Seq<(String, String)>,
    key: Seq<char>,
    message: Seq<char>,
)
    ensures
        required_param(q, key, message) is Ok <==> query_value(q, key) is Some && query_value(
            q,
            key,
        )->0.len() > 0,
        required_param(q, key, message) matches Ok(v) ==> query_value(q, key) == Some(v),
        required_param(q, key, message) matches Err(e) ==> e.status == 400,
{
}

/// Text is written into HTML character by character, and what HTML reads as
/// markup is escaped.
pub proof fn law_html_is_escaped(
    a: Seq<char>,
    b: Seq<char>,
    x: char,
)
    ensures
        html_text(a + b) == html_text(a) + html_text(b),
        html_text(seq![x]) == (if x == '&' {
            "&amp;"@
        } else if x == '<' {
            "&lt;"@
        } else if x == '>' {
            "&gt;"@
        } else if x == '"' {
            "&quot;"@
        } else if x == '\'' {
            "&#39;"@
        } else {
            seq![x]
        }),
    decreases b.len(),
{
    reveal_with_fuel(html_text, 2);
    assert(seq![x].drop_last() =~= Seq::<char>::empty());
    if b.len() == 0 {
        assert(a + b =~= a);
    } else {
        law_html_is_escaped(a, b.drop_last(), x);
        assert((a + b).drop_last() =~= a + b.drop_last());
        assert((a + b).last() == b.last());
    }

    assert(html_text(a + b) =~= html_text(a) + html_text(b));
}

/// Every provider has a line on the page, with a link that picks it and its
/// name.
pub proof fn law_every_provider_can_be_picked(
    a: Seq<ProviderEntry>,
    x: ProviderEntry,
    base: Seq<char>,
    params: Seq<(Seq<char>, Seq<char>)>,
)
    ensures
        picker_items(a.push(x), base, params) == picker_items(a, base, params)
            + "<li><a href=\""@ + html_text(picker_link(base, x.idp_id@, params)) + "\">"@
                + html_text(
            x.name@,
        ) + "</a></li>\n"@,
        picker_items(Seq::empty(), base, params).len() == 0,
{
    assert(a.push(x).drop_last() =~= a);
}

/// The names that may be kept of a claim are of lower-case letters, digits, and
/// a few signs.
pub proof fn law_names_are_of_plain_characters(c: char)
    ensures
        localpart_char(c) <==> ('a' <= c <= 'z' || '0' <= c <= '9' || c == '.' || c == '_' || c
            == '=' || c == '/' || c == '-'),
{
}

/// Signing in goes to the one provider there is, for the address that the
/// client gave; among several the user picks.
pub proof fn law_one_provider_needs_no_choice(
    q: &Vec<(String, String)>,
    providers: &Vec<ProviderEntry>,
    url: Seq<char>,
    r: Result<SsoStart, ApiError>,
)
    requires
        call_ensures(sso_redirect, (q, providers), r),
        query_value(q@, "redirectUrl"@) == Some(url) && url.len() > 0,
    ensures
        providers@.len() == 0 ==> (r matches Err(e) && e@.status == 404),
        providers@.len() == 1 ==> (r matches Ok(SsoStart::Begin { provider, kind })
            && provider == 0 && (kind matches PendingKind::Login { client_redirect }
            && client_redirect@ == url)),
        providers@.len() > 1 ==> (r matches Ok(SsoStart::Pick { .. })),
{
}

/// Signing in goes to the provider that was picked, for the address that the
/// client gave.
pub proof fn law_picked_providers_are_gone_to(
    q: &Vec<(String, String)>,
    idp_id: &str,
    providers: &Vec<ProviderEntry>,
    url: Seq<char>,
    k: int,
    r: Result<SsoStart, ApiError>,
)
    requires
        call_ensures(sso_redirect_idp, (q, idp_id, providers), r),
        query_value(q@, "redirectUrl"@) == Some(url) && url.len() > 0,
        0 <= k < providers@.len() && providers@[k].idp_id@ == idp_id@,
        forall|j: int| 0 <= j < k ==> (#[trigger] providers@[j]).idp_id@ != idp_id@,
    ensures
        (r matches Ok(SsoStart::Begin { provider, kind }) && provider == k
            && (kind matches PendingKind::Login { client_redirect } && client_redirect@ == url)),
{
    law_providers_are_picked_by_id(providers@, k, 0);
}

/// An identity authenticates the account that it is linked to, and none where
/// it is linked to none.
pub proof fn law_only_linked_identities_authenticate(
    owner: Option<String>,
    r: Result<String, ApiError>,
)
    requires
        call_ensures(uia_owner, (owner,), r),
    ensures
        owner matches Some(o) ==> (r matches Ok(s) && s@ == o@),
        owner is None ==> (r matches Err(e) && e@.status == 403),
{
}

} // verus!

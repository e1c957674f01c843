//! Discovery, registration, login.
use crate::error::{api_error, forbidden, not_found, outcome, ApiError, ApiErrorV};
use crate::json::{field, field2, fields_view, no_fields, object_of, one_field, put, put_str, text_json, Json, JsonV};
use crate::routes::search::{lowercase, to_lowercase};
use crate::text::{chars_of, join_texts, same_text, texts};
use vstd::prelude::*;

verus! {

#[derive(Debug)]
pub struct TokenValidityQuery {
    pub token: String,
}

/// The versions of the protocol that this server implements.
pub open spec fn versions() -> Seq<Seq<char>> {
    seq![
        "v1.1"@,
        "v1.2"@,
        "v1.3"@,
        "v1.4"@,
        "v1.5"@,
        "v1.6"@,
        "v1.7"@,
        "v1.8"@,
        "v1.9"@,
        "v1.10"@,
        "v1.11"@,
        "v1.12"@,
        "v1.13"@,
        "v1.14"@,
        "v1.15"@,
        "v1.16"@,
        "v1.17"@,
        "v1.18"@,
        "v1.19"@,
    ]
}

/// The versions of the protocol that this server implements.
pub fn get_supported_versions() -> (r: Vec<String>)
    ensures
        texts(r@) == versions(),
{
    let r = vec![
        "v1.1".to_owned(),
        "v1.2".to_owned(),
        "v1.3".to_owned(),
        "v1.4".to_owned(),
        "v1.5".to_owned(),
        "v1.6".to_owned(),
        "v1.7".to_owned(),
        "v1.8".to_owned(),
        "v1.9".to_owned(),
        "v1.10".to_owned(),
        "v1.11".to_owned(),
        "v1.12".to_owned(),
        "v1.13".to_owned(),
        "v1.14".to_owned(),
        "v1.15".to_owned(),
        "v1.16".to_owned(),
        "v1.17".to_owned(),
        "v1.18".to_owned(),
        "v1.19".to_owned(),
    ];
    proof {
        assert(texts(r@) =~= versions());
    }
    r
}

/// Where clients find this server, where that is configured.
pub fn well_known_client(base_url: Option<&str>) -> (r: Result<Json, ApiError>)
    ensures
        match base_url {
            Some(url) => r matches Ok(j) && j@ == one_field(
                "m.homeserver"@,
                one_field("base_url"@, JsonV::Str(url@)),
            ),
            None => r matches Err(e) && e@ == not_found("well-known not configured"@),
        },
{
    match base_url {
        Some(url) => Ok(object_of("m.homeserver", object_of("base_url", text_json(url)))),
        None => Err(ApiError::not_found("well-known not configured")),
    }
}

/// Every room version, marked stable.
pub open spec fn stable_versions(list: Seq<Seq<char>>) -> Map<Seq<char>, JsonV>
    decreases list.len(),
{
    if list.len() == 0 {
        no_fields()
    } else {
        stable_versions(list.drop_last()).insert(list.last(), JsonV::Str("stable"@))
    }
}

/// What this server can do.
pub open spec fn capabilities(default: Seq<char>, available: Seq<Seq<char>>) -> JsonV {
    one_field(
        "capabilities"@,
        JsonV::Object(
            no_fields().insert(
                "m.change_password"@,
                one_field("enabled"@, JsonV::Bool(true)),
            ).insert(
                "m.room_versions"@,
                JsonV::Object(
                    no_fields().insert("default"@, JsonV::Str(default)).insert(
                        "available"@,
                        JsonV::Object(stable_versions(available)),
                    ),
                ),
            ),
        ),
    )
}

/// What this server can do; capabilities that equal their default are spelled
/// out too.
pub fn get_capabilities(default: &str, available: &Vec<String>) -> (r: Json)
    ensures
        r@ == capabilities(default@, texts(available@)),
{
    let mut stable: Vec<(String, Json)> = Vec::new();
    let ghost all = texts(available@);
    let mut i: usize = 0;
    while i < available.len()
        invariant
            i <= available.len(),
            all == texts(available@),
            fields_view(stable@) == stable_versions(all.take(i as int)),
        decreases available.len() - i,
    {
        proof {
            assert(all.take(i + 1).drop_last() =~= all.take(i as int));
            assert(all.take(i + 1).last() == available@[i as int]@);
        }
        put(&mut stable, available[i].as_str().to_owned(), text_json("stable"));
        i += 1;
    }
    proof {
        assert(all.take(all.len() as int) =~= all);
    }
    let mut room_versions: Vec<(String, Json)> = Vec::new();
    put_str(&mut room_versions, "default", text_json(default));
    put_str(&mut room_versions, "available", Json::Object(stable));
    let mut m: Vec<(String, Json)> = Vec::new();
    put_str(&mut m, "m.change_password", object_of("enabled", Json::Bool(true)));
    put_str(&mut m, "m.room_versions", Json::Object(room_versions));
    object_of("capabilities", Json::Object(m))
}

// -- registration -------------------------------------------------------------

/// Whether a candidate names the reserved server-notices account. Both sides
/// are canonical account IDs, because the text that is checked is not the text
/// that becomes the account; a candidate that has no canonical form is not
/// reserved.
pub fn is_reserved_notices(reserved: Option<&str>, candidate: Option<&str>) -> (r: bool)
    ensures
        r == (reserved matches Some(a) && candidate matches Some(b) && a@ == b@),
{
    match (reserved, candidate) {
        (Some(a), Some(b)) => same_text(a, b),
        _ => false,
    }
}

pub open spec fn taken() -> ApiErrorV {
    api_error(400, "M_USER_IN_USE"@, "Desired user ID is already taken"@)
}

fn is_taken() -> (r: ApiError)
    ensures
        r@ == taken(),
{
    ApiError::new(400, "M_USER_IN_USE", "Desired user ID is already taken")
}

/// The refusal of who does not own a namespace.
pub fn exclusive(message: &str) -> (r: ApiError)
    ensures
        r@ == api_error(400, "M_EXCLUSIVE"@, message@),
{
    ApiError::new(400, "M_EXCLUSIVE", message)
}

/// What is known where someone registers.
#[derive(Clone, Copy, Debug, PartialEq, Eq, Structural)]
pub struct RegisterFacts {
    pub guest: bool,
    /// An appservice registers one of its users.
    pub appservice: bool,
    pub enabled: bool,
    /// The name is that of the server-notices account.
    pub reserved: bool,
    /// The name has a canonical form, which an appservice claims for itself.
    pub claimed: bool,
}

/// What is done with a registration.
#[derive(Debug)]
pub enum RegisterStep {
    /// It is for the appservice that asks.
    Appservice,
    /// The stages of authentication come next, bound to this request.
    Authenticate(String),
}

/// The request that the stages of a registration are bound to: one completed
/// for a name cannot be spent on another.
pub open spec fn register_id(localpart: Seq<char>) -> Seq<char> {
    "register:"@ + localpart
}

/// Decides on a registration.
pub fn register(f: RegisterFacts, localpart: &str) -> (r: Result<RegisterStep, ApiError>)
    ensures
        if f.guest {
            r matches Err(e) && e@ == api_error(
                403,
                "M_GUEST_ACCESS_FORBIDDEN"@,
                "Guest access is not implemented"@,
            )
        } else if f.appservice {
            r matches Ok(RegisterStep::Appservice)
        } else if !f.enabled {
            r matches Err(e) && e@ == forbidden("Registration is disabled"@)
        } else if f.reserved {
            r matches Err(e) && e@ == taken()
        } else if f.claimed {
            r matches Err(e) && e@ == api_error(
                400,
                "M_EXCLUSIVE"@,
                "This user ID is reserved by an application service"@,
            )
        } else {
            r matches Ok(RegisterStep::Authenticate(id)) && id@ == register_id(localpart@)
        },
{
    if f.guest {
        return Err(
            ApiError::new(403, "M_GUEST_ACCESS_FORBIDDEN", "Guest access is not implemented"),
        );
    }
    if f.appservice {
        return Ok(RegisterStep::Appservice);
    }
    if !f.enabled {
        return Err(ApiError::forbidden("Registration is disabled"));
    }
    if f.reserved {
        return Err(is_taken());
    }
    if f.claimed {
        return Err(exclusive("This user ID is reserved by an application service"));
    }
    Ok(RegisterStep::Authenticate(join_texts("register:", localpart)))
}

/// An appservice registers a user: passwordless, but never outside its own
/// namespaces, and never the server-notices account. `canonical` is the account
/// ID of the name, or the fault in it.
pub fn register_appservice(
    username: Option<String>,
    reserved: bool,
    canonical: Result<(), ApiError>,
    in_namespace: bool,
) -> (r: Result<String, ApiError>)
    ensures
        match username {
            None => r matches Err(e) && e@ == api_error(
                400,
                "M_MISSING_PARAM"@,
                "username is required for appservice registration"@,
            ),
            Some(name) => if reserved {
                r matches Err(e) && e@ == taken()
            } else {
                match canonical {
                    Err(x) => r matches Err(e) && e@ == x@,
                    Ok(_) => if in_namespace {
                        r matches Ok(s) && s@ == name@
                    } else {
                        r matches Err(e) && e@ == api_error(
                            400,
                            "M_EXCLUSIVE"@,
                            "username is not covered by this application service's namespaces"@,
                        )
                    },
                }
            },
        },
{
    let name = match username {
        Some(n) => n,
        None => {
            return Err(
                ApiError::new(
                    400,
                    "M_MISSING_PARAM",
                    "username is required for appservice registration",
                ),
            );
        },
    };
    if reserved {
        return Err(is_taken());
    }
    match canonical {
        Err(e) => Err(e),
        Ok(()) => if in_namespace {
            Ok(name)
        } else {
            Err(exclusive("username is not covered by this application service's namespaces"))
        },
    }
}

/// Is a name free to register?
pub fn register_available(
    enabled: bool,
    canonical: Result<(), ApiError>,
    reserved: bool,
    account_exists: bool,
    claimable: bool,
) -> (r: Result<bool, ApiError>)
    ensures
        if !enabled {
            r matches Err(e) && e@ == forbidden("Registration is disabled"@)
        } else {
            match canonical {
                Err(x) => r matches Err(e) && e@ == x@,
                Ok(_) => if reserved || account_exists {
                    r matches Err(e) && e@ == taken()
                } else if !claimable {
                    r matches Err(e) && e@ == api_error(
                        400,
                        "M_EXCLUSIVE"@,
                        "This user ID is reserved by an application service"@,
                    )
                } else {
                    r matches Ok(true)
                },
            }
        },
{
    if !enabled {
        return Err(ApiError::forbidden("Registration is disabled"));
    }
    match canonical {
        Err(e) => Err(e),
        Ok(()) => if reserved || account_exists {
            Err(is_taken())
        } else if !claimable {
            Err(exclusive("This user ID is reserved by an application service"))
        } else {
            Ok(true)
        },
    }
}

/// The answer to whether a registration token is good: yes or no, never why.
pub fn registration_token_validity(usable: Option<bool>) -> (r: Json)
    ensures
        r@ == one_field("valid"@, JsonV::Bool(usable == Some(true))),
{
    let valid = match usable {
        Some(u) => u,
        None => false,
    };
    object_of("valid", Json::Bool(valid))
}

/// A character that a random name may hold.
pub open spec fn is_name_char(c: char) -> bool {
    'a' <= c <= 'z' || '0' <= c <= '9'
}

/// The characters of a text that a random name may hold, in order.
pub open spec fn name_chars(s: Seq<char>) -> Seq<char>
    decreases s.len(),
{
    if s.len() == 0 {
        Seq::empty()
    } else {
        let init = name_chars(s.drop_last());
        if is_name_char(s.last()) {
            init.push(s.last())
        } else {
            init
        }
    }
}

proof fn lemma_name_grows(s: Seq<char>, i: int)
    requires
        0 <= i <= s.len(),
    ensures
        name_chars(s.take(i)).len() <= name_chars(s).len(),
        name_chars(s).take(name_chars(s.take(i)).len() as int) == name_chars(s.take(i)),
    decreases s.len() - i,
{
    if i == s.len() {
        assert(s.take(i) =~= s);
        assert(name_chars(s).take(name_chars(s).len() as int) =~= name_chars(s));
    } else {
        lemma_name_grows(s, i + 1);
        assert(s.take(i + 1).drop_last() =~= s.take(i));
        let a = name_chars(s.take(i));
        let b = name_chars(s.take(i + 1));
        let c = name_chars(s);
        assert forall|k: int| 0 <= k < a.len() implies #[trigger] c.take(a.len() as int)[k]
            == a[k] by {
            assert(c.take(b.len() as int)[k] == b[k]);
        }
        assert(c.take(a.len() as int) =~= a);
    }
}

/// The first of a text's name characters, twelve at most.
pub open spec fn localpart_of(token: Seq<char>) -> Seq<char> {
    let all = name_chars(lowercase(token));
    if all.len() > 12 {
        all.take(12)
    } else {
        all
    }
}

/// A name for a registration without one, made from a fresh token.
pub fn random_localpart(token: &str) -> (r: String)
    ensures
        r@ == localpart_of(token@),
{
    let lowered = to_lowercase(token);
    let chars = chars_of(lowered.as_str());
    let mut out = String::new();
    let mut n: usize = 0;
    let mut i: usize = 0;
    while i < chars.len() && n < 12
        invariant
            i <= chars.len(),
            n <= 12,
            n == out@.len(),
            out@ == name_chars(chars@.take(i as int)),
        decreases chars.len() - i,
    {
        proof {
            assert(chars@.take(i + 1).drop_last() =~= chars@.take(i as int));
        }
        let c = chars[i];
        if ('a' <= c && c <= 'z') || ('0' <= c && c <= '9') {
            out.push(c);
            n += 1;
        }
        i += 1;
    }
    proof {
        lemma_name_grows(chars@, i as int);
        if i == chars@.len() {
            assert(chars@.take(i as int) =~= chars@);
        }
        assert(out@ =~= localpart_of(token@));
    }
    out
}

/// A random name is plain: lowercase letters and digits, twelve at most.
pub proof fn law_random_names_are_plain(token: Seq<char>)
    ensures
        localpart_of(token).len() <= 12,
        forall|i: int| 0 <= i < localpart_of(token).len() ==> is_name_char(
            #[trigger] localpart_of(token)[i],
        ),
{
    lemma_name_plain(lowercase(token));
}

proof fn lemma_name_plain(s: Seq<char>)
    ensures
        forall|i: int| 0 <= i < name_chars(s).len() ==> is_name_char(#[trigger] name_chars(s)[i]),
    decreases s.len(),
{
    if s.len() > 0 {
        let init = name_chars(s.drop_last());
        lemma_name_plain(s.drop_last());
        assert forall|i: int| 0 <= i < name_chars(s).len() implies is_name_char(
            #[trigger] name_chars(s)[i],
        ) by {
            if i < init.len() {
                assert(name_chars(s)[i] == init[i]);
            }
        }
    }
}

// -- login --------------------------------------------------------------------

/// Whom a login names.
#[derive(Debug)]
pub enum Identifier {
    Matrix(String),
    Other,
}

/// The user whom an appservice logs in as: named by an identifier or, without
/// one, by the older field.
pub fn appservice_login_user(identifier: Option<Identifier>, user: Option<String>) -> (r: Result<
    String,
    ApiError,
>)
    ensures
        match (identifier, user) {
            (Some(Identifier::Matrix(m)), _) => r matches Ok(s) && s@ == m@,
            (None, Some(u)) => r matches Ok(s) && s@ == u@,
            _ => r matches Err(e) && e@ == forbidden("Unsupported identifier type"@),
        },
{
    match (identifier, user) {
        (Some(Identifier::Matrix(m)), _) => Ok(m),
        (None, Some(u)) => Ok(u),
        _ => Err(ApiError::forbidden("Unsupported identifier type")),
    }
}

/// May an appservice log in as a user?
pub fn check_login_namespace(in_namespace: bool) -> (r: Result<(), ApiError>)
    ensures
        outcome(r) == (if in_namespace {
            Ok::<(), ApiErrorV>(())
        } else {
            Err(
                api_error(
                    400,
                    "M_EXCLUSIVE"@,
                    "user is not covered by this application service's namespaces"@,
                ),
            )
        }),
{
    if in_namespace {
        Ok(())
    } else {
        Err(exclusive("user is not covered by this application service's namespaces"))
    }
}

/// The key that a login is limited by: the canonical account ID, so that
/// spelling variants share one budget; the lowercased input where it has none.
pub fn limit_key(canonical: Option<String>, user: &str) -> (r: String)
    ensures
        r@ == (match canonical {
            Some(id) => id@,
            None => lowercase(user@),
        }),
{
    match canonical {
        Some(id) => id,
        None => to_lowercase(user),
    }
}

/// A name is made of the lower-case letters and digits of a token, in their
/// order.
pub proof fn law_names_keep_letters_and_digits(
    a: Seq<char>,
    b: Seq<char>,
    x: char,
)
    ensures
        name_chars(a + b) == name_chars(a) + name_chars(b),
        name_chars(seq![x]) == (if 'a' <= x <= 'z' || '0' <= x <= '9' {
            seq![x]
        } else {
            Seq::empty()
        }),
    decreases b.len(),
{
    reveal_with_fuel(name_chars, 2);
    assert(seq![x].drop_last() =~= Seq::<char>::empty());
    if b.len() == 0 {
        assert(a + b =~= a);
    } else {
        law_names_keep_letters_and_digits(a, b.drop_last(), x);
        assert((a + b).drop_last() =~= a + b.drop_last());
        assert((a + b).last() == b.last());
    }

    assert(name_chars(a + b) =~= name_chars(a) + name_chars(b));
}

/// A made-up name is the beginning of what the token gives, up to twelve
/// characters.
pub proof fn law_names_are_cut_to_twelve(token: Seq<char>, i: int)
    ensures
        ({
            let all = name_chars(lowercase(token));
            let name = localpart_of(token);
            &&& name.len() == (if all.len() <= 12 {
                all.len() as int
            } else {
                12
            })
            &&& 0 <= i < name.len() ==> name[i] == all[i]
        }),
{
}

/// Every room version that is supported is told of as stable, and the default;
/// and passwords can be changed.
pub proof fn law_capabilities_are_told(default: Seq<char>, available: Seq<Seq<char>>, v: Seq<char>)
    ensures
        ({
            let c = field(capabilities(default, available), "capabilities"@);
            &&& c is Some
            &&& field2(c->0, "m.change_password"@, "enabled"@) == Some(JsonV::Bool(true))
            &&& field2(c->0, "m.room_versions"@, "default"@) == Some(JsonV::Str(default))
            &&& field2(c->0, "m.room_versions"@, "available"@) matches Some(a) && field(a, v) == (
            if available.contains(v) {
                Some(JsonV::Str("stable"@))
            } else {
                None
            })
        }),
{
    reveal_strlit("m.change_password");
    reveal_strlit("m.room_versions");
    reveal_strlit("default");
    reveal_strlit("available");
    assert("m.change_password"@.len() == 17 && "m.room_versions"@.len() == 15
        && "default"@.len() == 7 && "available"@.len() == 9);
    lemma_stable(available, v);
}

proof fn lemma_stable(list: Seq<Seq<char>>, v: Seq<char>)
    ensures
        field(JsonV::Object(stable_versions(list)), v) == (if list.contains(v) {
            Some(JsonV::Str("stable"@))
        } else {
            None
        }),
    decreases list.len(),
{
    if list.len() > 0 {
        let init = list.drop_last();
        lemma_stable(init, v);
        if init.contains(v) {
            let i = choose|i: int| 0 <= i < init.len() && init[i] == v;
            assert(list[i] == v);
        }
        if list.contains(v) && list.last() != v {
            let i = choose|i: int| 0 <= i < list.len() && list[i] == v;
            assert(init[i] == v);
        }
        if list.last() == v {
            assert(list[list.len() - 1] == v);
        }
    }
}

/// A registration goes on exactly where it is no guest's, registration is
/// enabled, and the name is neither reserved nor claimed; an appservice's goes
/// its own way.
pub proof fn law_registrations_are_let_in(
    f: RegisterFacts,
    localpart: &str,
    r: Result<RegisterStep, ApiError>,
)
    requires
        call_ensures(register, (f, localpart), r),
    ensures
        r matches Ok(RegisterStep::Appservice) <==> !f.guest && f.appservice,
        r matches Ok(RegisterStep::Authenticate(_)) <==> !f.guest && !f.appservice && f.enabled
            && !f.reserved && !f.claimed,
        f.guest ==> (r matches Err(e) && e@.status == 403),
        !f.guest && !f.appservice && !f.enabled ==> (r matches Err(e) && e@.status == 403),
        !f.guest && !f.appservice && f.enabled && f.reserved
            ==> (r matches Err(e) && e@.errcode == "M_USER_IN_USE"@),
{
}

/// An appservice registers a user exactly where it names one whose name is fit,
/// not reserved and in its namespaces.
pub proof fn law_appservices_register_their_own(
    username: Option<String>,
    reserved: bool,
    canonical: Result<(), ApiError>,
    in_namespace: bool,
    r: Result<String, ApiError>,
)
    requires
        call_ensures(register_appservice, (username, reserved, canonical, in_namespace), r),
    ensures
        r is Ok <==> username is Some && !reserved && canonical is Ok && in_namespace,
        r matches Ok(s) ==> username is Some && s@ == username->0@,
{
}

/// A name is available exactly where registration is enabled and the name is
/// fit, free, and not kept for an appservice.
pub proof fn law_free_names_are_available(
    enabled: bool,
    canonical: Result<(), ApiError>,
    reserved: bool,
    account_exists: bool,
    claimable: bool,
    r: Result<bool, ApiError>,
)
    requires
        call_ensures(register_available, (enabled, canonical, reserved, account_exists, claimable),
            r),
    ensures
        r is Ok <==> enabled && canonical is Ok && !reserved && !account_exists && claimable,
        r matches Ok(b) ==> b,
        enabled && canonical is Ok && (reserved || account_exists)
            ==> (r matches Err(e) && e@.errcode == "M_USER_IN_USE"@),
{
}

/// A name is the one of the server notices exactly where both are known and the
/// same.
pub proof fn law_reserved_names_are_recognised(
    reserved: Option<&str>,
    candidate: Option<&str>,
    r: bool,
)
    requires
        call_ensures(is_reserved_notices, (reserved, candidate), r),
    ensures
        r <==> reserved is Some && candidate is Some && reserved->0@ == candidate->0@,
{
}

/// An appservice logs in the user that it names, by a Matrix identifier or by
/// name.
pub proof fn law_appservice_logins_name_a_user(
    identifier: Option<Identifier>,
    user: Option<String>,
    r: Result<String, ApiError>,
)
    requires
        call_ensures(appservice_login_user, (identifier, user), r),
    ensures
        identifier matches Some(Identifier::Matrix(m)) ==> (r matches Ok(s) && s@ == m@),
        identifier is None && user is Some ==> (r matches Ok(s) && s@ == user->0@),
        identifier matches Some(Identifier::Other) ==> (r matches Err(e) && e@.status == 403),
        identifier is None && user is None ==> (r matches Err(e) && e@.status == 403),
{
}

/// A registration token is valid exactly where it is known and can be used.
pub proof fn law_usable_tokens_are_valid(
    usable: Option<bool>,
    r: Json,
)
    requires
        call_ensures(registration_token_validity, (usable,), r),
    ensures
        field(r@, "valid"@) == Some(JsonV::Bool(usable == Some(true))),
{
}

/// A client is told where the server is, where that is set up.
pub proof fn law_clients_find_the_server(
    base_url: Option<&str>,
    r: Result<Json, ApiError>,
)
    requires
        call_ensures(well_known_client, (base_url,), r),
    ensures
        base_url matches Some(u) ==> (r matches Ok(j) && field2(j@, "m.homeserver"@, "base_url"@)
            == Some(JsonV::Str(u@))),
        base_url is None ==> (r matches Err(e) && e@.status == 404),
{
}

/// The versions that are supported go from the first on, without a gap.
pub proof fn law_versions_have_no_gap()
    ensures
        versions().len() == 19,
        versions()[0] == "v1.1"@,
        versions()[1] == "v1.2"@,
        versions()[2] == "v1.3"@,
        versions()[3] == "v1.4"@,
        versions()[4] == "v1.5"@,
        versions()[5] == "v1.6"@,
        versions()[6] == "v1.7"@,
        versions()[7] == "v1.8"@,
        versions()[8] == "v1.9"@,
        versions()[9] == "v1.10"@,
        versions()[10] == "v1.11"@,
        versions()[11] == "v1.12"@,
        versions()[12] == "v1.13"@,
        versions()[13] == "v1.14"@,
        versions()[14] == "v1.15"@,
        versions()[15] == "v1.16"@,
        versions()[16] == "v1.17"@,
        versions()[17] == "v1.18"@,
        versions()[18] == "v1.19"@,
{
}

} // verus!

use saltator_cs_api::error::{ApiError, UserError};
use saltator_cs_api::routes::sso::{
    callback_code, client_redirect_param, escape_html, login_kind, login_redirect,
    login_token_fault, map_subject, picker_page, sanitize_localpart, sso_fallback_web,
    sso_redirect, sso_redirect_idp, uia_owner, urlencode, MapEvent, MapStep, PendingKind,
    ProviderEntry, ProviderPolicy, SsoStart, VerifiedIdentity,
};

fn t(x: &str) -> String {
    x.to_owned()
}

fn query(pairs: &[(&str, &str)]) -> Vec<(String, String)> {
    pairs.iter().map(|(k, v)| (t(k), t(v))).collect()
}

fn providers(n: usize) -> Vec<ProviderEntry> {
    (0..n).map(|i| ProviderEntry { idp_id: format!("idp {i}"), name: format!("P<{i}>") }).collect()
}

#[test]
fn one_provider_needs_no_choice() {
    let q = query(&[("redirectUrl", "https://app/")]);
    match sso_redirect(&q, &providers(1)).unwrap() {
        SsoStart::Begin { provider: 0, kind: PendingKind::Login { client_redirect } } => {
            assert_eq!(client_redirect, "https://app/")
        }
        other => panic!("{other:?}"),
    }
    match sso_redirect(&q, &providers(2)).unwrap() {
        SsoStart::Pick { page } => {
            assert!(page.contains(
                "<li><a href=\"/login/sso/redirect/idp%201?redirectUrl=https%3A%2F%2Fapp%2F\">\
                 P&lt;1&gt;</a></li>"
            ));
            assert!(page.starts_with("<!DOCTYPE html>"));
        }
        other => panic!("{other:?}"),
    }
    assert_eq!(sso_redirect(&q, &vec![]).unwrap_err().message, "SSO is not configured");
    assert_eq!(
        sso_redirect(&query(&[("redirectUrl", "")]), &providers(1)).unwrap_err().message,
        "Missing redirectUrl parameter"
    );
    assert_eq!(client_redirect_param(&q).unwrap(), "https://app/");
    assert!(matches!(login_kind("x"), PendingKind::Login { .. }));
}

#[test]
fn a_named_provider_is_used() {
    let q = query(&[("redirectUrl", "https://app/")]);
    assert!(matches!(
        sso_redirect_idp(&q, "idp 1", &providers(2)),
        Ok(SsoStart::Begin { provider: 1, .. })
    ));
    assert_eq!(
        sso_redirect_idp(&q, "idp 7", &providers(2)).unwrap_err().message,
        "Unknown identity provider"
    );
}

#[test]
fn the_fallback_keeps_its_session() {
    let q = query(&[("session", "s1")]);
    match sso_fallback_web(&q, &providers(1)).unwrap() {
        SsoStart::Begin { provider: 0, kind: PendingKind::UiaFallback { session_id } } => {
            assert_eq!(session_id, "s1")
        }
        other => panic!("{other:?}"),
    }
    match sso_fallback_web(&q, &providers(2)).unwrap() {
        SsoStart::Pick { page } => assert!(page.contains(
            "href=\"/auth/m.login.sso/fallback/web?idp=idp%200&amp;session=s1\""
        )),
        other => panic!("{other:?}"),
    }
    let q = query(&[("session", "s1"), ("idp", "idp 1")]);
    assert!(matches!(sso_fallback_web(&q, &providers(2)), Ok(SsoStart::Begin { provider: 1, .. })));
    assert_eq!(
        sso_fallback_web(&query(&[("session", "s1"), ("idp", "x")]), &providers(2))
            .unwrap_err()
            .message,
        "Unknown identity provider"
    );
    assert_eq!(
        sso_fallback_web(&vec![], &providers(1)).unwrap_err().message,
        "Missing session parameter"
    );
    assert_eq!(sso_fallback_web(&q, &vec![]).unwrap_err().message, "Unknown identity provider");
}

#[test]
fn callbacks_are_checked_in_order() {
    let q = query(&[("state", "s"), ("code", "c")]);
    assert_eq!(callback_code(&q, true, true, true).unwrap(), "c");
    assert_eq!(callback_code(&q, false, true, true).unwrap_err().message, "SSO is not configured");
    assert_eq!(
        callback_code(&q, true, false, true).unwrap_err().message,
        "Unknown or expired SSO attempt; start again"
    );
    assert_eq!(
        callback_code(&q, true, true, false).unwrap_err().message,
        "provider vanished mid-flow"
    );
    let e = query(&[("error", "denied"), ("error_description", "no"), ("code", "c")]);
    assert_eq!(
        callback_code(&e, true, true, true).unwrap_err().message,
        "Identity provider refused: denied no"
    );
    assert_eq!(
        callback_code(&query(&[("error", "denied")]), true, true, true).unwrap_err().message,
        "Identity provider refused: denied "
    );
    assert_eq!(
        callback_code(&vec![], true, true, true).unwrap_err().message,
        "Missing code parameter"
    );
}

#[test]
fn the_token_is_added_to_the_redirect() {
    assert_eq!(
        login_redirect("https://app/cb?a=1#f", "t&1").unwrap(),
        "https://app/cb?a=1&loginToken=t%261#f"
    );
    let e = login_redirect("no url", "t").unwrap_err();
    assert_eq!((e.status, e.errcode.as_str()), (400, "M_INVALID_PARAM"));
    assert_eq!(e.message, "redirectUrl: relative URL without a base");
}

#[test]
fn names_are_made_strict() {
    assert_eq!(sanitize_localpart("Ann Lee+ß.x_=/-9"), "annlee.x_=/-9");
    assert_eq!(sanitize_localpart("ÄÖ"), "");
    assert_eq!(sanitize_localpart("Al+Ice B"), "aliceb");
    // What is strict stays.
    assert_eq!(sanitize_localpart(&sanitize_localpart("A.B C")), sanitize_localpart("A.B C"));
    assert_eq!(escape_html("<a href=\"x\">'&'</a>"), "&lt;a href=&quot;x&quot;&gt;&#39;&amp;&#39;&lt;/a&gt;");
    assert_eq!(urlencode("a b/é~"), "a%20b%2F%C3%A9~");
    assert_eq!(
        picker_page(&vec![], "/x", &vec![]),
        "<!DOCTYPE html><html><head><title>Sign in</title></head><body><h1>Sign in with</h1>\
         <ul></ul></body></html>"
    );
}

fn policy(enable_registration: bool, allow_existing_users: bool) -> ProviderPolicy {
    ProviderPolicy {
        key: t("oidc-main"),
        localpart_claim: t("preferred_username"),
        enable_registration,
        allow_existing_users,
    }
}

fn identity(localpart: Option<&str>) -> VerifiedIdentity {
    VerifiedIdentity { subject: t("sub"), localpart: localpart.map(t), display_name: None }
}

fn run(p: &ProviderPolicy, id: &VerifiedIdentity, events: Vec<MapEvent>) -> MapStep {
    let mut step = MapStep::FindOwner;
    for e in events {
        step = map_subject(step, e, p, id, "hs1");
    }
    step
}

fn refused(step: MapStep) -> String {
    match step {
        MapStep::Done(Err(e)) => {
            assert_eq!(e.status, 403);
            e.message
        }
        other => panic!("{other:?}"),
    }
}

#[test]
fn the_link_decides() {
    let p = policy(false, false);
    match run(&p, &identity(None), vec![MapEvent::Owner(Some(t("@ann:hs1")))]) {
        MapStep::Done(Ok(user)) => assert_eq!(user, "@ann:hs1"),
        other => panic!("{other:?}"),
    }
    match run(&p, &identity(None), vec![MapEvent::Owner(Some(t("ann")))]) {
        MapStep::Done(Err(e)) => assert_eq!(e.status, 500),
        other => panic!("{other:?}"),
    }
    let none = "No usable preferred_username claim to derive a username from";
    assert_eq!(refused(run(&p, &identity(None), vec![MapEvent::Owner(None)])), none);
    assert_eq!(refused(run(&p, &identity(Some("ÄÖ")), vec![MapEvent::Owner(None)])), none);
    assert_eq!(
        refused(run(
            &p,
            &identity(Some("Ann")),
            vec![MapEvent::Owner(None), MapEvent::Account(false)]
        )),
        "No account for this identity, and this provider may not create one"
    );
}

#[test]
fn accounts_are_made_and_linked() {
    let p = policy(true, false);
    let id = identity(Some("Ann"));
    match run(&p, &id, vec![MapEvent::Owner(None)]) {
        MapStep::FindAccount { user_id, localpart } => {
            assert_eq!((user_id.as_str(), localpart.as_str()), ("@ann:hs1", "ann"))
        }
        other => panic!("{other:?}"),
    }
    let made = vec![MapEvent::Owner(None), MapEvent::Account(false), MapEvent::Registered];
    assert!(matches!(run(&p, &id, made), MapStep::LinkNew { .. }));
    let linked = vec![
        MapEvent::Owner(None),
        MapEvent::Account(false),
        MapEvent::Registered,
        MapEvent::Linked,
    ];
    assert!(matches!(run(&p, &id, linked), MapStep::Done(Ok(_))));
    // Losing the race for a name falls to the rules for existing accounts.
    assert!(refused(run(
        &p,
        &id,
        vec![MapEvent::Owner(None), MapEvent::Account(false), MapEvent::NameTaken]
    ))
    .starts_with("An account with this name exists but is not linked to this identity; pre-link it"));
}

#[test]
fn only_unlinked_accounts_are_claimed() {
    let p = policy(false, true);
    let id = identity(Some("Ann"));
    let found = || vec![MapEvent::Owner(None), MapEvent::Account(true)];
    assert!(matches!(run(&p, &id, found()), MapStep::FindLinks { .. }));
    let mut taken = found();
    taken.push(MapEvent::Links(vec![t("oidc-main")]));
    assert_eq!(
        refused(run(&p, &id, taken)),
        "That account is linked to a different identity at this provider"
    );
    let mut free = found();
    free.push(MapEvent::Links(vec![t("oidc-other")]));
    free.push(MapEvent::Linked);
    assert!(matches!(run(&p, &id, free), MapStep::Done(Ok(_))));
    let mut raced = found();
    raced.push(MapEvent::Links(vec![]));
    raced.push(MapEvent::SubjectInUse);
    assert_eq!(
        refused(run(&p, &id, raced)),
        "This identity is already linked to a different account"
    );
    let mut failed = found();
    failed.push(MapEvent::Failed(ApiError::internal("disk")));
    match run(&p, &id, failed) {
        MapStep::Done(Err(e)) => assert_eq!((e.status, e.message.as_str()), (500, "disk")),
        other => panic!("{other:?}"),
    }
}

#[test]
fn reauthentication_needs_a_link() {
    assert_eq!(uia_owner(Some(t("@a:hs1"))).unwrap(), "@a:hs1");
    assert_eq!(
        uia_owner(None).unwrap_err().message,
        "This identity is not linked to any account here"
    );
    for hidden in [UserError::NotFound, UserError::InvalidState] {
        let e = login_token_fault(hidden, "locked");
        assert_eq!((e.status, e.message.as_str()), (403, "This identity may not log in"));
    }
    assert_eq!(login_token_fault(UserError::Internal, "disk").message, "disk");
}

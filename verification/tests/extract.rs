use saltator_cs_api::extract::{
    appservice_auth, assert_device, assert_user, bearer_header, body_cap, check_body, flag_field,
    is_json_body, is_readable, query_param, text_field, token_from_parts, url_decode, user_auth,
    users_field, AdminAuth, AsAuth, Assertion,
    Auth, Jb, Registration, TokenOwner,
};
use saltator_cs_api::error::ApiError;
use saltator_cs_api::json::Json;

fn registration(rate_limited: bool) -> Registration {
    Registration { id: "irc".to_owned(), sender_localpart: "irc_bot".to_owned(), rate_limited }
}

fn auth(appservice: Option<Registration>, masquerade: bool) -> Auth {
    Auth {
        user_id: "@a:hs1".to_owned(),
        device_id: "D".to_owned(),
        appservice,
        masquerade,
    }
}

#[test]
fn bodies_are_json_unless_they_say_otherwise() {
    assert!(is_json_body(None));
    assert!(is_json_body(Some("application/json; charset=utf-8")));
    assert!(!is_json_body(Some("image/png")));
    assert_eq!(body_cap(true), 8 * 1024 * 1024);
    assert_eq!(body_cap(false), 64 * 1024 * 1024);
}

#[test]
fn json_bodies_are_text() {
    assert_eq!(check_body(true, vec![]).unwrap(), b"{}".to_vec());
    assert_eq!(check_body(false, vec![]).unwrap(), Vec::<u8>::new());
    assert_eq!(check_body(true, "é".as_bytes().to_vec()).unwrap(), "é".as_bytes().to_vec());
    // Bytes that are no UTF-8 pass as media and not as JSON.
    assert_eq!(check_body(false, vec![0xff, 0xfe]).unwrap(), vec![0xff, 0xfe]);
    let e = check_body(true, vec![0xff, 0xfe]).unwrap_err();
    assert_eq!((e.status, e.errcode.as_str()), (400, "M_NOT_JSON"));
    assert_eq!(e.message, "Request body is not valid UTF-8");
}

#[test]
fn raw_bodies_are_objects() {
    assert!(Jb::from_body(None).unwrap().0.is_empty());
    let m = Jb::from_body(Some(Ok(Json::Object(vec![("a".to_owned(), Json::Int(1))])))).unwrap().0;
    assert_eq!(m.len(), 1);
    let e = Jb::from_body(Some(Ok(Json::Array(vec![])))).unwrap_err();
    assert_eq!((e.status, e.errcode.as_str()), (400, "M_NOT_JSON"));
    assert_eq!(e.message, "Request body is not a JSON object");
    let e = Jb::from_body(Some(Err("EOF".to_owned()))).unwrap_err();
    assert_eq!((e.status, e.errcode.as_str()), (400, "M_NOT_JSON"));
    assert_eq!(e.message, "Request body is not valid JSON: EOF");
}

#[test]
fn query_parameters_are_decoded() {
    assert_eq!(url_decode("a%20b+c%3D%zz"), "a b c=%zz");
    assert_eq!(url_decode("%F0%9F%98%80"), "\u{1f600}");
    assert_eq!(url_decode("%FF"), "\u{fffd}");
    // An escape that the text ends in the middle of stands as it is.
    assert_eq!(url_decode("%4"), "%4");
    assert!(is_readable("user_id=%40b%3Ahs1&x", "user_id", false));
    assert!(!is_readable("user_id=%aé&x", "user_id", false));
    assert!(is_readable("x=%aé", "user_id", false));
    // Only the value that counts is read.
    assert!(is_readable("user_id=&user_id=%aé", "user_id", false));
    assert!(!is_readable("user_id=&user_id=%aé", "user_id", true));
    assert_eq!(query_param(Some("user_id=a&user_id=%aé"), "user_id"), Some("a".to_owned()));
    let q = Some("x=1&user_id=%40b%3Ahs1&user_id=c");
    assert_eq!(query_param(q, "user_id"), Some("@b:hs1".to_owned()));
    assert_eq!(query_param(q, "user"), None);
    assert_eq!(query_param(None, "user_id"), None);
}

#[test]
fn the_header_token_wins_over_the_query() {
    assert!(bearer_header(Some("Bearer abc")));
    assert!(!bearer_header(Some("bearer abc")));
    assert!(!bearer_header(None));
    let q = Some("access_token=&access_token=q%2B1");
    assert_eq!(token_from_parts(Some("Bearer h"), q), Some("h".to_owned()));
    assert_eq!(token_from_parts(Some("Basic h"), q), Some("q+1".to_owned()));
    assert_eq!(token_from_parts(None, Some("access_token=")), None);
    let odd = Some("access_token=q&access_token=%aé");
    assert_eq!(token_from_parts(None, odd), Some("q".to_owned()));
    assert_eq!(token_from_parts(Some("Bearer h"), Some("access_token=%aé")), Some("h".to_owned()));
    assert_eq!(token_from_parts(None, None), None);
    assert_eq!(token_from_parts(Some("Bearer "), None), Some(String::new()));
}

#[test]
fn tokens_belong_to_somebody() {
    let e = user_auth(None, TokenOwner::Nobody).unwrap_err();
    assert_eq!(e.errcode, "M_MISSING_TOKEN");
    let e = user_auth(Some("t"), TokenOwner::Nobody).unwrap_err();
    assert_eq!(e.errcode, "M_UNKNOWN_TOKEN");
    let a = user_auth(
        Some("t"),
        TokenOwner::User { user_id: "@a:hs1".to_owned(), device_id: "D".to_owned() },
    )
    .unwrap();
    assert_eq!((a.user_id.as_str(), a.device_id.as_str()), ("@a:hs1", "D"));
    assert!(!a.is_appservice() && !a.masquerade && !a.rate_limit_exempt());
}

#[test]
fn the_sender_is_never_limited() {
    assert!(auth(Some(registration(true)), false).rate_limit_exempt());
    assert!(!auth(Some(registration(true)), true).rate_limit_exempt());
    assert!(auth(Some(registration(false)), true).rate_limit_exempt());
}

#[test]
fn appservices_are_no_admins() {
    let admins = vec!["@a:hs1".to_owned()];
    assert!(auth(None, false).is_admin(&admins, false));
    assert!(auth(None, false).is_admin(&vec![], true));
    assert!(!auth(None, false).is_admin(&vec![], false));
    assert!(!auth(Some(registration(true)), false).is_admin(&admins, true));
}

#[test]
fn admins_send_the_header() {
    let e = AdminAuth::from_auth(false, Ok(auth(None, false)), true).unwrap_err();
    assert_eq!(e.errcode, "M_MISSING_TOKEN");
    let e = AdminAuth::from_auth(true, Err(ApiError::unknown_token()), true).unwrap_err();
    assert_eq!(e.errcode, "M_UNKNOWN_TOKEN");
    let e = AdminAuth::from_auth(true, Ok(auth(None, false)), false).unwrap_err();
    assert_eq!((e.status, e.message.as_str()), (403, "You are not a server administrator"));
    let a = AdminAuth::from_auth(true, Ok(auth(None, false)), true).unwrap();
    assert_eq!(a.user_id(), "@a:hs1");
}

#[test]
fn appservice_only_paths_ask_for_a_token() {
    let e = AsAuth { reg: None, token_present: false }.require().unwrap_err();
    assert_eq!(e.errcode, "M_MISSING_TOKEN");
    let e = AsAuth { reg: None, token_present: true }.require().unwrap_err();
    assert_eq!(e.errcode, "M_UNKNOWN_TOKEN");
    let reg = AsAuth { reg: Some(registration(true)), token_present: true }.require().unwrap();
    assert_eq!(reg.id, "irc");
}

#[test]
fn masquerade_is_earned() {
    let sender = "@irc_bot:hs1";
    assert_eq!(assert_user(sender, None, false, false).unwrap(), (sender.to_owned(), false));
    assert_eq!(assert_user(sender, Some(sender), false, false).unwrap(), (sender.to_owned(), false));
    let e = assert_user(sender, Some("@x:hs1"), false, true).unwrap_err();
    assert_eq!(e.message, "Application service cannot masquerade as this user");
    let e = assert_user(sender, Some("@x:hs1"), true, false).unwrap_err();
    assert_eq!(e.message, "Application service has not registered this user");
    // In the namespace, but no user ID.
    let e = assert_user(sender, Some("nobody"), true, true).unwrap_err();
    assert_eq!((e.status, e.errcode.as_str()), (400, "M_INVALID_PARAM"));
    assert_eq!(e.message, "Invalid user_id parameter");
    assert_eq!(
        assert_user(sender, Some("@x:hs1"), true, true).unwrap(),
        ("@x:hs1".to_owned(), true)
    );
}

#[test]
fn asserted_devices_exist() {
    assert_eq!(assert_device("@x:hs1", None, false, "irc_bot").unwrap(), "appservice_irc_bot");
    assert_eq!(assert_device("@x:hs1", Some("D1"), true, "irc_bot").unwrap(), "D1");
    let e = assert_device("@x:hs1", Some("D1"), false, "irc_bot").unwrap_err();
    assert_eq!((e.status, e.errcode.as_str()), (400, "M_UNKNOWN_DEVICE"));
    assert_eq!(e.message, "Unknown device 'D1' for @x:hs1");
}

#[test]
fn an_asserted_identity_is_whole() {
    let a = appservice_auth(
        registration(true),
        Assertion {
            sender: "@irc_bot:hs1",
            user_id: Some("@irc_alice:hs1"),
            in_namespace: true,
            registered: true,
            device_id: None,
            device_known: false,
        },
    )
    .unwrap();
    assert_eq!(a.user_id, "@irc_alice:hs1");
    assert_eq!(a.device_id, "appservice_irc_bot");
    assert!(a.masquerade && a.is_appservice());
    let e = appservice_auth(
        registration(true),
        Assertion {
            sender: "@irc_bot:hs1",
            user_id: None,
            in_namespace: false,
            registered: false,
            device_id: Some("D9"),
            device_known: false,
        },
    )
    .unwrap_err();
    assert_eq!(e.errcode, "M_UNKNOWN_DEVICE");
}

#[test]
fn malformed_fields_are_refused() {
    let users = |items: &[&str]| Json::Array(items.iter().map(|i| Json::Str((*i).to_owned())).collect());
    let body = Json::Object(vec![
        ("name".to_owned(), Json::Str("N".to_owned())),
        ("topic".to_owned(), Json::Null),
        ("preset".to_owned(), Json::Int(1)),
        ("is_direct".to_owned(), Json::Bool(true)),
        ("invite".to_owned(), users(&["@a:hs1", "@b:hs2"])),
        ("others".to_owned(), users(&["@a:hs1", "nobody"])),
    ]);
    assert_eq!(text_field(&body, "name").unwrap().as_deref(), Some("N"));
    assert_eq!(text_field(&body, "topic").unwrap(), None);
    assert_eq!(text_field(&body, "absent").unwrap(), None);
    let e = text_field(&body, "preset").unwrap_err();
    assert_eq!((e.status, e.errcode.as_str(), e.message.as_str()), (400, "M_BAD_JSON", "preset: expected a string"));
    assert!(flag_field(&body, "is_direct").unwrap());
    assert!(!flag_field(&body, "absent").unwrap());
    assert_eq!(flag_field(&body, "name").unwrap_err().message, "name: expected a boolean");
    assert_eq!(users_field(&body, "invite").unwrap(), vec!["@a:hs1", "@b:hs2"]);
    assert!(users_field(&body, "absent").unwrap().is_empty());
    for key in ["others", "name"] {
        let e = users_field(&body, key).unwrap_err();
        assert_eq!(e.message, format!("{key}: expected a list of user IDs"));
    }
}

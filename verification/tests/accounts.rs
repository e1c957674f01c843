use saltator_cs_api::error::{ApiError, UserError};
use saltator_cs_api::extract::{AsAuth, Registration};
use saltator_cs_api::json::{put, tidy_fields, Json};
use saltator_cs_api::routes::to_device::SendEvent::{Failed, Seen, Written};
use saltator_cs_api::routes::account::{
    check_settable, create_filter, encode_component, fetch_remote_profile, get_filter,
    get_presence, get_profile,
    load_profile, logged_out, presence_edu, propagate_profile, propagated_content,
    remote_profile_failed, remote_profile_path, request_id, require_own, stored, takes_password,
    unknown_user, update_device, DeviceChange, OwnAction, Profile, ProfileStep, RoomMembership,
    Sensitive,
};
use saltator_cs_api::routes::admin::{
    create_registration_token, deactivate_user, default_true, room_target, send_notice,
    shutdown_room, target, CreateTokenBody, DeactivateBody, NoticeBody, ShutdownBody,
};
use saltator_cs_api::routes::appservice::{ping, ping_answer, PingOutcome};
use saltator_cs_api::routes::backup::{
    algorithm_and_auth_data, create_version, current_version, flatten_keys, get_keys_answer,
    parse_version, put_keys_answer, version_fault, version_meta_json, BackupVersionMeta, KeyRow,
};
use saltator_cs_api::routes::edu::{broadcast_receipt, send_edu};
use saltator_cs_api::routes::health::{live, ready};
use saltator_cs_api::routes::keys::{
    add_user, claim_answer, claim_keys, device_list_deltas, failure, is_local, key_changes,
    key_counts, merge_answer, query_answer, query_keys, shape_claimed, shares_room, upload_keys,
    ClaimedKey, DeltaFacts, KeyChange,
};
use saltator_cs_api::routes::session::{
    appservice_login_user, check_login_namespace, exclusive, get_capabilities,
    get_supported_versions, is_reserved_notices, limit_key, random_localpart, register,
    register_appservice, register_available, registration_token_validity, well_known_client,
    Identifier, RegisterFacts, RegisterStep,
};
use saltator_cs_api::routes::to_device::{
    direct_edu, next_phase, send_to_device, to_device_scope, SendEvent, SendPhase, Sending,
    UserMessages,
};

fn t(x: &str) -> String {
    x.to_owned()
}

fn js(x: &str) -> Json {
    Json::Str(x.to_owned())
}

fn obj(fields: Vec<(&str, Json)>) -> Json {
    Json::Object(map(fields))
}

fn map(fields: Vec<(&str, Json)>) -> Vec<(String, Json)> {
    fields.into_iter().map(|(k, v)| (k.to_owned(), v)).collect()
}

/// A value as compact JSON text, its fields in the order of their names.
fn show(j: &Json) -> String {
    match j {
        Json::Null => t("null"),
        Json::Bool(b) => b.to_string(),
        Json::Int(i) => i.to_string(),
        Json::Number(n) => n.clone(),
        Json::Str(s) => format!("{s:?}"),
        Json::Array(items) => {
            format!("[{}]", items.iter().map(show).collect::<Vec<String>>().join(","))
        }
        Json::Object(m) => show_map(m),
    }
}

fn show_map(m: &Vec<(String, Json)>) -> String {
    let mut sorted: std::collections::BTreeMap<&String, &Json> = std::collections::BTreeMap::new();
    for (k, v) in m {
        sorted.insert(k, v);
    }
    let parts: Vec<String> = sorted.iter().map(|(k, v)| format!("{k:?}:{}", show(v))).collect();
    format!("{{{}}}", parts.join(","))
}

fn query(pairs: &[(&str, &str)]) -> Vec<(String, String)> {
    pairs.iter().map(|(k, v)| (t(k), t(v))).collect()
}

#[test]
fn the_server_describes_itself() {
    let versions = get_supported_versions();
    assert_eq!(versions.len(), 19);
    assert_eq!((versions[0].as_str(), versions[18].as_str()), ("v1.1", "v1.19"));
    assert_eq!(
        show(&well_known_client(Some("https://hs1")).unwrap()),
        "{\"m.homeserver\":{\"base_url\":\"https://hs1\"}}"
    );
    assert_eq!(well_known_client(None).unwrap_err().message, "well-known not configured");
    assert_eq!(
        show(&get_capabilities("11", &vec![t("11"), t("12")])),
        "{\"capabilities\":{\"m.change_password\":{\"enabled\":true},\"m.room_versions\":\
         {\"available\":{\"11\":\"stable\",\"12\":\"stable\"},\"default\":\"11\"}}}"
    );
}

#[test]
fn registration_is_checked_in_order() {
    let open = RegisterFacts {
        guest: false,
        appservice: false,
        enabled: true,
        reserved: false,
        claimed: false,
    };
    match register(open, "ann").unwrap() {
        RegisterStep::Authenticate(id) => assert_eq!(id, "register:ann"),
        other => panic!("{other:?}"),
    }
    let fault = |f: RegisterFacts| {
        let e = register(f, "ann").unwrap_err();
        (e.status, e.errcode)
    };
    assert_eq!(
        fault(RegisterFacts { guest: true, appservice: true, ..open }),
        (403, t("M_GUEST_ACCESS_FORBIDDEN"))
    );
    assert!(matches!(
        register(RegisterFacts { appservice: true, enabled: false, ..open }, "ann"),
        Ok(RegisterStep::Appservice)
    ));
    assert_eq!(fault(RegisterFacts { enabled: false, reserved: true, ..open }), (403, t("M_FORBIDDEN")));
    assert_eq!(fault(RegisterFacts { reserved: true, claimed: true, ..open }), (400, t("M_USER_IN_USE")));
    assert_eq!(fault(RegisterFacts { claimed: true, ..open }), (400, t("M_EXCLUSIVE")));
    assert!(is_reserved_notices(Some("@n:x"), Some("@n:x")));
    assert!(!is_reserved_notices(Some("@n:x"), None) && !is_reserved_notices(None, Some("@n:x")));
    assert_eq!(exclusive("m").errcode, "M_EXCLUSIVE");
}

#[test]
fn appservices_register_their_own() {
    let ok = register_appservice(Some(t("ghost")), false, Ok(()), true);
    assert_eq!(ok.unwrap(), "ghost");
    let fault = |name: Option<String>, reserved: bool, canonical: Result<(), ApiError>, inside: bool| {
        register_appservice(name, reserved, canonical, inside).unwrap_err().errcode
    };
    assert_eq!(fault(None, true, Ok(()), true), "M_MISSING_PARAM");
    assert_eq!(fault(Some(t("n")), true, Err(ApiError::bad_json("x")), true), "M_USER_IN_USE");
    assert_eq!(fault(Some(t("n")), false, Err(ApiError::bad_json("x")), true), "M_BAD_JSON");
    assert_eq!(fault(Some(t("n")), false, Ok(()), false), "M_EXCLUSIVE");
    assert!(check_login_namespace(true).is_ok());
    assert_eq!(
        check_login_namespace(false).unwrap_err().message,
        "user is not covered by this application service's namespaces"
    );
    assert_eq!(
        appservice_login_user(Some(Identifier::Matrix(t("a"))), Some(t("b"))).unwrap(),
        "a"
    );
    assert_eq!(appservice_login_user(None, Some(t("b"))).unwrap(), "b");
    for unsupported in [
        appservice_login_user(Some(Identifier::Other), Some(t("b"))),
        appservice_login_user(None, None),
    ] {
        assert_eq!(unsupported.unwrap_err().message, "Unsupported identifier type");
    }
}

#[test]
fn names_are_free_or_taken() {
    assert!(register_available(true, Ok(()), false, false, true).unwrap());
    let fault = |enabled: bool, canonical: Result<(), ApiError>, reserved: bool, exists: bool| {
        register_available(enabled, canonical, reserved, exists, false).unwrap_err().errcode
    };
    assert_eq!(fault(false, Ok(()), true, true), "M_FORBIDDEN");
    assert_eq!(fault(true, Err(ApiError::bad_json("x")), true, true), "M_BAD_JSON");
    assert_eq!(fault(true, Ok(()), true, false), "M_USER_IN_USE");
    assert_eq!(fault(true, Ok(()), false, true), "M_USER_IN_USE");
    assert_eq!(fault(true, Ok(()), false, false), "M_EXCLUSIVE");
    assert_eq!(show(&registration_token_validity(Some(true))), "{\"valid\":true}");
    assert_eq!(show(&registration_token_validity(Some(false))), "{\"valid\":false}");
    assert_eq!(show(&registration_token_validity(None)), "{\"valid\":false}");
    assert_eq!(random_localpart("Ab-C_1é234567890xyz"), "abc123456789");
    assert_eq!(random_localpart("--"), "");
    assert_eq!(limit_key(Some(t("@a:x")), "A"), "@a:x");
    assert_eq!(limit_key(None, "ÄB"), "äb");
}

#[test]
fn profiles_are_found() {
    assert_eq!(load_profile("@a:hs2", "hs1", true, None), ProfileStep::AskServer);
    assert_eq!(load_profile("@a:hs1", "hs1", true, None), ProfileStep::Local);
    assert_eq!(load_profile("@a:hs1", "hs1", false, None), ProfileStep::AskAppservice);
    assert_eq!(load_profile("@a:hs1", "hs1", true, Some(true)), ProfileStep::Local);
    assert_eq!(load_profile("@a:hs1", "hs1", false, Some(true)), ProfileStep::Unknown);
    assert_eq!(load_profile("@a:hs1", "hs1", false, Some(false)), ProfileStep::Unknown);
    assert_eq!((unknown_user().status, unknown_user().message), (404, t("Unknown user")));
    assert_eq!(
        remote_profile_path("@a:hs2"),
        "/_matrix/federation/v1/query/profile?user_id=%40a%3Ahs2"
    );
    assert_eq!(remote_profile_failed("x").message, "remote profile query failed: x");
    assert_eq!(encode_component("@é"), "%40%C3%A9");
    let p = fetch_remote_profile(&obj(vec![("displayname", js("A")), ("avatar_url", Json::Int(1))]));
    assert_eq!((p.displayname.as_deref(), p.avatar_url.as_deref()), (Some("A"), None));
    assert_eq!(show(&get_profile(&p)), "{\"displayname\":\"A\"}");
    assert_eq!(
        show(&propagated_content(&Profile { displayname: None, avatar_url: Some(t("mxc://a/b")) })),
        "{\"avatar_url\":\"mxc://a/b\",\"membership\":\"join\"}"
    );
    let m = |room: &str, membership: &str| RoomMembership { room_id: t(room), membership: t(membership) };
    assert_eq!(
        propagate_profile(&vec![m("!a:x", "join"), m("!b:x", "leave"), m("bad", "join")]),
        vec!["!a:x"]
    );
}

#[test]
fn what_is_ones_own() {
    assert!(require_own("@a:x", "@a:x", OwnAction::SetProfile).is_ok());
    for (action, message) in [
        (OwnAction::SetProfile, "Cannot set another user's profile"),
        (OwnAction::SetData, "Cannot set another user's data"),
        (OwnAction::ReadData, "Cannot read another user's data"),
        (OwnAction::CreateFilter, "Cannot create another user's filter"),
        (OwnAction::ReadFilter, "Cannot read another user's filter"),
        (OwnAction::SetPresence, "Cannot set another user's presence"),
    ] {
        let e = require_own("@b:x", "@a:x", action).unwrap_err();
        assert_eq!((e.status, e.message.as_str()), (403, message));
    }
    assert!(check_settable("m.direct").is_ok());
    let e = check_settable("m.push_rules").unwrap_err();
    assert_eq!((e.status, e.errcode.as_str()), (405, "M_BAD_JSON"));
    assert_eq!(e.message, "m.push_rules cannot be set directly");
    assert_eq!(stored(Some(3), "m").unwrap(), 3);
    assert_eq!(stored(None::<u8>, "Unknown filter").unwrap_err().message, "Unknown filter");
}

#[test]
fn operations_keep_apart() {
    let ids = vec![
        request_id("@a:x", &Sensitive::DeleteDevice(t("D"))),
        request_id("@a:x", &Sensitive::ChangePassword),
        request_id("@a:x", &Sensitive::Deactivate),
    ];
    assert_eq!(ids, vec!["delete_device:@a:x:D", "change_password:@a:x", "deactivate:@a:x"]);
    assert!(!takes_password(&Sensitive::DeleteDevice(t("D")), true));
    assert!(takes_password(&Sensitive::DeleteDevice(t("D")), false));
    assert!(takes_password(&Sensitive::Deactivate, true));
    let devices = vec![t("A"), t("B"), t("C")];
    assert_eq!(logged_out(&devices, "B", true), vec!["A", "C"]);
    assert!(logged_out(&devices, "B", false).is_empty());
    assert_eq!(update_device(true), DeviceChange::Upsert);
    assert_eq!(update_device(false), DeviceChange::Rename);
}

#[test]
fn device_deletions_keep_apart() {
    let of = |user: &str, device: &str| request_id(user, &Sensitive::DeleteDevice(t(device)));
    assert_ne!(of("@a:x", "D"), of("@b:x", "D"));
    assert_ne!(of("@a:x", "D"), of("@a:x", "E"));
    assert_ne!(of("@a:x", "x:D"), of("@a:x", "D"));
}

#[test]
fn presence_is_told() {
    assert_eq!(
        show(&presence_edu("@a:x", "online", None)),
        "{\"content\":{\"push\":[{\"currently_active\":true,\"last_active_ago\":0,\
         \"presence\":\"online\",\"status_msg\":null,\"user_id\":\"@a:x\"}]},\
         \"edu_type\":\"m.presence\"}"
    );
    let p = get_presence(None);
    assert_eq!((p.presence.as_str(), p.last_active_ago_ms, p.currently_active), ("offline", None, None));
    let p = get_presence(Some((t("unavailable"), Some(t("away")), 40)));
    assert_eq!(p.status_msg.as_deref(), Some("away"));
    assert_eq!((p.last_active_ago_ms, p.currently_active), (Some(40), Some(false)));
}

fn device_keys(user: &str, device: &str) -> Json {
    obj(vec![
        ("user_id", js(user)),
        ("device_id", js(device)),
        ("algorithms", Json::Array(vec![])),
        ("keys", obj(vec![])),
        ("signatures", obj(vec![])),
    ])
}

#[test]
fn keys_belong_to_the_session() {
    let body = |keys: Json| map(vec![("device_keys", keys), ("one_time_keys", obj(vec![("a:1", js("k"))]))]);
    let up = upload_keys(&body(device_keys("@a:x", "D")), "@a:x", "D").unwrap();
    assert!(up.device_keys.is_some());
    assert_eq!(show_map(&up.one_time_keys), "{\"a:1\":\"k\"}");
    let none = upload_keys(&map(vec![("one_time_keys", Json::Int(1))]), "@a:x", "D").unwrap();
    assert!(none.device_keys.is_none() && none.one_time_keys.is_empty());
    let fault = |keys: Json| upload_keys(&body(keys), "@a:x", "D").unwrap_err().message;
    assert_eq!(fault(js("k")), "device_keys is not an object");
    assert_eq!(fault(obj(vec![("user_id", js("@a:x"))])), "device_keys missing device_id");
    assert_eq!(fault(device_keys("@b:x", "D")), "device_keys do not belong to this session");
    assert_eq!(fault(device_keys("@a:x", "E")), "device_keys do not belong to this session");
    assert_eq!(
        show(&key_counts(
            &vec![(t("curve25519"), 0), (t("signed"), 7)],
            &vec![t("signed:A"), t("other:B"), t("other:C")]
        )),
        "{\"one_time_key_counts\":{\"curve25519\":0,\"other\":0,\"signed\":7}}"
    );
}

#[test]
fn keys_are_queried_where_they_are() {
    assert!(is_local("@a:hs1", "hs1") && is_local("nobody", "hs1") && !is_local("@a:hs2", "hs1"));
    let stored_keys = map(vec![("@a:hs1", obj(vec![("D", js("kd")), ("E", js("ke"))]))]);
    let asked = map(vec![
        ("@a:hs1", Json::Array(vec![js("E"), Json::Int(1)])),
        ("@n:hs1", Json::Array(vec![])),
        ("@b:hs2", Json::Array(vec![js("X")])),
        ("@c:hs2", Json::Array(vec![])),
    ]);
    let answer = query_keys(&asked, "hs1", &stored_keys).unwrap();
    assert_eq!(show_map(&answer.found), "{\"@a:hs1\":{\"E\":\"ke\"},\"@n:hs1\":{}}");
    assert_eq!(show_map(&answer.remote), "{\"hs2\":{\"@b:hs2\":[\"X\"],\"@c:hs2\":[]}}");
    let all = query_keys(&map(vec![("@a:hs1", Json::Array(vec![]))]), "hs1", &stored_keys).unwrap();
    assert_eq!(show_map(&all.found), "{\"@a:hs1\":{\"D\":\"kd\",\"E\":\"ke\"}}");
    assert_eq!(
        query_keys(&map(vec![("@a:hs1", js("D"))]), "hs1", &stored_keys).unwrap_err().message,
        "device_keys values must be lists"
    );
    let merged = merge_answer(
        map(vec![("@a:hs1", Json::Int(1))]),
        &obj(vec![("device_keys", obj(vec![("@b:hs2", Json::Int(2))]))]),
        "device_keys",
    );
    assert_eq!(show_map(&merged), "{\"@a:hs1\":1,\"@b:hs2\":2}");
    assert_eq!(show(&failure(Some("x"))), "{\"errcode\":\"M_UNKNOWN\",\"error\":\"x\"}");
    assert_eq!(
        show(&failure(None)),
        "{\"errcode\":\"M_UNKNOWN\",\"error\":\"Federation is disabled\"}"
    );
    assert_eq!(show(&query_answer(None)), "{\"device_keys\":{}}");
    assert_eq!(
        show(&query_answer(Some((vec![], map(vec![("hs2", Json::Null)]))))),
        "{\"device_keys\":{},\"failures\":{\"hs2\":null},\"master_keys\":{},\
         \"self_signing_keys\":{},\"user_signing_keys\":{}}"
    );
    let mut remote: Vec<(String, Json)> = vec![];
    add_user(&mut remote, "hs2", "@b:hs2", js("D"));
    add_user(&mut remote, "hs2", "@c:hs2", js("E"));
    assert_eq!(show_map(&remote), "{\"hs2\":{\"@b:hs2\":\"D\",\"@c:hs2\":\"E\"}}");
}

#[test]
fn keys_are_claimed_once() {
    let plan = claim_keys(
        &map(vec![
            ("@a:hs1", obj(vec![("D", js("signed")), ("E", Json::Int(1))])),
            ("@b:hs2", obj(vec![("X", js("signed"))])),
            ("@c:hs1", js("junk")),
        ]),
        "hs1",
    );
    assert_eq!(plan.claims.len(), 1);
    assert_eq!(
        (plan.claims[0].user_id.as_str(), plan.claims[0].device_id.as_str(), plan.claims[0].algorithm.as_str()),
        ("@a:hs1", "D", "signed")
    );
    assert_eq!(show_map(&plan.remote), "{\"hs2\":{\"@b:hs2\":{\"X\":\"signed\"}}}");
    let key = |device: &str, id: &str| ClaimedKey {
        user_id: t("@a:hs1"),
        device_id: t(device),
        key_id: t(id),
        key: js(id),
    };
    assert_eq!(
        show_map(&shape_claimed(&vec![key("D", "k1"), key("E", "k2"), key("D", "k3")])),
        "{\"@a:hs1\":{\"D\":{\"k1\":\"k1\",\"k3\":\"k3\"},\"E\":{\"k2\":\"k2\"}}}"
    );
    assert_eq!(show(&claim_answer(None)), "{\"one_time_keys\":{}}");
    assert_eq!(
        show(&claim_answer(Some((vec![], vec![])))),
        "{\"failures\":{},\"one_time_keys\":{}}"
    );
}

fn change(user: &str, room: Option<(&str, bool)>) -> KeyChange {
    KeyChange { user_id: t(user), room: room.map(|(r, j)| (t(r), j)) }
}

fn delta_facts() -> DeltaFacts {
    DeltaFacts {
        user_id: t("@me:x"),
        my_rooms: vec![t("!r:x")],
        sharing: vec![t("@b:x")],
        members: vec![(t("!r:x"), vec![t("@me:x"), t("@b:x"), t("@c:x")])],
    }
}

#[test]
fn device_lists_change() {
    let deltas = |log: Vec<KeyChange>| {
        let d = device_list_deltas(&log, &delta_facts());
        (d.changed, d.left)
    };
    assert_eq!(deltas(vec![change("@b:x", None), change("@z:x", None)]), (vec![t("@b:x")], vec![]));
    assert_eq!(deltas(vec![change("@me:x", None)]), (vec![t("@me:x")], vec![]));
    assert_eq!(deltas(vec![change("@z:x", Some(("!r:x", true)))]), (vec![t("@z:x")], vec![]));
    assert_eq!(deltas(vec![change("@z:x", Some(("!q:x", true)))]), (vec![], vec![]));
    assert_eq!(deltas(vec![change("@z:x", Some(("!r:x", false)))]), (vec![], vec![t("@z:x")]));
    assert_eq!(deltas(vec![change("@b:x", Some(("!r:x", false)))]), (vec![], vec![]));
    // Our own join and leave concern everybody there.
    assert_eq!(
        deltas(vec![change("@me:x", Some(("!r:x", true)))]),
        (vec![t("@b:x"), t("@c:x")], vec![])
    );
    assert_eq!(deltas(vec![change("@me:x", Some(("!r:x", false)))]), (vec![], vec![t("@c:x")]));
    // A leave and a join again net to a change.
    assert_eq!(
        deltas(vec![change("@z:x", Some(("!r:x", false))), change("@z:x", Some(("!r:x", true)))]),
        (vec![t("@z:x")], vec![])
    );
    let m = |room: &str, membership: &str| RoomMembership { room_id: t(room), membership: t(membership) };
    assert!(shares_room(&vec![m("!r:x", "join")], &vec![t("!r:x")]));
    assert!(!shares_room(&vec![m("!r:x", "leave"), m("!q:x", "join")], &vec![t("!r:x")]));
    assert_eq!(key_changes(&vec![]).unwrap(), (0, u64::MAX));
    assert_eq!(key_changes(&query(&[("from", "s1_2_3_4"), ("to", "s5_6_7_8")])).unwrap(), (2, 6));
    assert_eq!(key_changes(&query(&[("from", "x")])).unwrap_err().message, "Invalid sync token");
}

#[test]
fn messages_go_to_devices() {
    let s = Sending { event_type: t("m.x"), sender: t("@me:hs1"), txn_id: t("t1") };
    let all = vec![
        UserMessages { user_id: t("@a:hs1"), messages: map(vec![("D", js("c1")), ("*", js("c2"))]) },
        UserMessages { user_id: t("@b:hs2"), messages: map(vec![("X", js("c3"))]) },
        UserMessages { user_id: t("@c:hs2"), messages: vec![] },
    ];
    let plan = send_to_device(&s, "hs1", &all);
    assert_eq!(plan.local.len(), 2);
    assert_eq!((plan.local[1].user_id.as_str(), plan.local[1].device_id.as_str()), ("@a:hs1", "*"));
    assert_eq!(
        show(&plan.local[0].event),
        "{\"content\":\"c1\",\"sender\":\"@me:hs1\",\"type\":\"m.x\"}"
    );
    assert_eq!(show_map(&plan.remote), "{\"hs2\":{\"@b:hs2\":{\"X\":\"c3\"}}}");
    assert_eq!(to_device_scope("m.x"), "to_device\0m.x");
    assert_eq!(
        show(&direct_edu(&s, obj(vec![]))),
        "{\"content\":{\"message_id\":\"@me:hs1/t1\",\"messages\":{},\"sender\":\"@me:hs1\",\
         \"type\":\"m.x\"},\"edu_type\":\"m.direct_to_device\"}"
    );
}

#[test]
fn edus_are_framed() {
    let (path, txn) = send_edu("hs1", js("e"), 77);
    assert_eq!(path, "/_matrix/federation/v1/send/edu77");
    assert_eq!(show(&txn), "{\"edus\":[\"e\"],\"origin\":\"hs1\",\"origin_server_ts\":77}");
    assert_eq!(
        show(&broadcast_receipt("!r:x", "@a:x", "$e", Some("main"), 5)),
        "{\"content\":{\"!r:x\":{\"m.read\":{\"@a:x\":{\"data\":{\"thread_id\":\"main\",\"ts\":5},\
         \"event_ids\":[\"$e\"]}}}},\"edu_type\":\"m.receipt\"}"
    );
    assert!(!show(&broadcast_receipt("!r:x", "@a:x", "$e", None, 5)).contains("thread_id"));
}

#[test]
fn probes_are_answered() {
    let (status, body) = live(true);
    assert_eq!((status, show(&body)), (200, t("{\"status\":\"ok\"}")));
    let (status, body) = live(false);
    assert_eq!((status, show(&body)), (503, t("{\"status\":\"error\"}")));
    let (status, body) = ready(None);
    assert_eq!((status, show(&body)), (200, t("{\"status\":\"ready\"}")));
    let (status, body) = ready(Some(("draining", "soon")));
    assert_eq!(
        (status, show(&body)),
        (503, t("{\"detail\":\"soon\",\"reason\":\"draining\",\"status\":\"not_ready\"}"))
    );
}

#[test]
fn appservices_ping_themselves() {
    let as_auth = || AsAuth {
        reg: Some(Registration { id: t("irc"), sender_localpart: t("bot"), rate_limited: true }),
        token_present: true,
    };
    let body = map(vec![("transaction_id", js("t1"))]);
    assert_eq!(ping(as_auth(), "irc", true, &body).unwrap(), Some(t("t1")));
    assert_eq!(ping(as_auth(), "irc", true, &vec![]).unwrap(), None);
    let fault = |auth: AsAuth, id: &str, has_url: bool, body: &Vec<(String, Json)>| {
        let e = ping(auth, id, has_url, body).unwrap_err();
        (e.status, e.errcode)
    };
    let nobody = AsAuth { reg: None, token_present: false };
    assert_eq!(fault(nobody, "irc", true, &body), (401, t("M_MISSING_TOKEN")));
    assert_eq!(fault(as_auth(), "xmpp", true, &body), (403, t("M_FORBIDDEN")));
    assert_eq!(fault(as_auth(), "irc", false, &body), (400, t("M_URL_NOT_SET")));
    assert_eq!(
        fault(as_auth(), "irc", true, &map(vec![("transaction_id", Json::Int(1))])),
        (400, t("M_BAD_JSON"))
    );
    assert_eq!(
        show(&ping_answer(PingOutcome::Answered { duration_ms: 12 }).unwrap()),
        "{\"duration_ms\":12}"
    );
    let e = ping_answer(PingOutcome::BadStatus { status: 500, body: t("oops") }).unwrap_err();
    assert_eq!(
        (e.status, e.errcode.as_str(), show_map(&e.extra)),
        (502, "M_BAD_STATUS", t("{\"body\":\"oops\",\"status\":500}"))
    );
    let e = ping_answer(PingOutcome::ConnectionFailed).unwrap_err();
    assert_eq!((e.status, e.errcode.as_str()), (502, "M_CONNECTION_FAILED"));
}

#[test]
fn backups_have_versions() {
    assert_eq!(parse_version("12").unwrap(), 12);
    assert_eq!(parse_version("x").unwrap_err().message, "Invalid backup version");
    let meta = BackupVersionMeta { algorithm: t("m.megolm"), auth_data: obj(vec![]), count: 3, etag: 9 };
    assert_eq!(
        show(&version_meta_json(2, Some(meta)).unwrap()),
        "{\"algorithm\":\"m.megolm\",\"auth_data\":{},\"count\":3,\"etag\":\"9\",\"version\":\"2\"}"
    );
    let e = version_meta_json(2, None).unwrap_err();
    assert_eq!((e.status, e.message.as_str()), (404, "Unknown backup version"));
    assert_eq!(version_fault(UserError::NotFound, "m").message, "Unknown backup version");
    assert_eq!(version_fault(UserError::Internal, "disk").message, "disk");
    let (algorithm, auth) =
        algorithm_and_auth_data(&map(vec![("algorithm", js("a")), ("auth_data", js("d"))])).unwrap();
    assert_eq!((algorithm.as_str(), show(&auth)), ("a", t("\"d\"")));
    assert_eq!(algorithm_and_auth_data(&vec![]).unwrap_err().message, "Missing algorithm");
    assert_eq!(
        algorithm_and_auth_data(&map(vec![("algorithm", js("a"))])).unwrap_err().message,
        "Missing auth_data"
    );
    assert_eq!(show(&create_version(4)), "{\"version\":\"4\"}");
}

#[test]
fn writes_go_to_the_current_version() {
    let q = query(&[("version", "2")]);
    assert_eq!(current_version(&q, Some(2), true).unwrap(), 2);
    assert_eq!(current_version(&q, Some(3), false).unwrap(), 2);
    let e = current_version(&q, Some(3), true).unwrap_err();
    assert_eq!((e.status, e.errcode.as_str()), (403, "M_WRONG_ROOM_KEYS_VERSION"));
    assert_eq!(show_map(&e.extra), "{\"current_version\":\"3\"}");
    assert!(current_version(&q, None, true).unwrap_err().extra.is_empty());
    assert_eq!(
        current_version(&vec![], Some(2), true).unwrap_err().message,
        "Missing version parameter"
    );
}

#[test]
fn put_keys_read_back() {
    let body = map(vec![(
        "rooms",
        obj(vec![
            ("!a:x", obj(vec![("sessions", obj(vec![("s1", js("k1")), ("s2", js("k2"))]))])),
            ("!b:x", obj(vec![("sessions", obj(vec![("s3", js("k3"))]))])),
            ("!c:x", js("junk")),
        ]),
    )]);
    let rows = flatten_keys(&body, None, None);
    assert_eq!(rows.len(), 3);
    assert_eq!(
        show(&get_keys_answer(Some(rows), None, None).unwrap()),
        "{\"rooms\":{\"!a:x\":{\"sessions\":{\"s1\":\"k1\",\"s2\":\"k2\"}},\
         \"!b:x\":{\"sessions\":{\"s3\":\"k3\"}}}}"
    );
    let room = map(vec![("sessions", obj(vec![("s1", js("k1"))]))]);
    let rows = flatten_keys(&room, Some("!a:x"), None);
    assert_eq!(
        show(&get_keys_answer(Some(rows), Some("!a:x"), None).unwrap()),
        "{\"sessions\":{\"s1\":\"k1\"}}"
    );
    let rows = flatten_keys(&map(vec![("d", Json::Int(1))]), Some("!a:x"), Some("s1"));
    assert_eq!(
        show(&get_keys_answer(Some(rows), Some("!a:x"), Some("s1")).unwrap()),
        "{\"d\":1}"
    );
    assert_eq!(
        get_keys_answer(Some(vec![]), Some("!a:x"), Some("s1")).unwrap_err().message,
        "No backed-up key for this session"
    );
    let none: Vec<KeyRow> = vec![];
    assert_eq!(show(&get_keys_answer(Some(none), Some("!a:x"), None).unwrap()), "{\"sessions\":{}}");
    assert_eq!(
        get_keys_answer(None, None, None).unwrap_err().message,
        "Unknown backup version"
    );
    assert_eq!(show(&put_keys_answer(3, 9)), "{\"count\":3,\"etag\":\"9\"}");
}

#[test]
fn admin_targets_are_parsed() {
    assert_eq!(target("@a:x").unwrap(), "@a:x");
    assert_eq!(
        target("a\"b").unwrap_err().message,
        "\"a\\\"b\" is not a user id: leading sigil is incorrect or missing"
    );
    assert_eq!(room_target("!r").unwrap(), "!r");
    assert!(room_target("r").unwrap_err().message.starts_with("\"r\" is not a room id: "));
    assert!(default_true());
    assert!(deactivate_user(Some(DeactivateBody { erase: true })));
    assert!(!deactivate_user(None));
    assert_eq!(shutdown_room(None), (true, None));
    assert_eq!(
        shutdown_room(Some(ShutdownBody { block: false, reason: Some(t("r")) })),
        (false, Some(t("r")))
    );
    assert!(create_registration_token(None).token.is_none());
    assert_eq!(
        create_registration_token(Some(CreateTokenBody {
            token: Some(t("x")),
            uses_allowed: Some(1),
            expiry_ts: None
        }))
        .uses_allowed,
        Some(1)
    );
    assert!(send_notice(NoticeBody { content: obj(vec![]) }).is_ok());
    assert_eq!(
        send_notice(NoticeBody { content: js("x") }).unwrap_err().message,
        "content must be an object"
    );
}

#[test]
fn each_server_gets_one_request() {
    let s = Sending { event_type: t("m.x"), sender: t("@a:hs1"), txn_id: t("7") };
    let to = |user: &str| UserMessages { user_id: t(user), messages: vec![(t("D"), js("hi"))] };
    let plan = send_to_device(&s, "hs1", &vec![to("@b:hs2"), to("@c:hs3"), to("@d:hs2"), to("@e:hs1")]);
    let servers: Vec<&str> = plan.remote.iter().map(|(name, _)| name.as_str()).collect();
    assert_eq!(servers, vec!["hs2", "hs3"]);
    assert_eq!(show(&plan.remote[0].1), "{\"@b:hs2\":{\"D\":\"hi\"},\"@d:hs2\":{\"D\":\"hi\"}}");
    assert_eq!(plan.local.len(), 1);
    let mut fields = vec![(t("a"), Json::Int(1))];
    put(&mut fields, t("b"), Json::Int(2));
    put(&mut fields, t("a"), Json::Int(3));
    assert_eq!(fields.len(), 2);
    let twice = vec![(t("a"), Json::Int(1)), (t("b"), Json::Int(2)), (t("a"), Json::Int(3))];
    assert_eq!(show(&Json::Object(tidy_fields(&twice))), "{\"a\":3,\"b\":2}");
}

#[test]
fn a_transaction_is_marked_last() {
    let run = |events: &[SendEvent]| events.iter().fold(SendPhase::Ask, |p, e| next_phase(p, *e));
    assert_eq!(run(&[Seen(true)]), SendPhase::Done);
    assert_eq!(run(&[Seen(true), Written, Failed]), SendPhase::Done);
    assert_eq!(run(&[Seen(false)]), SendPhase::Queue);
    assert_eq!(run(&[Seen(false), Written]), SendPhase::Forward);
    assert_eq!(run(&[Seen(false), Written, Written]), SendPhase::Mark);
    assert_eq!(run(&[Seen(false), Written, Written, Written]), SendPhase::Done);
    assert_eq!(run(&[Seen(false), Written, Failed, Written, Written]), SendPhase::Failed);
    assert_eq!(run(&[Failed]), SendPhase::Failed);
}

#[test]
fn filters_are_stored_as_they_were_understood() {
    let body = r#"{"room":{"timeline":{"limit":5}},"odd":1}"#;
    let stored = create_filter(body).unwrap();
    assert_eq!(stored, r#"{"room":{"timeline":{"limit":5}}}"#);
    assert_eq!(get_filter(Some(&stored)).unwrap(), stored);
    assert_eq!(create_filter("{}").unwrap(), "{}");
    let e = create_filter("[1").unwrap_err();
    assert_eq!((e.status, e.errcode.as_str()), (400, "M_BAD_JSON"));
    let e = get_filter(Some("{\"room\":1}")).unwrap_err();
    assert_eq!((e.status, e.errcode.as_str()), (500, "M_UNKNOWN"));
    let e = get_filter(None).unwrap_err();
    assert_eq!((e.status, e.message.as_str()), (404, "Unknown filter"));
}

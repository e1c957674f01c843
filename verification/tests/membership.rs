use saltator_cs_api::error::ApiError;
use saltator_cs_api::json::Json;
use saltator_cs_api::room_util::StateEvent;
use saltator_cs_api::routes::rooms::membership::{
    accept_handed, after_remote_join, auth_event_ids, begin_join, begin_knock, check_critical, forget_room,
    has_readable_hints, invite_body, invite_path, invite_remote, invite_room_state, invite_user,
    join_auth_closure, join_body, join_by_id_or_alias, join_candidates, join_remote, join_room,
    join_via_hints, join_with_body, joined_rooms, keep_verified, kick_user, knock_member_event,
    knock_remote, knock_room, leave_remote, leave_room, local_pipeline_join, percent_decode,
    project_imported_members, room_hosted_locally, Attempt, HandedEvent, HostingFacts, JoinRoute,
    NextAttempt, RestrictedAuth, RoomRef,
};

fn t(x: &str) -> String {
    x.to_owned()
}

fn js(x: &str) -> Json {
    Json::Str(x.to_owned())
}

fn obj(fields: Vec<(&str, Json)>) -> Json {
    Json::Object(map(fields))
}

fn map(fields: Vec<(&str, Json)>) -> Vec<(String, Json)> {
    fields.into_iter().map(|(k, v)| (k.to_owned(), v)).collect()
}

/// A value as compact JSON text, its fields in the order of their names.
fn show(j: &Json) -> String {
    match j {
        Json::Null => t("null"),
        Json::Bool(b) => b.to_string(),
        Json::Int(i) => i.to_string(),
        Json::Number(n) => n.clone(),
        Json::Str(s) => format!("{s:?}"),
        Json::Array(items) => {
            format!("[{}]", items.iter().map(show).collect::<Vec<String>>().join(","))
        }
        Json::Object(m) => show_map(m),
    }
}

fn show_map(m: &Vec<(String, Json)>) -> String {
    let mut sorted: std::collections::BTreeMap<&String, &Json> = std::collections::BTreeMap::new();
    for (k, v) in m {
        sorted.insert(k, v);
    }
    let parts: Vec<String> = sorted.iter().map(|(k, v)| format!("{k:?}:{}", show(v))).collect();
    format!("{{{}}}", parts.join(","))
}

#[test]
fn membership_join_via_hints_parses_server_name_and_via() {
    assert_eq!(join_via_hints(Some("server_name=hs1")), vec!["hs1"]);
    // The newer `via` alias, a percent-decoded ported name, and dedup
    // across repeats.
    assert_eq!(
        join_via_hints(Some(
            "server_name=host.docker.internal%3A1045&via=hs2&server_name=hs2"
        )),
        vec!["host.docker.internal:1045".to_owned(), "hs2".to_owned()]
    );
    assert!(join_via_hints(None).is_empty());
    assert!(join_via_hints(Some("foo=bar")).is_empty());
}

#[test]
fn rooms_join_via_hints_parses_server_name_and_via() {
    assert_eq!(join_via_hints(Some("server_name=hs1")), vec!["hs1"]);
    assert_eq!(
        join_via_hints(Some(
            "server_name=host.docker.internal%3A1045&via=hs2&server_name=hs2"
        )),
        vec!["host.docker.internal:1045".to_owned(), "hs2".to_owned()]
    );
    assert!(join_via_hints(None).is_empty());
    assert!(join_via_hints(Some("foo=bar")).is_empty());
}

fn member(user: &str, membership: &str) -> StateEvent {
    StateEvent {
        event_type: t("m.room.member"),
        state_key: t(user),
        event_id: format!("${user}"),
        event: Some(obj(vec![
            ("sender", js(user)),
            ("content", obj(vec![("membership", js(membership))])),
        ])),
        rejected: false,
    }
}

fn names(v: &[&str]) -> Vec<String> {
    v.iter().map(|s| t(s)).collect()
}

#[test]
fn hints_that_cut_a_character_are_not_readable() {
    assert!(has_readable_hints("via=%aé2") == false);
    assert!(has_readable_hints("foo=%aé2&via=hs1"));
    assert_eq!(percent_decode("h%C3%A9+%3a%zz"), "hé :%zz");
    assert_eq!(percent_decode("%FE"), "\u{fffd}");
}

#[test]
fn rooms_are_hosted_while_we_take_part() {
    let facts = |joined: &[&str], federation: bool, resident: Option<&str>, remote: &[&str]| {
        HostingFacts {
            meta_exists: true,
            joined: names(joined),
            federation,
            resident: resident.map(t),
            remote_servers: Some(names(remote)),
        }
    };
    assert_eq!(room_hosted_locally(&facts(&["@a:hs1"], true, None, &["hs2"]), "hs1"), (true, true));
    assert_eq!(room_hosted_locally(&facts(&["@a:hs2"], true, None, &["hs2"]), "hs1"), (false, true));
    assert_eq!(room_hosted_locally(&facts(&[], true, Some("hs1"), &["hs2"]), "hs1"), (true, true));
    assert_eq!(room_hosted_locally(&facts(&[], false, None, &["hs2"]), "hs1"), (true, true));
    assert_eq!(room_hosted_locally(&facts(&[], true, None, &[]), "hs1"), (true, true));
    let mut unknown = facts(&["@a:hs1"], true, None, &[]);
    unknown.meta_exists = false;
    assert_eq!(room_hosted_locally(&unknown, "hs1"), (false, false));
    let mut unread = facts(&[], true, None, &[]);
    unread.remote_servers = None;
    assert_eq!(room_hosted_locally(&unread, "hs1"), (true, true));
}

#[test]
fn named_servers_are_the_whole_list() {
    let in_room = names(&["hs3", "hs2"]);
    assert_eq!(
        join_candidates(&names(&["hs2", "hs1", "hs2"]), Some(t("hs4")), &in_room, "hs1"),
        vec!["hs2"]
    );
    // A hint that names us is no route: the room's own servers follow.
    assert_eq!(
        join_candidates(&names(&["hs1"]), Some(t("hs2")), &in_room, "hs1"),
        vec!["hs2", "hs3"]
    );
    assert!(join_candidates(&vec![], Some(t("hs1")), &vec![], "hs1").is_empty());
}

fn fault(n: NextAttempt) -> (u16, String) {
    match n {
        NextAttempt::Fail(e) => (e.status, e.message),
        other => panic!("{other:?}"),
    }
}

#[test]
fn a_refusal_ends_the_join() {
    let two = names(&["hs2", "hs3"]);
    assert_eq!(fault(begin_join(false, &two)), (404, t("Unknown room")));
    assert_eq!(
        fault(begin_join(true, &vec![])),
        (404, t("Cannot determine a server to join through"))
    );
    assert!(matches!(begin_join(true, &two), NextAttempt::Ask { index: 0 }));
    assert!(matches!(join_remote(&two, 0, Attempt::Accepted), NextAttempt::Accepted));
    let refused = |status: Option<u16>| Attempt::Refused { status, text: t("boom") };
    assert!(matches!(join_remote(&two, 0, refused(Some(404))), NextAttempt::Ask { index: 1 }));
    assert_eq!(fault(join_remote(&two, 0, refused(Some(403)))), (403, t("boom")));
    assert_eq!(fault(join_remote(&two, 1, refused(None))), (502, t("remote join failed: boom")));
}

#[test]
fn a_knock_tells_the_verdict() {
    let two = names(&["hs2", "hs3"]);
    assert_eq!(fault(begin_knock(false, &two)), (404, t("Unknown room")));
    assert_eq!(
        fault(begin_knock(true, &vec![])),
        (404, t("Cannot determine a server to knock through"))
    );
    let refused = |status: Option<u16>| Attempt::Refused { status, text: t("boom") };
    assert!(matches!(knock_remote(&two, 0, refused(Some(500))), NextAttempt::Ask { index: 1 }));
    assert_eq!(fault(knock_remote(&two, 0, refused(Some(403)))), (403, t("knock rejected: boom")));
    assert_eq!(fault(knock_remote(&two, 1, refused(Some(404)))), (404, t("Unknown room")));
    assert_eq!(
        fault(knock_remote(&two, 1, refused(Some(500)))),
        (502, t("remote knock failed: boom"))
    );
    let ev = obj(vec![("content", obj(vec![("membership", js("knock"))]))]);
    assert_eq!(
        show(&knock_member_event("@a:hs1", &ev)),
        "{\"content\":{\"membership\":\"knock\"},\"sender\":\"@a:hs1\",\
         \"state_key\":\"@a:hs1\",\"type\":\"m.room.member\"}"
    );
    assert_eq!(
        show(&knock_member_event("@a:hs1", &obj(vec![]))),
        "{\"content\":null,\"sender\":\"@a:hs1\",\"state_key\":\"@a:hs1\",\
         \"type\":\"m.room.member\"}"
    );
    assert_eq!(knock_room(&map(vec![("reason", js("let me in"))])), Some(t("let me in")));
    assert_eq!(knock_room(&map(vec![("reason", Json::Int(1))])), None);
}

fn handed(id: &str, auth: &[&str], verified: bool) -> HandedEvent {
    HandedEvent {
        event_id: Some(t(id)),
        event: obj(vec![(
            "auth_events",
            Json::Array(auth.iter().map(|s| js(s)).collect()),
        )]),
        verified,
    }
}

#[test]
fn what_authorises_a_join_must_verify() {
    let join = handed("$join", &["$pl", "$member"], true).event;
    assert_eq!(auth_event_ids(&join), vec!["$pl", "$member"]);
    let events = vec![
        handed("$pl", &["$create"], true),
        handed("$create", &[], true),
        handed("$member", &["$pl"], true),
        handed("$other", &["$odd"], false),
        handed("$odd", &[], false),
    ];
    let mut closure = join_auth_closure(&join, &events);
    closure.sort();
    assert_eq!(closure, vec!["$create", "$member", "$pl"]);
    // Events outside the closure may fail to verify; they are dropped.
    assert!(check_critical(&closure, &events).is_ok());
    assert_eq!(keep_verified(&events).len(), 3);
    // Each is kept where it was: in the state, or in the auth chain.
    let state = || vec![handed("$pl", &["$create"], true), handed("$other", &["$odd"], false)];
    let chain = |verified: bool| {
        vec![
            handed("$create", &[], verified),
            handed("$odd", &[], false),
            handed("$member", &["$pl"], true),
        ]
    };
    let kept = accept_handed(&join, state(), chain(true)).unwrap();
    let ids = |list: &[Json]| list.iter().map(auth_event_ids).collect::<Vec<_>>();
    assert_eq!(ids(&kept.state), vec![vec![t("$create")]]);
    assert_eq!(ids(&kept.auth_chain), vec![vec![], vec![t("$pl")]]);
    let e = accept_handed(&join, state(), chain(false)).unwrap_err();
    assert_eq!((e.status, e.errcode.as_str()), (502, "M_UNKNOWN"));
    let mut forged = events;
    forged[1].verified = false;
    let e = check_critical(&closure, &forged).unwrap_err();
    assert_eq!(e.status, 502);
    assert_eq!(
        e.message,
        "remote join returned auth-chain state that failed signature verification"
    );
}

#[test]
fn restricted_joins_are_routed() {
    assert!(matches!(
        join_with_body(true, RestrictedAuth::NotNeeded),
        JoinRoute::Local { authoriser: None }
    ));
    match join_with_body(true, RestrictedAuth::Authorised(t("@v:hs1"))) {
        JoinRoute::Local { authoriser } => assert_eq!(authoriser, Some(t("@v:hs1"))),
        other => panic!("{other:?}"),
    }
    match join_with_body(true, RestrictedAuth::FailsConditions) {
        JoinRoute::Refuse(e) => {
            assert_eq!((e.status, e.message.as_str()), (403, "You are not permitted to join this room"))
        }
        other => panic!("{other:?}"),
    }
    assert!(matches!(join_with_body(true, RestrictedAuth::CannotValidate), JoinRoute::Remote));
    assert!(matches!(join_with_body(true, RestrictedAuth::CannotGrant), JoinRoute::Remote));
    assert!(matches!(join_with_body(false, RestrictedAuth::NotNeeded), JoinRoute::Remote));
    // No route to a resident: our own copy, where there is one.
    assert!(matches!(
        after_remote_join(false, true, ApiError::not_found("x")),
        JoinRoute::Local { authoriser: None }
    ));
    assert!(matches!(
        after_remote_join(true, true, ApiError::not_found("x")),
        JoinRoute::Refuse(_)
    ));
    assert!(matches!(
        after_remote_join(false, true, ApiError::forbidden("x")),
        JoinRoute::Refuse(_)
    ));
}

#[test]
fn join_bodies_ride_along() {
    let (reason, rest) = join_body(map(vec![
        ("reason", js("hi")),
        ("third_party_signed", obj(vec![])),
        ("custom", Json::Int(1)),
    ]));
    assert_eq!(reason, Some(t("hi")));
    assert_eq!(show_map(&rest), "{\"custom\":1}");
    assert!(!local_pipeline_join(&vec![member("@a:hs1", "join")], "@a:hs1"));
    assert!(local_pipeline_join(&vec![member("@a:hs1", "invite")], "@a:hs1"));
}

#[test]
fn rooms_are_named_by_id_or_alias() {
    assert!(matches!(join_by_id_or_alias("!r:hs2", "hs1"), Ok(RoomRef::Room)));
    assert!(matches!(join_by_id_or_alias("#a:hs1", "hs1"), Ok(RoomRef::LocalAlias)));
    assert!(matches!(join_by_id_or_alias("#a:hs2", "hs1"), Ok(RoomRef::RemoteAlias)));
    let e = join_by_id_or_alias("@a:hs1", "hs1").unwrap_err();
    assert_eq!((e.status, e.errcode.as_str()), (400, "M_INVALID_PARAM"));
    assert!(e.message.starts_with("room_id_or_alias: ") && e.message.len() > 18);
    assert!(join_room("!r").is_ok());
    let e = join_room("#r:hs1").unwrap_err();
    assert!(e.message.starts_with("room_id: ") && e.message.len() > 9);
}

#[test]
fn leaving_and_forgetting() {
    assert!(leave_room(false, &Some(t("invite"))));
    assert!(!leave_room(true, &Some(t("invite"))));
    assert!(!leave_room(false, &Some(t("join"))));
    assert!(!leave_room(false, &None));
    assert_eq!(leave_remote(true, "@a:hs2:8448", Some(t("hs3"))).unwrap(), "hs2:8448");
    assert_eq!(leave_remote(true, "nobody", Some(t("hs3"))).unwrap(), "hs3");
    assert_eq!(
        leave_remote(true, "nobody", None).unwrap_err().message,
        "Cannot determine a server to leave through"
    );
    assert_eq!(
        leave_remote(false, "@a:hs2", None).unwrap_err().message,
        "Federation is not configured"
    );
    let e = forget_room(&Some(t("join"))).unwrap_err();
    assert_eq!((e.status, e.errcode.as_str()), (400, "M_UNKNOWN"));
    assert!(forget_room(&Some(t("leave"))).is_ok());
    assert!(forget_room(&None).is_ok());
}

#[test]
fn only_those_present_are_kicked() {
    for present in ["join", "invite", "knock"] {
        assert!(kick_user(&vec![member("@a:hs1", present)], "@a:hs1").is_ok());
    }
    for absent in ["leave", "ban"] {
        let e = kick_user(&vec![member("@a:hs1", absent)], "@a:hs1").unwrap_err();
        assert_eq!((e.status, e.message.as_str()), (403, "Cannot kick a user who is not in the room"));
    }
}

#[test]
fn remote_invites_are_cosigned() {
    assert!(invite_user("@a:hs2", "hs1"));
    assert!(!invite_user("@a:hs1", "hs1"));
    assert_eq!(
        invite_path("!r:hs1", "$e"),
        "/_matrix/federation/v2/invite/%21r%3Ahs1/%24e"
    );
    let mut name = member("", "x");
    name.event_type = t("m.room.name");
    name.event = Some(obj(vec![("type", js("m.room.name")), ("depth", Json::Int(1))]));
    let shown = invite_room_state(&vec![member("@a:hs1", "join"), name]);
    assert_eq!(shown.iter().map(show).collect::<Vec<_>>(), vec!["{\"type\":\"m.room.name\"}"]);
    assert_eq!(
        show(&invite_body("11", obj(vec![("type", js("m.room.member"))]), shown)),
        "{\"event\":{\"type\":\"m.room.member\"},\
         \"invite_room_state\":[{\"type\":\"m.room.name\"}],\"room_version\":\"11\"}"
    );
    let signed = obj(vec![("event", obj(vec![("signatures", obj(vec![]))]))]);
    assert_eq!(show(&invite_remote(&signed).unwrap()), "{\"signatures\":{}}");
    // Canonical JSON holds no fractions and no large numbers.
    for odd in [Json::Number(t("1.5")), Json::Int(1 << 53), Json::Array(vec![Json::Int(-(1 << 53))])] {
        assert!(invite_remote(&obj(vec![("event", obj(vec![("depth", odd)]))])).is_err());
    }
    let edge = obj(vec![("event", obj(vec![("depth", Json::Int((1 << 53) - 1))]))]);
    assert!(invite_remote(&edge).is_ok());
    let e = invite_remote(&obj(vec![("event", Json::Null)])).unwrap_err();
    assert_eq!((e.status, e.message.as_str()), (502, "invite response missing signed event"));
}

#[test]
fn imported_members_are_projected() {
    let mut rejected = member("@c:hs1", "join");
    rejected.rejected = true;
    let changes =
        project_imported_members(&vec![member("@a:hs1", "join"), member("@b:hs1", "ban"), rejected]);
    assert_eq!(changes.len(), 2);
    assert_eq!(
        (changes[0].user_id.as_str(), changes[0].membership.as_str(), changes[0].sender.as_str()),
        ("@a:hs1", "join", "@a:hs1")
    );
    assert_eq!(changes[1].event_id, "$@b:hs1");
    assert_eq!(
        joined_rooms(&vec![(t("!a:x"), t("join")), (t("!b:x"), t("leave")), (t("bad"), t("join"))]),
        vec!["!a:x"]
    );
}

use saltator_cs_api::error::ApiError;
use saltator_cs_api::extract::{Auth, Registration};
use saltator_cs_api::json::Json;
use saltator_cs_api::room_util::StateEvent;
use saltator_cs_api::routes::rooms::directory::{
    check_alias_ownership, cleared_canonical, create_alias, delete_alias, directory_chunks,
    get_alias, get_room_aliases, get_visibility, public_chunk, remote_alias_failed, remote_alias_request,
    resolve_alias, resolve_remote_alias, set_visibility, AliasStep, PublicRoom,
};
use saltator_cs_api::routes::rooms::events::{
    canonical_candidates, power_levels_lists_creator, redact_event, redact_scope,
    send_message_event, send_scope, send_state_event, txn_replay, txn_stamp,
    validate_canonical_alias, StateFacts, StateSend,
};

fn t(x: &str) -> String {
    x.to_owned()
}

fn js(x: &str) -> Json {
    Json::Str(x.to_owned())
}

fn obj(fields: Vec<(&str, Json)>) -> Json {
    Json::Object(map(fields))
}

fn map(fields: Vec<(&str, Json)>) -> Vec<(String, Json)> {
    fields.into_iter().map(|(k, v)| (k.to_owned(), v)).collect()
}

/// A value as compact JSON text, its fields in the order of their names.
fn show(j: &Json) -> String {
    match j {
        Json::Null => t("null"),
        Json::Bool(b) => b.to_string(),
        Json::Int(i) => i.to_string(),
        Json::Number(n) => n.clone(),
        Json::Str(s) => format!("{s:?}"),
        Json::Array(items) => {
            format!("[{}]", items.iter().map(show).collect::<Vec<String>>().join(","))
        }
        Json::Object(m) => show_map(m),
    }
}

fn show_map(m: &Vec<(String, Json)>) -> String {
    let mut sorted: std::collections::BTreeMap<&String, &Json> = std::collections::BTreeMap::new();
    for (k, v) in m {
        sorted.insert(k, v);
    }
    let parts: Vec<String> = sorted.iter().map(|(k, v)| format!("{k:?}:{}", show(v))).collect();
    format!("{{{}}}", parts.join(","))
}

fn auth(appservice: bool, masquerade: bool) -> Auth {
    Auth {
        user_id: t("@a:x"),
        device_id: t("D"),
        appservice: if appservice {
            Some(Registration { id: t("as"), sender_localpart: t("bot"), rate_limited: true })
        } else {
            None
        },
        masquerade,
    }
}

#[test]
fn transactions_have_scopes() {
    assert_eq!(send_scope("!r:x", "m.room.message"), "send\0!r:x\0m.room.message");
    assert_eq!(redact_scope("!r:x", "$e"), "redact\0!r:x\0$e");
    assert_ne!(send_scope("!r:x", "a"), send_scope("!r:x", "b"));
    assert_ne!(send_scope("!r:x", "$e"), redact_scope("!r:x", "$e"));
    let s = txn_stamp(&auth(false, false), "scope", "t1", 9);
    assert_eq!(
        (s.user_id.as_str(), s.device_id.as_str(), s.scope.as_str(), s.txn_id.as_str(), s.ts),
        ("@a:x", "D", "scope", "t1", 9)
    );
    assert_eq!(txn_replay(Some(t("$e"))).unwrap(), Some(t("$e")));
    assert_eq!(txn_replay(None).unwrap(), None);
    let e = txn_replay(Some(t("e"))).unwrap_err();
    assert_eq!(e.status, 500);
    assert_ne!(e.message, "e");
}

#[test]
fn only_appservices_set_times() {
    let p = send_message_event(&auth(false, false), Some(5));
    assert!(p.limited && p.ts_override.is_none());
    let p = send_message_event(&auth(true, false), Some(5));
    assert!(!p.limited);
    assert_eq!(p.ts_override, Some(5));
    assert!(send_message_event(&auth(true, true), None).limited);
    assert_eq!(
        show(&redact_event("$e", Some(t("spam")))),
        "{\"reason\":\"spam\",\"redacts\":\"$e\"}"
    );
    assert_eq!(show(&redact_event("$e", None)), "{\"redacts\":\"$e\"}");
}

#[test]
fn canonical_aliases_point_here() {
    let content = obj(vec![
        ("alias", js("#a:x")),
        ("alt_aliases", Json::Array(vec![js("#b:x"), js("")])),
    ]);
    assert_eq!(canonical_candidates(&content), vec!["#a:x", "#b:x", ""]);
    let directory = vec![(t("#a:x"), t("!r:x")), (t("#b:x"), t("!r:x")), (t("#c:x"), t("!q:x"))];
    assert!(validate_canonical_alias(&content, "!r:x", &directory).is_ok());
    let fault = |c: Json| {
        let e = validate_canonical_alias(&c, "!r:x", &directory).unwrap_err();
        assert_eq!(e.status, 400);
        (e.errcode, e.message)
    };
    assert_eq!(
        fault(obj(vec![("alias", js("#c:x"))])),
        (t("M_BAD_ALIAS"), t("#c:x does not point to this room"))
    );
    assert_eq!(
        fault(obj(vec![("alias", js("#d:x"))])),
        (t("M_BAD_ALIAS"), t("#d:x does not point to this room"))
    );
    assert_eq!(
        fault(obj(vec![("alias", js("nope"))])),
        (t("M_INVALID_PARAM"), t("invalid alias: nope"))
    );
    assert_eq!(
        fault(obj(vec![("alias", Json::Int(1))])),
        (t("M_INVALID_PARAM"), t("aliases must be strings"))
    );
    assert_eq!(
        fault(obj(vec![("alt_aliases", js("#a:x"))])),
        (t("M_INVALID_PARAM"), t("alt_aliases must be an array"))
    );
    assert!(validate_canonical_alias(&obj(vec![("alias", Json::Null)]), "!r:x", &vec![]).is_ok());
}

fn facts(appservice: bool) -> StateFacts {
    StateFacts {
        room_id: t("!r:x"),
        directory: vec![],
        privileged_creators: true,
        create_event: Some(obj(vec![
            ("sender", js("@c:x")),
            ("content", obj(vec![("additional_creators", Json::Array(vec![js("@d:x")]))])),
        ])),
        standing: None,
        appservice,
        ts: Some(5),
    }
}

#[test]
fn creators_hold_no_level() {
    let create = facts(false).create_event;
    let levels = |user: &str| obj(vec![("users", obj(vec![(user, Json::Int(1))]))]);
    assert!(power_levels_lists_creator(true, &levels("@c:x"), &create));
    assert!(power_levels_lists_creator(true, &levels("@d:x"), &create));
    assert!(!power_levels_lists_creator(true, &levels("@e:x"), &create));
    assert!(!power_levels_lists_creator(false, &levels("@c:x"), &create));
    assert!(!power_levels_lists_creator(true, &levels("@c:x"), &None));
    let e = send_state_event("m.room.power_levels", levels("@c:x"), facts(false)).unwrap_err();
    assert_eq!((e.status, e.message.as_str()), (400, "power_levels.users must not contain a room creator"));
    let e = send_state_event("m.room.create", obj(vec![]), facts(false)).unwrap_err();
    assert_eq!((e.status, e.message.as_str()), (400, "Cannot send a m.room.create event"));
}

#[test]
fn clients_authorise_no_joins() {
    let content = obj(vec![
        ("membership", js("join")),
        ("join_authorised_via_users_server", js("unused")),
    ]);
    match send_state_event("m.room.member", content, facts(false)).unwrap() {
        StateSend::Send(c, ts) => {
            assert_eq!(show(&c), "{\"membership\":\"join\"}");
            assert_eq!(ts, None);
        }
        other => panic!("{other:?}"),
    }
    let content = obj(vec![("join_authorised_via_users_server", js("kept"))]);
    match send_state_event("m.other", content, facts(true)).unwrap() {
        StateSend::Send(c, ts) => {
            assert_eq!(show(&c), "{\"join_authorised_via_users_server\":\"kept\"}");
            assert_eq!(ts, Some(5));
        }
        other => panic!("{other:?}"),
    }
}

#[test]
fn standing_state_is_not_sent_again() {
    let mut f = facts(false);
    f.standing = Some((t("$old"), obj(vec![("b", Json::Int(2)), ("a", Json::Int(1))])));
    match send_state_event("m.x", obj(vec![("a", Json::Int(1)), ("b", Json::Int(2))]), f).unwrap() {
        StateSend::Standing(id) => assert_eq!(id, "$old"),
        other => panic!("{other:?}"),
    }
    let mut f = facts(false);
    f.standing = Some((t("$old"), obj(vec![("a", Json::Int(1))])));
    assert!(matches!(send_state_event("m.x", obj(vec![]), f), Ok(StateSend::Send(_, None))));
}

#[test]
fn aliases_are_resolved() {
    assert!(matches!(resolve_alias(Some(t("!r:x")), false), AliasStep::Found(_)));
    assert!(matches!(resolve_alias(None, false), AliasStep::AskAppservice));
    match resolve_alias(None, true) {
        AliasStep::Fail(e) => assert_eq!((e.status, e.message.as_str()), (404, "Unknown room alias")),
        other => panic!("{other:?}"),
    }
    match resolve_alias(Some(t("broken")), false) {
        AliasStep::Fail(e) => assert_eq!(e.status, 500),
        other => panic!("{other:?}"),
    }
    assert_eq!(
        remote_alias_request("#a:hs2", true).unwrap(),
        (t("hs2"), t("/_matrix/federation/v1/query/directory?room_alias=%23a%3Ahs2"))
    );
    assert_eq!(remote_alias_request("a", true).unwrap_err().message, "bad room alias");
    assert_eq!(remote_alias_request("#a:hs2", false).unwrap_err().message, "Unknown room alias");
    assert_eq!(remote_alias_failed("x").message, "remote directory query failed: x");
    let answer = obj(vec![
        ("room_id", js("!r:x")),
        ("servers", Json::Array(vec![js("hs3"), js("not a server"), Json::Null])),
    ]);
    assert_eq!(resolve_remote_alias(&answer, "hs2").unwrap(), (t("!r:x"), vec![t("hs3")]));
    let answer = obj(vec![("room_id", js("!r:x"))]);
    assert_eq!(resolve_remote_alias(&answer, "hs2").unwrap().1, vec![t("hs2")]);
    assert_eq!(
        resolve_remote_alias(&obj(vec![("room_id", js("r"))]), "hs2").unwrap_err().message,
        "Unknown room alias"
    );
}

#[test]
fn namespaces_own_aliases() {
    assert!(check_alias_ownership(false, false, true).is_ok());
    assert!(check_alias_ownership(true, true, false).is_ok());
    assert!(check_alias_ownership(true, false, true).is_ok());
    let e = check_alias_ownership(true, false, false).unwrap_err();
    assert_eq!((e.status, e.errcode.as_str()), (400, "M_EXCLUSIVE"));
    assert_eq!(e.message, "Alias is reserved by another application service");
    assert_eq!(
        check_alias_ownership(false, true, false).unwrap_err().message,
        "Alias is reserved by an application service"
    );
}

#[test]
fn aliases_are_made_and_removed() {
    assert!(create_alias("#a:hs1", "hs1", Ok(()), Ok(()), Ok(())).is_ok());
    let fault = |alias: &str, room: Result<(), ApiError>, joined: Result<(), ApiError>| {
        create_alias(alias, "hs1", room, joined, Err(ApiError::bad_json("owner"))).unwrap_err().message
    };
    assert_eq!(fault("#a:hs2", Ok(()), Ok(())), "Alias must be on this server");
    assert_eq!(
        fault("#a:hs1", Err(ApiError::not_found("room")), Err(ApiError::forbidden("join"))),
        "room"
    );
    assert_eq!(fault("#a:hs1", Ok(()), Err(ApiError::forbidden("join"))), "join");
    assert_eq!(fault("#a:hs1", Ok(()), Ok(())), "owner");
    assert!(delete_alias(Some("@a:x"), Ok(()), "@a:x", false).is_ok());
    assert!(delete_alias(Some("@b:x"), Ok(()), "@a:x", true).is_ok());
    assert_eq!(
        delete_alias(Some("@b:x"), Ok(()), "@a:x", false).unwrap_err().message,
        "Not allowed to delete this alias"
    );
    assert_eq!(delete_alias(None, Ok(()), "@a:x", true).unwrap_err().message, "Unknown room alias");
    assert_eq!(get_room_aliases(&vec![t("#a:x"), t("broken")]), vec!["#a:x"]);
}

#[test]
fn a_cleared_event_drops_the_alias() {
    let content = obj(vec![
        ("alias", js("#a:x")),
        ("alt_aliases", Json::Array(vec![js("#b:x"), js("#a:x"), Json::Int(1)])),
        ("other", Json::Int(1)),
    ]);
    assert_eq!(
        show(&cleared_canonical(&content, "#a:x").unwrap()),
        "{\"alt_aliases\":[\"#b:x\",1],\"other\":1}"
    );
    assert_eq!(
        show(&cleared_canonical(&content, "#b:x").unwrap()),
        "{\"alias\":\"#a:x\",\"alt_aliases\":[\"#a:x\",1],\"other\":1}"
    );
    assert!(cleared_canonical(&content, "#c:x").is_none());
}

fn state(event_type: &str, key: &str, content: Json) -> StateEvent {
    StateEvent {
        event_type: t(event_type),
        state_key: t(key),
        event_id: t("$s"),
        event: Some(obj(vec![("content", content)])),
        rejected: false,
    }
}

#[test]
fn public_rooms_are_described() {
    let s = vec![
        state("m.room.name", "", obj(vec![("name", js("Lobby"))])),
        state("m.room.member", "@a:x", obj(vec![("membership", js("join"))])),
        state("m.room.member", "@b:x", obj(vec![("membership", js("leave"))])),
        state("m.room.guest_access", "", obj(vec![("guest_access", js("can_join"))])),
        state("m.room.history_visibility", "", obj(vec![("history_visibility", js("world_readable"))])),
        state("m.room.join_rules", "", obj(vec![("join_rule", js("public"))])),
    ];
    let r = public_chunk(true, "!r:x", &s).unwrap().unwrap();
    assert_eq!((r.num_joined_members, r.name.as_deref()), (1, Some("Lobby")));
    assert!(r.world_readable && r.guest_can_join);
    assert_eq!((r.join_rule.as_str(), r.topic), ("public", None));
    assert!(public_chunk(false, "!r:x", &s).unwrap().is_none());
}

fn listed(id: &str, joined: u64, name: &str) -> PublicRoom {
    PublicRoom {
        room_id: t(id),
        num_joined_members: joined,
        name: Some(t(name)),
        topic: None,
        canonical_alias: None,
        avatar_url: None,
        world_readable: false,
        guest_can_join: false,
        join_rule: t("public"),
    }
}

#[test]
fn the_directory_is_searched() {
    let rooms = vec![listed("!a:x", 2, "Cats"), listed("!b:x", 9, "Dogs"), listed("!c:x", 5, "Wildcats")];
    assert_eq!(directory_chunks(&rooms, None, None), (vec![0, 1, 2], 3));
    assert_eq!(directory_chunks(&rooms, None, Some(2)).0, vec![0, 1]);
    assert_eq!(directory_chunks(&rooms, Some("CAT"), None), (vec![0, 2], 2));
    assert_eq!(get_visibility(true), "public");
    assert_eq!(get_visibility(false), "private");
    assert!(set_visibility(true).is_ok());
    assert_eq!(
        set_visibility(false).unwrap_err().message,
        "Not allowed to change this room's directory visibility"
    );
}

#[test]
fn aliases_elsewhere_are_asked_for_there() {
    assert!(!get_alias("#a:x.org", "x.org"));
    assert!(get_alias("#a:y.org", "x.org"));
    assert!(get_alias("#a", "x.org"));
    assert!(!get_alias("#a:x.org:8448", "x.org:8448"));
}

use saltator_cs_api::json::Json;
use saltator_cs_api::push_eval::{
    add_legacy_mention_rules, localpart_of, power_levels_ctx, room_unread, rows_to_judge, tally,
    thread_of, thread_position, unread, unthreaded_position, ReceiptPos, Said, Verdict, SCAN_CAP,
};
use saltator_cs_api::room_util::{
    accepted_event_id, client_event, joined_member_ids, member_view, membership_in, predecessor_of,
    require_joined, state_content_in, stripped_event, to_client_format, user_can_see_event,
    MemberView, Outcome, PrevState, StateEvent, StoredFacts,
};
use saltator_cs_api::routes::rooms::create::{
    alias_for, create_room, tombstone_content, transferable_types, upgrade_room, upgrade_version,
    CreateRoomRequest, CreateStep, RoomPreset, UpgradeFacts, VersionChoice,
};
use saltator_cs_api::routes::sync::TimelineRow;
use saltator_cs_api::routes::rooms::{can_send_state, encode_segment, send_membership_with};

fn t(x: &str) -> String {
    x.to_owned()
}

fn js(x: &str) -> Json {
    Json::Str(x.to_owned())
}

fn obj(fields: Vec<(&str, Json)>) -> Json {
    Json::Object(map(fields))
}

fn map(fields: Vec<(&str, Json)>) -> Vec<(String, Json)> {
    fields.into_iter().map(|(k, v)| (k.to_owned(), v)).collect()
}

/// A value as compact JSON text, its fields in the order of their names.
fn show(j: &Json) -> String {
    match j {
        Json::Null => t("null"),
        Json::Bool(b) => b.to_string(),
        Json::Int(i) => i.to_string(),
        Json::Number(n) => n.clone(),
        Json::Str(s) => format!("{s:?}"),
        Json::Array(items) => {
            format!("[{}]", items.iter().map(show).collect::<Vec<String>>().join(","))
        }
        Json::Object(m) => show_map(m),
    }
}

fn show_map(m: &Vec<(String, Json)>) -> String {
    let mut sorted: std::collections::BTreeMap<&String, &Json> = std::collections::BTreeMap::new();
    for (k, v) in m {
        sorted.insert(k, v);
    }
    let parts: Vec<String> = sorted.iter().map(|(k, v)| format!("{k:?}:{}", show(v))).collect();
    format!("{{{}}}", parts.join(","))
}

fn state(event_type: &str, key: &str, content: Json) -> StateEvent {
    StateEvent {
        event_type: t(event_type),
        state_key: t(key),
        event_id: format!("${event_type}-{key}"),
        event: Some(obj(vec![
            ("type", js(event_type)),
            ("state_key", js(key)),
            ("sender", js("@creator:hs1")),
            ("content", content),
        ])),
        rejected: false,
    }
}

fn member(user: &str, membership: &str) -> StateEvent {
    state("m.room.member", user, obj(vec![("membership", js(membership))]))
}

fn visibility(v: &str) -> StateEvent {
    state("m.room.history_visibility", "", obj(vec![("history_visibility", js(v))]))
}

#[test]
fn members_are_read_from_the_state() {
    let mut gone = member("@x:hs1", "join");
    gone.event = None;
    let s = vec![member("@a:hs1", "join"), member("@b:hs1", "ban"), gone, visibility("joined")];
    assert_eq!(membership_in(&s, "@a:hs1"), "join");
    assert_eq!(membership_in(&s, "@b:hs1"), "ban");
    assert_eq!(membership_in(&s, "@x:hs1"), "leave");
    assert_eq!(membership_in(&s, "@z:hs1"), "leave");
    assert_eq!(joined_member_ids(&s), vec!["@a:hs1"]);
    assert!(require_joined(&s, "@a:hs1").is_ok());
    let e = require_joined(&s, "@b:hs1").unwrap_err();
    assert_eq!((e.status, e.message.as_str()), (403, "You are not joined to this room"));
}

#[test]
fn departed_members_see_the_room_as_they_left_it() {
    let s = vec![
        member("@a:hs1", "join"),
        member("@b:hs1", "leave"),
        member("@c:hs1", "ban"),
        member("@d:hs1", "invite"),
    ];
    assert!(matches!(member_view(&s, "@a:hs1"), Ok(MemberView::Current)));
    match member_view(&s, "@b:hs1").unwrap() {
        MemberView::FrozenAt { event_id } => assert_eq!(event_id, "$m.room.member-@b:hs1"),
        MemberView::Current => panic!("left"),
    }
    assert!(matches!(member_view(&s, "@c:hs1"), Ok(MemberView::FrozenAt { .. })));
    assert_eq!(
        member_view(&s, "@d:hs1").unwrap_err().message,
        "You are not joined to this room"
    );
    assert_eq!(member_view(&s, "@z:hs1").unwrap_err().message, "You are not in this room");
}

#[test]
fn history_visibility_decides() {
    let stored = Some(StoredFacts { rejected: false, state_group_after: 4 });
    let now = vec![member("@b:hs1", "join")];
    let at = |v: &str, m: &str| vec![visibility(v), member("@b:hs1", m)];
    let sees = |v: &str, m: &str, current: &Vec<StateEvent>| {
        user_can_see_event(stored, &at(v, m), current, "@b:hs1")
    };
    assert!(sees("joined", "join", &vec![]));
    assert!(!sees("joined", "invite", &now));
    assert!(sees("invited", "invite", &vec![]));
    assert!(!sees("invited", "leave", &now));
    assert!(sees("shared", "leave", &now));
    assert!(!sees("shared", "leave", &vec![]));
    assert!(sees("world_readable", "leave", &vec![]));
    assert!(!sees("anything", "leave", &now));
    // No visibility event reads as shared.
    assert!(user_can_see_event(stored, &vec![], &now, "@b:hs1"));
    // Neither a rejected event nor one without state is seen by anyone.
    let all = at("world_readable", "join");
    assert!(!user_can_see_event(None, &all, &now, "@b:hs1"));
    let rejected = Some(StoredFacts { rejected: true, state_group_after: 4 });
    assert!(!user_can_see_event(rejected, &all, &now, "@b:hs1"));
    let stateless = Some(StoredFacts { rejected: false, state_group_after: 0 });
    assert!(!user_can_see_event(stateless, &all, &now, "@b:hs1"));
}

#[test]
fn clients_see_the_client_format() {
    let raw = map(vec![
        ("type", js("m.room.name")),
        ("state_key", js("")),
        ("sender", js("@a:hs1")),
        ("content", obj(vec![("name", js("n"))])),
        ("origin_server_ts", Json::Int(5)),
        ("hashes", obj(vec![])),
        ("depth", Json::Int(9)),
        ("room_id", js("!wrong:hs1")),
    ]);
    assert_eq!(
        show_map(&to_client_format(&raw, "!r:hs1", "$e")),
        "{\"content\":{\"name\":\"n\"},\"event_id\":\"$e\",\"origin_server_ts\":5,\
         \"room_id\":\"!r:hs1\",\"sender\":\"@a:hs1\",\"state_key\":\"\",\"type\":\"m.room.name\"}"
    );
    let ev = client_event(
        &raw,
        "!r:hs1",
        "$e",
        Some(t("join")),
        Some(PrevState { content: obj(vec![("name", js("old"))]), sender: t("@b:hs1") }),
    );
    assert_eq!(
        show_map(&ev),
        "{\"content\":{\"name\":\"n\"},\"event_id\":\"$e\",\"origin_server_ts\":5,\
         \"room_id\":\"!r:hs1\",\"sender\":\"@a:hs1\",\"state_key\":\"\",\"type\":\"m.room.name\",\
         \"unsigned\":{\"membership\":\"join\",\"prev_content\":{\"name\":\"old\"},\
         \"prev_sender\":\"@b:hs1\"}}"
    );
    let plain = client_event(&raw, "!r:hs1", "$e", None, None);
    assert_eq!(show_map(&plain), show_map(&to_client_format(&raw, "!r:hs1", "$e")));
}

#[test]
fn only_the_create_event_is_stripped_in_full() {
    let fields = |ty: &str| {
        map(vec![
            ("type", js(ty)),
            ("state_key", js("")),
            ("sender", js("@a:hs1")),
            ("content", obj(vec![])),
            ("origin_server_ts", Json::Int(5)),
            ("depth", Json::Int(1)),
            ("unsigned", obj(vec![])),
        ])
    };
    assert_eq!(
        show_map(&stripped_event(&fields("m.room.create"))),
        "{\"content\":{},\"depth\":1,\"origin_server_ts\":5,\"sender\":\"@a:hs1\",\
         \"state_key\":\"\",\"type\":\"m.room.create\"}"
    );
    assert_eq!(
        show_map(&stripped_event(&fields("m.room.topic"))),
        "{\"content\":{},\"sender\":\"@a:hs1\",\"state_key\":\"\",\"type\":\"m.room.topic\"}"
    );
}

#[test]
fn outcomes_become_answers() {
    assert_eq!(
        accepted_event_id(Outcome::Accepted { event_id: t("$e"), seq: 7 }).unwrap(),
        (t("$e"), 7)
    );
    assert_eq!(
        accepted_event_id(Outcome::Duplicate { event_id: t("$e") }).unwrap(),
        (t("$e"), 0)
    );
    let e = accepted_event_id(Outcome::Rejected { reason: t("not allowed") }).unwrap_err();
    assert_eq!((e.status, e.message.as_str()), (403, "not allowed"));
}

#[test]
fn the_predecessor_stands_in_the_create_event() {
    let create = |content: Json| vec![state("m.room.create", "", content)];
    let pred = obj(vec![("predecessor", obj(vec![("room_id", js("!old:hs1"))]))]);
    assert_eq!(predecessor_of(&create(pred)), Some(t("!old:hs1")));
    assert_eq!(predecessor_of(&create(obj(vec![("predecessor", js("!old:hs1"))]))), None);
    assert_eq!(predecessor_of(&vec![]), None);
    let s = vec![visibility("shared")];
    assert_eq!(
        state_content_in(&s, "m.room.history_visibility").map(show),
        Some(t("{\"history_visibility\":\"shared\"}"))
    );
    assert!(state_content_in(&s, "m.room.name").is_none());
}

fn receipt(user: &str, kind: &str, thread: Option<&str>, seq: Option<u64>) -> ReceiptPos {
    ReceiptPos { user_id: t(user), receipt_type: t(kind), thread_id: thread.map(t), seq }
}

fn message(thread: Option<&str>) -> Json {
    let mut content = vec![("body", js("hi"))];
    if let Some(root) = thread {
        content.push((
            "m.relates_to",
            obj(vec![("rel_type", js("m.thread")), ("event_id", js(root))]),
        ));
    }
    obj(vec![("sender", js("@b:hs1")), ("content", obj(content))])
}

#[test]
fn receipts_say_what_is_read() {
    let receipts = vec![
        receipt("@a:hs1", "m.read", None, Some(3)),
        receipt("@a:hs1", "m.read.private", None, Some(5)),
        receipt("@a:hs1", "m.fully_read", None, Some(9)),
        receipt("@b:hs1", "m.read", None, Some(8)),
        receipt("@a:hs1", "m.read", Some("$root"), Some(7)),
        receipt("@a:hs1", "m.read", Some("$root"), None),
    ];
    assert_eq!(unthreaded_position(&receipts, "@a:hs1"), 5);
    assert_eq!(unthreaded_position(&receipts, "@c:hs1"), 0);
    assert_eq!(thread_position(&receipts, "@a:hs1", "$root"), Some(7));
    assert_eq!(thread_position(&receipts, "@a:hs1", "main"), None);
    assert_eq!(thread_of(&message(Some("$root"))), "$root");
    assert_eq!(thread_of(&message(None)), "main");
    assert!(!unread(&message(Some("$root")), 7, &receipts, "@a:hs1"));
    assert!(unread(&message(Some("$root")), 8, &receipts, "@a:hs1"));
    assert!(unread(&message(None), 6, &receipts, "@a:hs1"));
    // One's own events are never unread.
    assert!(!unread(&message(None), 9, &receipts, "@b:hs1"));
}

#[test]
fn threads_split_the_unread_counts() {
    let v = |thread: &str, notify: bool, highlight: bool| Verdict {
        thread: t(thread),
        notify,
        highlight,
    };
    let u = tally(&vec![
        v("main", true, false),
        v("$r1", true, true),
        v("$r1", true, false),
        v("$r2", false, true),
        v("main", true, true),
    ]);
    assert_eq!((u.all.notify, u.all.highlight), (4, 2));
    assert_eq!((u.main.notify, u.main.highlight), (2, 1));
    assert_eq!(u.threads.len(), 1);
    assert_eq!(u.threads[0].0, "$r1");
    assert_eq!((u.threads[0].1.notify, u.threads[0].1.highlight), (2, 1));
    let sum: u64 = u.main.notify + u.threads.iter().map(|(_, c)| c.notify).sum::<u64>();
    assert_eq!(u.all.notify, sum);
}

#[test]
fn mention_rules_are_added_once() {
    assert_eq!(localpart_of("@ann:hs1:8448"), Some(t("ann")));
    assert_eq!(localpart_of("ann"), None);
    let mut rules = ruma::push::Ruleset::new();
    add_legacy_mention_rules(&mut rules, "@ann:hs1:8448");
    let shown = serde_json::to_string(&rules).unwrap();
    let mention = "\"actions\":[\"notify\",{\"set_tweak\":\"sound\",\"value\":\"default\"},\
                   {\"set_tweak\":\"highlight\"}],\"default\":true,\"enabled\":true,\"rule_id\":";
    let parts = [
        "\".m.rule.contains_display_name\",\"conditions\":[{\"kind\":\"contains_display_name\"}]}",
        "\".m.rule.contains_user_name\",\"pattern\":\"ann\"}",
    ];
    for part in parts {
        assert!(shown.contains(&format!("{mention}{part}")), "{shown}");
    }
    // What is there stays as it is.
    add_legacy_mention_rules(&mut rules, "@bea:hs1");
    assert_eq!(serde_json::to_string(&rules).unwrap(), shown);
}

#[test]
fn only_what_is_unread_is_judged() {
    let row = |seq: u64, sender: &str, thread: Option<&str>| TimelineRow {
        seq,
        event: Some(match thread {
            Some(root) => obj(vec![
                ("sender", js(sender)),
                (
                    "content",
                    obj(vec![(
                        "m.relates_to",
                        obj(vec![("rel_type", js("m.thread")), ("event_id", js(root))]),
                    )]),
                ),
            ]),
            None => obj(vec![("sender", js(sender))]),
        }),
    };
    let receipt = |thread: Option<&str>, seq: u64| ReceiptPos {
        user_id: t("@a:hs1"),
        receipt_type: t("m.read"),
        thread_id: thread.map(t),
        seq: Some(seq),
    };
    let receipts = vec![receipt(None, 3), receipt(Some("$r"), 6)];
    let rows = vec![
        row(3, "@b:hs1", None),
        row(4, "@a:hs1", None),
        row(5, "@b:hs1", None),
        row(6, "@b:hs1", Some("$r")),
        row(7, "@b:hs1", Some("$r")),
        TimelineRow { seq: 8, event: None },
        row(9, "@b:hs1", None),
        row(10, "@b:hs1", None),
    ];
    assert_eq!(rows_to_judge(&rows, &receipts, "@a:hs1", 9), vec![2, 4, 6]);
    let said = vec![
        Said { notify: true, highlight: false },
        Said { notify: true, highlight: true },
        Said { notify: false, highlight: true },
    ];
    let u = room_unread(&rows, &receipts, "@a:hs1", 9, &said);
    assert_eq!((u.all.notify, u.all.highlight), (2, 1));
    assert_eq!((u.main.notify, u.main.highlight), (1, 0));
    assert_eq!(u.threads.len(), 1);
    assert_eq!((u.threads[0].0.as_str(), u.threads[0].1.notify), ("$r", 1));
    // A scan is bounded.
    let many: Vec<TimelineRow> = (1..=600).map(|i| row(i, "@b:hs1", None)).collect();
    assert_eq!(rows_to_judge(&many, &vec![], "@a:hs1", 600).len(), SCAN_CAP);
}

#[test]
fn power_levels_have_defaults() {
    let p = power_levels_ctx(&obj(vec![]));
    assert_eq!((p.users.len(), p.users_default, p.room), (0, 0, 50));
    let p = power_levels_ctx(&obj(vec![
        ("users", obj(vec![("@a:hs1", Json::Int(100)), ("nobody", Json::Int(7)), ("@b:hs1", js("9"))])),
        ("users_default", Json::Int(5)),
        ("notifications", obj(vec![("room", Json::Int(20))])),
    ]));
    assert_eq!(p.users, vec![(t("@a:hs1"), 100)]);
    assert_eq!((p.users_default, p.room), (5, 20));
    // Beyond what canonical JSON holds, a level is not read.
    let p = power_levels_ctx(&obj(vec![("users_default", Json::Int(1 << 53))]));
    assert_eq!(p.users_default, 0);
}

#[test]
fn segments_are_encoded() {
    assert_eq!(encode_segment("!r:hs1"), "%21r%3Ahs1");
    assert_eq!(encode_segment("$é~"), "%24%C3%A9~");
}

#[test]
fn power_decides_who_sends_state() {
    let create = Some(obj(vec![
        ("sender", js("@a:hs1")),
        ("content", obj(vec![("additional_creators", Json::Array(vec![js("@b:hs1")]))])),
    ]));
    let levels = Some(obj(vec![
        ("users", obj(vec![("@c:hs1", Json::Int(50))])),
        ("events", obj(vec![("m.room.tombstone", Json::Int(150))])),
    ]));
    for creator in ["@a:hs1", "@b:hs1"] {
        assert!(can_send_state(true, &create, &levels, creator, "m.room.tombstone"));
        assert!(!can_send_state(false, &create, &levels, creator, "m.room.tombstone"));
    }
    assert!(can_send_state(true, &create, &levels, "@c:hs1", "m.room.name"));
    assert!(!can_send_state(true, &create, &levels, "@c:hs1", "m.room.tombstone"));
    assert!(!can_send_state(true, &create, &levels, "@d:hs1", "m.room.name"));
    assert!(can_send_state(true, &create, &None, "@d:hs1", "m.room.tombstone"));
}

#[test]
fn clients_cannot_spoof_memberships() {
    let extra = map(vec![
        ("membership", js("ban")),
        ("displayname", js("Fake")),
        ("join_authorised_via_users_server", js("@x:hs1")),
        ("custom", Json::Int(1)),
    ]);
    assert_eq!(
        show_map(&send_membership_with(
            extra,
            "join",
            Some(t("hello")),
            None,
            Some(t("Ann")),
            Some(t("mxc://a/b"))
        )),
        "{\"avatar_url\":\"mxc://a/b\",\"custom\":1,\"displayname\":\"Ann\",\
         \"membership\":\"join\",\"reason\":\"hello\"}"
    );
    // A leave shows no profile; a server-chosen authoriser is stamped.
    assert_eq!(
        show_map(&send_membership_with(vec![], "leave", None, None, Some(t("Ann")), None)),
        "{\"membership\":\"leave\"}"
    );
    assert_eq!(
        show_map(&send_membership_with(vec![], "join", None, Some(t("@v:hs1")), None, None)),
        "{\"join_authorised_via_users_server\":\"@v:hs1\",\"membership\":\"join\"}"
    );
}

fn request() -> CreateRoomRequest {
    CreateRoomRequest {
        version: VersionChoice::Supported { privileged_creators: false },
        room_alias_name: None,
        public: false,
        preset: None,
        creation_content: None,
        power_level_content_override: None,
        initial_state: vec![],
        name: None,
        topic: None,
        invite: vec![],
        is_direct: false,
    }
}

fn step_text(s: &CreateStep) -> String {
    match s {
        CreateStep::CreateRoom { fields } => format!("create {}", show_map(fields)),
        CreateStep::ReserveAlias { alias } => format!("alias {alias}"),
        CreateStep::JoinCreator => t("join"),
        CreateStep::SendState { event_type, state_key, content } => {
            format!("{event_type}/{state_key} {}", show(content))
        }
        CreateStep::Invite { user_id, remote, is_direct } => {
            format!("invite {user_id} {remote} {is_direct}")
        }
        CreateStep::ListPublicly => t("list"),
        CreateStep::Tombstone => t("tombstone"),
        CreateStep::CopyPushRules => t("rules"),
        CreateStep::Fail(e) => format!("fail {} {} {}", e.status, e.errcode, e.message),
    }
}

fn steps(req: &CreateRoomRequest) -> Vec<String> {
    create_room(req, "@a:hs1", "hs1", false).unwrap().iter().map(step_text).collect()
}

#[test]
fn a_private_room_is_made_in_order() {
    let mut req = request();
    req.name = Some(t("N"));
    req.topic = Some(t("T"));
    req.room_alias_name = Some(t("lobby"));
    req.invite = vec![t("@b:hs1"), t("@c:hs2")];
    req.is_direct = true;
    req.initial_state = vec![Ok(obj(vec![("type", js("m.room.encryption"))]))];
    assert_eq!(
        steps(&req),
        vec![
            "create {}",
            "alias #lobby:hs1",
            "join",
            "m.room.power_levels/ {\"ban\":50,\"events\":{},\"events_default\":0,\"invite\":0,\
             \"kick\":50,\"notifications\":{\"room\":50},\"redact\":50,\"state_default\":50,\
             \"users\":{\"@a:hs1\":100},\"users_default\":0}",
            "m.room.join_rules/ {\"join_rule\":\"invite\"}",
            "m.room.history_visibility/ {\"history_visibility\":\"shared\"}",
            "m.room.guest_access/ {\"guest_access\":\"can_join\"}",
            "m.room.encryption/ {}",
            "m.room.name/ {\"name\":\"N\"}",
            "m.room.topic/ {\"m.topic\":{\"m.text\":[{\"body\":\"T\"}]},\"topic\":\"T\"}",
            "m.room.canonical_alias/ {\"alias\":\"#lobby:hs1\"}",
            "invite @b:hs1 false true",
            "invite @c:hs2 true true",
            "rules",
        ]
    );
}

#[test]
fn a_public_room_is_listed() {
    let mut req = request();
    req.public = true;
    let s = steps(&req);
    assert!(s[2].contains("\"invite\":50"));
    assert_eq!(s[3], "m.room.join_rules/ {\"join_rule\":\"public\"}");
    assert!(!s.iter().any(|x| x.starts_with("m.room.guest_access")));
    assert_eq!(s[s.len() - 2], "list");
}

#[test]
fn creators_are_not_in_the_power_levels() {
    let mut req = request();
    req.version = VersionChoice::Supported { privileged_creators: true };
    req.preset = Some(RoomPreset::TrustedPrivateChat);
    req.invite = vec![t("@b:hs1")];
    let s = steps(&req);
    assert_eq!(s[0], "create {\"additional_creators\":[\"@b:hs1\"]}");
    assert!(s[2].contains("\"events\":{\"m.room.tombstone\":150}"));
    assert!(s[2].contains("\"users\":{}"));
    req.power_level_content_override =
        Some(Ok(obj(vec![("users", obj(vec![("@b:hs1", Json::Int(1))]))])));
    let s = steps(&req);
    assert_eq!(
        s[s.len() - 1],
        "fail 400 M_BAD_JSON power_level_content_override.users must not contain a room creator"
    );
    req.power_level_content_override = None;
    req.creation_content = Some(Ok(map(vec![("additional_creators", js("@b:hs1"))])));
    let e = create_room(&req, "@a:hs1", "hs1", false).unwrap_err();
    assert_eq!((e.status, e.errcode.as_str()), (400, "M_BAD_JSON"));
    assert_eq!(
        e.message,
        "creation_content.additional_creators must be an array of user IDs"
    );
}

#[test]
fn bad_requests_make_no_room() {
    let mut req = request();
    req.version = VersionChoice::Unsupported;
    let e = create_room(&req, "@a:hs1", "hs1", false).unwrap_err();
    assert_eq!((e.status, e.errcode.as_str()), (400, "M_UNSUPPORTED_ROOM_VERSION"));
    let mut req = request();
    req.room_alias_name = Some(t("a\0b"));
    let e = create_room(&req, "@a:hs1", "hs1", false).unwrap_err();
    assert_eq!((e.status, e.errcode.as_str()), (400, "M_INVALID_PARAM"));
    assert!(e.message.starts_with("room_alias_name: "));
    assert!(e.message.len() > "room_alias_name: ".len());
    let mut req = request();
    req.creation_content = Some(Err(t("expected an object")));
    assert_eq!(
        create_room(&req, "@a:hs1", "hs1", false).unwrap_err().message,
        "creation_content: expected an object"
    );
    // An alias that another room has is refused before anything is done.
    let mut req = request();
    req.room_alias_name = Some(t("pub"));
    assert_eq!(alias_for(&req, "hs1").unwrap().as_deref(), Some("#pub:hs1"));
    let e = create_room(&req, "@a:hs1", "hs1", true).unwrap_err();
    assert_eq!((e.status, e.errcode.as_str()), (400, "M_ROOM_IN_USE"));
    assert!(create_room(&req, "@a:hs1", "hs1", false).is_ok());
    assert!(create_room(&request(), "@a:hs1", "hs1", true).is_ok());
    // Later faults come when the room is already there.
    let mut req = request();
    req.power_level_content_override = Some(Err(t("eof")));
    assert_eq!(steps(&req)[2], "fail 400 M_BAD_JSON power_level_content_override: eof");
    let mut req = request();
    req.initial_state = vec![Ok(obj(vec![]))];
    let s = steps(&req);
    assert_eq!(s[s.len() - 1], "fail 400 M_BAD_JSON initial_state event without type");
    req.initial_state = vec![Err(t("eof"))];
    let s = steps(&req);
    assert_eq!(s[s.len() - 1], "fail 400 M_BAD_JSON initial_state: eof");
}

#[test]
fn overrides_merge_into_the_defaults() {
    let mut req = request();
    req.power_level_content_override =
        Some(Ok(obj(vec![("users", obj(vec![("@b:hs1", Json::Int(50))])), ("ban", Json::Int(7))])));
    let s = steps(&req);
    assert!(s[2].contains("\"ban\":7"));
    assert!(s[2].contains("\"users\":{\"@a:hs1\":100,\"@b:hs1\":50}"));
}

fn upgrade_facts(privileged_creators: bool) -> UpgradeFacts {
    let n = transferable_types().len();
    UpgradeFacts {
        version: VersionChoice::Supported { privileged_creators },
        may_tombstone: true,
        old_creation: Some(obj(vec![
            ("type", js("m.space")),
            ("room_version", js("11")),
            ("creator", js("@a:hs1")),
            ("predecessor", obj(vec![])),
        ])),
        last_event: Some(t("$last")),
        old_state: (0..n).map(|_| None).collect(),
    }
}

#[test]
fn an_upgrade_keeps_what_the_room_is() {
    let body = map(vec![("new_version", js("11"))]);
    assert_eq!(upgrade_version(&body).unwrap(), "11");
    assert_eq!(upgrade_version(&vec![]).unwrap_err().message, "Missing new_version");
    assert_eq!(transferable_types()[0], "m.room.power_levels");
    let mut facts = upgrade_facts(false);
    facts.old_state[0] = Some(obj(vec![("users", obj(vec![("@a:hs1", Json::Int(50))]))]));
    let s: Vec<String> =
        upgrade_room(&facts, &body, "@a:hs1", "!old:hs1").unwrap().iter().map(step_text).collect();
    assert_eq!(
        s,
        vec![
            "create {\"predecessor\":{\"event_id\":\"$last\",\"room_id\":\"!old:hs1\"},\
             \"type\":\"m.space\"}",
            "join",
            "m.room.power_levels/ {\"users\":{\"@a:hs1\":100}}",
            "tombstone",
            "rules",
        ]
    );
    assert_eq!(
        show(&tombstone_content("!new:hs1")),
        "{\"body\":\"This room has been replaced\",\"replacement_room\":\"!new:hs1\"}"
    );
}

#[test]
fn an_upgrade_to_privileged_creators_drops_them_from_the_levels() {
    let body = map(vec![
        ("new_version", js("12")),
        ("additional_creators", Json::Array(vec![js("@b:hs1")])),
    ]);
    let mut facts = upgrade_facts(true);
    facts.old_state[0] = Some(obj(vec![(
        "users",
        obj(vec![("@a:hs1", Json::Int(100)), ("@b:hs1", Json::Int(100)), ("@c:hs1", Json::Int(1))]),
    )]));
    let s: Vec<String> =
        upgrade_room(&facts, &body, "@a:hs1", "!old:hs1").unwrap().iter().map(step_text).collect();
    assert_eq!(
        s[0],
        "create {\"additional_creators\":[\"@b:hs1\"],\"predecessor\":{\"room_id\":\"!old:hs1\"},\
         \"type\":\"m.space\"}"
    );
    assert_eq!(s[2], "m.room.power_levels/ {\"users\":{\"@c:hs1\":1}}");
    let body = map(vec![("new_version", js("12")), ("additional_creators", js("@b:hs1"))]);
    assert_eq!(
        upgrade_room(&facts, &body, "@a:hs1", "!old:hs1").unwrap_err().message,
        "additional_creators must be an array of user IDs"
    );
    facts.may_tombstone = false;
    let e = upgrade_room(&facts, &body, "@a:hs1", "!old:hs1").unwrap_err();
    assert_eq!((e.status, e.message.as_str()), (403, "Not permitted to tombstone this room"));
    facts.version = VersionChoice::Unsupported;
    let e = upgrade_room(&facts, &body, "@a:hs1", "!old:hs1").unwrap_err();
    assert_eq!(e.errcode, "M_UNSUPPORTED_ROOM_VERSION");
    // What is no room cannot be tombstoned.
    let facts = upgrade_facts(false);
    let body = map(vec![("new_version", js("11"))]);
    let s: Vec<String> =
        upgrade_room(&facts, &body, "@a:hs1", "old").unwrap().iter().map(step_text).collect();
    assert!(s[s.len() - 1].starts_with("fail 400 M_INVALID_PARAM room_id: "));
}

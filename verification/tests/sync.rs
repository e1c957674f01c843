use saltator_cs_api::json::Json;
use saltator_cs_api::presence::{PresenceEntry, PresenceSnapshot};
use saltator_cs_api::push_eval::ReceiptPos;
use saltator_cs_api::room_util::StateEvent;
use saltator_cs_api::routes::sync::{
    account_data_events, build_invited_room, build_joined_room, build_left_room, build_sync,
    device_list_users, ephemeral_events, format_token, fully_read_content, ignored_users,
    filter_limits, filter_param, load_filter, make_event, must_acknowledge, parse_token, plan_room, presence_event,
    presence_visible, prev_batch, read_seq, send_receipt, send_typing, set_read_markers,
    state_position, sync_events, sync_receipts, sync_state, sync_timeout, timeline_window,
    to_device_window, token_room_seq, token_user_seq, typing_edu, typing_timeout, unchanged,
    unread_count, window_events, write_receipt, AccountData, FilterFacts, FilterParam, InboxRow, JoinedInput,
    JoinedRoom, MembershipEntry, Placement, PresenceRow, ReceiptAction, ReceiptRow, ResponseSize,
    RoomAction, RoomRow, SyncInput, SyncPos, TimelineRow, Window,
};

fn t(x: &str) -> String {
    x.to_owned()
}

fn js(x: &str) -> Json {
    Json::Str(x.to_owned())
}

fn obj(fields: Vec<(&str, Json)>) -> Json {
    Json::Object(map(fields))
}

fn map(fields: Vec<(&str, Json)>) -> Vec<(String, Json)> {
    fields.into_iter().map(|(k, v)| (k.to_owned(), v)).collect()
}

/// A value as compact JSON text, its fields in the order of their names.
fn show(j: &Json) -> String {
    match j {
        Json::Null => t("null"),
        Json::Bool(b) => b.to_string(),
        Json::Int(i) => i.to_string(),
        Json::Number(n) => n.clone(),
        Json::Str(s) => format!("{s:?}"),
        Json::Array(items) => {
            format!("[{}]", items.iter().map(show).collect::<Vec<String>>().join(","))
        }
        Json::Object(m) => show_map(m),
    }
}

fn show_map(m: &Vec<(String, Json)>) -> String {
    let mut sorted: std::collections::BTreeMap<&String, &Json> = std::collections::BTreeMap::new();
    for (k, v) in m {
        sorted.insert(k, v);
    }
    let parts: Vec<String> = sorted.iter().map(|(k, v)| format!("{k:?}:{}", show(v))).collect();
    format!("{{{}}}", parts.join(","))
}

fn pos(room: u64, user: u64, typing: u64, presence: u64) -> SyncPos {
    SyncPos { room, user, typing, presence }
}

#[test]
fn sync_tokens_read_back() {
    for p in [pos(0, 0, 0, 0), pos(1, 22, 333, 4444), pos(u64::MAX, 1, 0, u64::MAX)] {
        assert_eq!(parse_token(&format_token(p)).unwrap(), p);
    }
    assert_eq!(format_token(pos(1, 2, 3, 4)), "s1_2_3_4");
    // Tokens of three parts window presence from the start.
    assert_eq!(parse_token("s5_6_7").unwrap(), pos(5, 6, 7, 0));
    for bad in ["", "s", "1_2_3_4", "s1_2", "s1_2_3_4_5", "s1_x_3_4", "s1__3_4"] {
        let e = parse_token(bad).unwrap_err();
        assert_eq!((e.status, e.message.as_str()), (400, "Invalid sync token"), "{bad}");
    }
    assert_eq!(token_user_seq("s1_2_3_4").unwrap(), 2);
    assert_eq!(token_room_seq("s1_2_3_4").unwrap(), 1);
}

#[test]
fn filters_bound_the_timeline() {
    assert_eq!(filter_limits(None), (10, false));
    let f = |timeline_limit, lazy_load_members| {
        filter_limits(Some(FilterFacts { timeline_limit, lazy_load_members }))
    };
    assert_eq!(f(None, true), (10, true));
    assert_eq!(f(Some(0), false), (1, false));
    assert_eq!(f(Some(1_000), false), (100, false));
    assert_eq!(f(Some(42), false), (42, false));
}

#[test]
fn filters_are_written_out_or_stored() {
    let lazy = r#"{"room":{"timeline":{"limit":42},"state":{"lazy_load_members":true}}}"#;
    let given = filter_param(Some(lazy));
    assert!(matches!(
        given,
        FilterParam::Definition(FilterFacts { timeline_limit: Some(42), lazy_load_members: true })
    ));
    assert_eq!(load_filter(&given, None).unwrap(), (42, true));
    assert_eq!(load_filter(&filter_param(Some("{}")), None).unwrap(), (10, false));
    let absent = filter_param(None);
    assert!(matches!(absent, FilterParam::Absent));
    assert_eq!(load_filter(&absent, None).unwrap(), (10, false));
    // What is no filter is an ID.
    let id = match filter_param(Some("7")) {
        FilterParam::Id(id) => id,
        other => panic!("{other:?}"),
    };
    assert_eq!(id, "7");
    assert!(matches!(filter_param(Some("{\"room\":1}")), FilterParam::Id(_)));
    let id = FilterParam::Id(id);
    assert_eq!(load_filter(&id, Some(lazy)).unwrap(), (42, true));
    let e = load_filter(&id, None).unwrap_err();
    assert_eq!((e.status, e.message.as_str()), (400, "Unknown filter ID"));
    let e = load_filter(&id, Some("{\"room\":{\"timeline\":{\"limit\":-1}}}")).unwrap_err();
    assert_eq!((e.status, e.errcode.as_str()), (500, "M_UNKNOWN"));
    assert!(!e.message.is_empty());
}

fn entry(membership: &str, sender: &str, seq: u64) -> MembershipEntry {
    MembershipEntry { membership: t(membership), sender: t(sender), seq }
}

#[test]
fn rooms_are_planned_by_membership() {
    let since = Some(pos(4, 10, 0, 0));
    let none: Vec<String> = vec![];
    assert_eq!(
        plan_room(&entry("join", "@a:x", 5), since, &none),
        RoomAction::Joined { initial: false, since: pos(4, 10, 0, 0) }
    );
    // A join that the client has not synced yet starts from zero.
    assert_eq!(
        plan_room(&entry("join", "@a:x", 11), since, &none),
        RoomAction::Joined { initial: true, since: pos(0, 0, 0, 0) }
    );
    assert_eq!(
        plan_room(&entry("join", "@a:x", 5), None, &none),
        RoomAction::Joined { initial: true, since: pos(0, 0, 0, 0) }
    );
    assert_eq!(plan_room(&entry("invite", "@a:x", 11), since, &none), RoomAction::Invited);
    assert_eq!(plan_room(&entry("invite", "@a:x", 10), since, &none), RoomAction::Skip);
    assert_eq!(plan_room(&entry("invite", "@a:x", 11), since, &vec![t("@a:x")]), RoomAction::Skip);
    assert_eq!(plan_room(&entry("leave", "@a:x", 11), since, &none), RoomAction::Left);
    assert_eq!(plan_room(&entry("ban", "@a:x", 11), since, &none), RoomAction::Left);
    assert_eq!(plan_room(&entry("leave", "@a:x", 11), None, &none), RoomAction::Skip);
    assert_eq!(plan_room(&entry("knock", "@a:x", 11), since, &none), RoomAction::Skip);
}

#[test]
fn ignored_users_are_listed() {
    let data = obj(vec![("ignored_users", obj(vec![("@a:x", obj(vec![])), ("@b:x", obj(vec![]))]))]);
    let mut ignored = ignored_users(&Some(data));
    ignored.sort();
    assert_eq!(ignored, vec!["@a:x", "@b:x"]);
    assert!(ignored_users(&None).is_empty());
    assert!(ignored_users(&Some(obj(vec![("ignored_users", Json::Int(1))]))).is_empty());
}

fn row(seq: u64, sender: &str) -> TimelineRow {
    TimelineRow { seq, event: Some(obj(vec![("sender", js(sender)), ("n", Json::Int(seq as i128))])) }
}

#[test]
fn the_window_holds_the_newest() {
    let w = timeline_window(vec![row(9, "@a:x"), row(8, "@b:x"), row(7, "@a:x")], 2);
    assert!(w.limited);
    assert_eq!(w.rows.iter().map(|r| r.seq).collect::<Vec<_>>(), vec![8, 9]);
    assert_eq!(prev_batch(&w, pos(20, 0, 0, 0)), Some(t("t8_20")));
    assert_eq!(state_position(&w, pos(20, 0, 0, 0)), 7);
    let (events, senders) = window_events(&w.rows);
    assert_eq!(events.len(), 2);
    assert_eq!(senders, vec!["@b:x", "@a:x"]);
    let w = timeline_window(vec![], 2);
    assert!(!w.limited);
    assert_eq!(prev_batch(&w, pos(20, 0, 0, 0)), None);
    assert_eq!(state_position(&w, pos(20, 0, 0, 0)), 20);
}

fn state(event_type: &str, key: &str, id: &str) -> StateEvent {
    StateEvent {
        event_type: t(event_type),
        state_key: t(key),
        event_id: t(id),
        event: Some(obj(vec![("id", js(id))])),
        rejected: false,
    }
}

#[test]
fn state_is_what_changed() {
    let now = vec![
        state("m.room.name", "", "$n2"),
        state("m.room.topic", "", "$t1"),
        state("m.room.member", "@a:x", "$a"),
        state("m.room.member", "@b:x", "$b"),
    ];
    let base = vec![state("m.room.name", "", "$n1"), state("m.room.topic", "", "$t1")];
    let ids = |v: Vec<Json>| v.iter().map(show).collect::<Vec<_>>();
    assert_eq!(
        ids(sync_state(&now, &base, false, &vec![])),
        vec!["{\"id\":\"$n2\"}", "{\"id\":\"$a\"}", "{\"id\":\"$b\"}"]
    );
    assert_eq!(
        ids(sync_state(&now, &base, true, &vec![t("@b:x")])),
        vec!["{\"id\":\"$n2\"}", "{\"id\":\"$b\"}"]
    );
    assert_eq!(sync_state(&now, &now, false, &vec![]).len(), 0);
}

fn receipt(user: &str, kind: &str, event: &str, seq: u64) -> ReceiptRow {
    ReceiptRow { user_id: t(user), receipt_type: t(kind), event_id: t(event), seq, ts: seq * 100 }
}

#[test]
fn private_receipts_stay_private() {
    let rows = vec![
        receipt("@a:x", "m.read", "$e1", 5),
        receipt("@b:x", "m.read", "$e1", 6),
        receipt("@b:x", "m.read.private", "$e2", 6),
        receipt("@a:x", "m.read.private", "$e2", 7),
        receipt("@c:x", "m.read", "$e3", 30),
    ];
    let since = pos(5, 0, 0, 0);
    let now = pos(20, 0, 0, 0);
    assert_eq!(
        show_map(&sync_receipts(&rows, false, since, now, "@a:x")),
        "{\"$e1\":{\"m.read\":{\"@b:x\":{\"ts\":600}}},\"$e2\":{\"m.read.private\":{\"@a:x\":{\"ts\":700}}}}"
    );
    let all = show_map(&sync_receipts(&rows, true, since, now, "@c:x"));
    assert_eq!(
        all,
        "{\"$e1\":{\"m.read\":{\"@a:x\":{\"ts\":500},\"@b:x\":{\"ts\":600}}},\
         \"$e3\":{\"m.read\":{\"@c:x\":{\"ts\":3000}}}}"
    );
}

#[test]
fn typing_shows_when_it_changes() {
    let events = |users: &Vec<String>, gen: u64, initial: bool| {
        ephemeral_events(vec![], users, gen, initial, pos(0, 0, 3, 0), pos(0, 0, 9, 0))
            .iter()
            .map(show)
            .collect::<Vec<_>>()
    };
    let one = vec![t("@a:x")];
    let shown = vec![t("{\"content\":{\"user_ids\":[\"@a:x\"]},\"type\":\"m.typing\"}")];
    assert_eq!(events(&one, 4, false), shown);
    assert!(events(&one, 3, false).is_empty());
    assert!(events(&one, 10, false).is_empty());
    assert_eq!(events(&vec![], 4, false), vec!["{\"content\":{\"user_ids\":[]},\"type\":\"m.typing\"}"]);
    assert_eq!(events(&one, 0, true), shown);
    assert!(events(&vec![], 4, true).is_empty());
    assert_eq!(
        show(&make_event("m.receipt", obj(vec![("$e", Json::Null)]))),
        "{\"content\":{\"$e\":null},\"type\":\"m.receipt\"}"
    );
}

#[test]
fn account_data_is_scoped() {
    let data = |scope: &str, data_type: &str, seq: u64| AccountData {
        scope: t(scope),
        data_type: t(data_type),
        content: obj(vec![]),
        seq,
    };
    let rows = vec![data("", "a", 5), data("!r:x", "b", 6), data("", "c", 3)];
    let kinds = |scope: &str, initial: bool| {
        account_data_events(&rows, scope, initial, pos(0, 3, 0, 0)).iter().map(show).collect::<Vec<_>>()
    };
    assert_eq!(kinds("", false), vec!["{\"content\":{},\"type\":\"a\"}"]);
    assert_eq!(kinds("", true).len(), 2);
    assert_eq!(kinds("!r:x", false), vec!["{\"content\":{},\"type\":\"b\"}"]);
}

#[test]
fn the_inbox_is_windowed() {
    let rows: Vec<InboxRow> =
        (1..=5).map(|seq| InboxRow { seq, event: Json::Int(seq as i128) }).collect();
    let shown = |since: Option<SyncPos>| {
        to_device_window(&rows, since, pos(0, 4, 0, 0)).iter().map(show).collect::<Vec<_>>()
    };
    assert_eq!(shown(None), vec!["1", "2", "3", "4"]);
    assert_eq!(shown(Some(pos(0, 2, 0, 0))), vec!["3", "4"]);
    assert!(must_acknowledge(Some(2), Some(pos(0, 2, 0, 0))));
    assert!(!must_acknowledge(Some(3), Some(pos(0, 2, 0, 0))));
    assert!(!must_acknowledge(None, Some(pos(0, 2, 0, 0))));
    assert!(!must_acknowledge(Some(1), None));
}

fn changed(user: &str, room: &str, at: u64) -> PresenceRow {
    let mut row = PresenceRow { snapshot: snapshot(user, "online", None), joined: vec![t(room)], ago: 1 };
    row.snapshot.entry.changed_at = at;
    row
}

fn snapshot(user: &str, presence: &str, status: Option<&str>) -> PresenceSnapshot {
    PresenceSnapshot {
        user_id: t(user),
        entry: PresenceEntry {
            presence: t(presence),
            status_msg: status.map(t),
            last_active: 0,
            changed_at: 1,
        },
    }
}

#[test]
fn presence_is_seen_in_shared_rooms() {
    assert_eq!(
        show(&presence_event(&snapshot("@a:x", "online", Some("hi")), 40)),
        "{\"content\":{\"currently_active\":true,\"last_active_ago\":40,\"presence\":\"online\",\
         \"status_msg\":\"hi\"},\"sender\":\"@a:x\",\"type\":\"m.presence\"}"
    );
    assert_eq!(
        show(&presence_event(&snapshot("@a:x", "unavailable", None), 0)),
        "{\"content\":{\"currently_active\":false,\"last_active_ago\":0,\
         \"presence\":\"unavailable\"},\"sender\":\"@a:x\",\"type\":\"m.presence\"}"
    );
    let r = vec![t("!r:x")];
    assert!(presence_visible("@a:x", "@a:x", &vec![], &vec![]));
    assert!(presence_visible("@b:x", "@a:x", &r, &r));
    assert!(!presence_visible("@b:x", "@a:x", &r, &vec![t("!q:x")]));
}

#[test]
fn an_empty_sync_waits() {
    let none = ResponseSize { rooms: 0, account_data: 0, presence: 0, to_device: 0, changed: 0, left: 0 };
    let since = Some(pos(1, 1, 1, 1));
    assert!(!sync_events(since, none, 30_000));
    assert!(sync_events(None, none, 30_000));
    assert!(sync_events(since, none, 0));
    for one in [
        ResponseSize { rooms: 1, ..none },
        ResponseSize { account_data: 1, ..none },
        ResponseSize { presence: 1, ..none },
        ResponseSize { to_device: 1, ..none },
        ResponseSize { changed: 1, ..none },
        ResponseSize { left: 1, ..none },
    ] {
        assert!(sync_events(since, one, 30_000));
    }
    assert_eq!(sync_timeout(None), 0);
    assert_eq!(sync_timeout(Some(90_000)), 60_000);
    assert_eq!(sync_timeout(Some(5)), 5);
    assert!(unchanged(false, 0, 0, 0, 0));
    assert!(!unchanged(true, 0, 0, 0, 0));
    assert!(!unchanged(false, 0, 0, 1, 0));
}

#[test]
fn invited_rooms_show_stripped_state() {
    let mut member = state("m.room.member", "@a:x", "$m");
    member.event = Some(obj(vec![("type", js("m.room.member")), ("depth", Json::Int(1))]));
    let mut other = state("m.room.member", "@z:x", "$z");
    other.event = Some(obj(vec![("type", js("m.room.member"))]));
    let mut create = state("m.room.create", "", "$c");
    create.event = Some(obj(vec![("type", js("m.room.create")), ("depth", Json::Int(1))]));
    let shown = build_invited_room(&vec![member, other, create], "@a:x", "@i:x");
    assert_eq!(
        shown.iter().map(show).collect::<Vec<_>>(),
        vec!["{\"depth\":1,\"type\":\"m.room.create\"}", "{\"type\":\"m.room.member\"}"]
    );
}

#[test]
fn unread_messages_are_counted() {
    let r = |kind: &str, seq: Option<u64>| ReceiptPos {
        user_id: t("@a:x"),
        receipt_type: t(kind),
        thread_id: None,
        seq,
    };
    assert_eq!(read_seq(&vec![r("m.read", Some(4)), r("m.read.private", Some(6)), r("x", Some(9))], "@a:x"), 6);
    assert_eq!(read_seq(&vec![r("m.read", None)], "@a:x"), 0);
    let ev = |kind: &str, sender: &str| obj(vec![("type", js(kind)), ("sender", js(sender))]);
    assert_eq!(
        unread_count(
            &vec![
                ev("m.room.message", "@b:x"),
                ev("m.room.message", "@a:x"),
                ev("m.reaction", "@b:x"),
                obj(vec![("type", js("m.room.message"))]),
            ],
            "@a:x"
        ),
        2
    );
}

#[test]
fn receipts_point_into_their_room() {
    let ev = Some(obj(vec![("room_id", js("!r:x"))]));
    assert!(write_receipt(&ev, "!r:x").is_ok());
    assert!(write_receipt(&Some(obj(vec![])), "!r:x").is_ok());
    assert_eq!(write_receipt(&None, "!r:x").unwrap_err().message, "Unknown event");
    assert_eq!(write_receipt(&ev, "!q:x").unwrap_err().message, "Event not in this room");
    assert_eq!(send_receipt("m.read").unwrap(), ReceiptAction::WriteRead);
    assert_eq!(send_receipt("m.read.private").unwrap(), ReceiptAction::WriteReadPrivate);
    assert_eq!(send_receipt("m.fully_read").unwrap(), ReceiptAction::SetFullyRead);
    assert_eq!(send_receipt("m.odd").unwrap_err().message, "Unknown receipt type");
    assert_eq!(show(&fully_read_content("$e")), "{\"event_id\":\"$e\"}");
    let writes = set_read_markers(Some(t("$a")), Some(t("$b")));
    assert_eq!(
        writes.iter().map(|w| (w.receipt_type.as_str(), w.event_id.as_str())).collect::<Vec<_>>(),
        vec![("m.read", "$a"), ("m.read.private", "$b")]
    );
    assert!(set_read_markers(None, None).is_empty());
}

#[test]
fn typing_is_ones_own() {
    assert!(send_typing("@a:x", "@a:x").is_ok());
    let e = send_typing("@b:x", "@a:x").unwrap_err();
    assert_eq!((e.status, e.message.as_str()), (403, "Cannot set another user's typing state"));
    assert_eq!(typing_timeout(500), 500);
    assert_eq!(typing_timeout(500_000), 120_000);
    assert_eq!(
        show(&typing_edu("!r:x", "@a:x", true)),
        "{\"content\":{\"room_id\":\"!r:x\",\"typing\":true,\"user_id\":\"@a:x\"},\
         \"edu_type\":\"m.typing\"}"
    );
}

fn joined_input() -> JoinedInput {
    JoinedInput {
        room_id: t("!r:x"),
        user_id: t("@a:x"),
        initial: false,
        since: pos(5, 5, 5, 5),
        now: pos(9, 9, 9, 9),
        lazy: false,
        window: Window { rows: vec![row(8, "@b:x")], limited: true },
        start_state: vec![state("m.room.name", "", "$n")],
        base_state: vec![],
        receipts: vec![receipt("@b:x", "m.read", "$e", 7)],
        typing_users: vec![t("@b:x")],
        typing_gen: 6,
        account_data: vec![],
        unread: vec![obj(vec![("type", js("m.room.message")), ("sender", js("@b:x"))])],
    }
}

#[test]
fn a_joined_room_is_put_together() {
    let j: JoinedRoom = build_joined_room(&joined_input());
    assert!(j.limited);
    assert_eq!(j.prev_batch, Some(t("t8_9")));
    assert_eq!((j.timeline.len(), j.state.len(), j.ephemeral.len(), j.account_data.len()), (1, 1, 2, 0));
    assert_eq!(show(&j.state[0]), "{\"id\":\"$n\"}");
    assert_eq!((j.notification_count, j.highlight_count), (1, 0));
}

#[test]
fn a_sync_is_put_together() {
    let input = SyncInput {
        since: Some(pos(5, 5, 5, 5)),
        now: pos(9, 9, 9, 9),
        user_id: t("@a:x"),
        ignored: Some(obj(vec![("ignored_users", obj(vec![("@evil:x", obj(vec![]))]))])),
        rooms: vec![
            RoomRow {
                room_id: t("!j:x"),
                entry: entry("join", "@a:x", 3),
                joined: Some(build_joined_room(&joined_input())),
            },
            RoomRow { room_id: t("!i:x"), entry: entry("invite", "@b:x", 6), joined: None },
            RoomRow { room_id: t("!e:x"), entry: entry("invite", "@evil:x", 6), joined: None },
            RoomRow { room_id: t("!l:x"), entry: entry("leave", "@a:x", 7), joined: None },
            RoomRow { room_id: t("bad"), entry: entry("leave", "@a:x", 7), joined: None },
        ],
        account_data: vec![AccountData { scope: t(""), data_type: t("d"), content: Json::Null, seq: 6 }],
        inbox: vec![InboxRow { seq: 6, event: Json::Int(6) }],
        devices_changed: vec![t("@b:x"), t("nobody")],
        devices_left: vec![t("@c:x")],
        presence: vec![
            changed("@b:x", "!j:x", 9),
            changed("@c:x", "!q:x", 9),
            // Outside the window.
            changed("@d:x", "!j:x", 5),
            changed("@e:x", "!j:x", 10),
        ],
    };
    let r = build_sync(&input);
    assert_eq!(r.next_batch, "s9_9_9_9");
    assert_eq!(
        r.rooms,
        vec![
            Placement::Join,
            Placement::Invite,
            Placement::Nowhere,
            Placement::Leave,
            Placement::Nowhere
        ]
    );
    assert_eq!(r.account_data.len(), 1);
    assert_eq!(r.to_device.iter().map(show).collect::<Vec<_>>(), vec!["6"]);
    assert_eq!((r.changed, r.left), (vec![t("@b:x")], vec![t("@c:x")]));
    assert_eq!(r.presence.len(), 1);
    assert_eq!(device_list_users(&vec![t("x"), t("@a:x")]), vec!["@a:x"]);
}

#[test]
fn a_left_room_shows_its_last_events() {
    let rows = |list: &[(u64, Option<i128>)]| -> Vec<TimelineRow> {
        list.iter().map(|(seq, n)| TimelineRow { seq: *seq, event: n.map(Json::Int) }).collect()
    };
    let all = rows(&[(8, Some(8)), (7, Some(7)), (6, None), (5, Some(5))]);
    let texts = |v: Vec<Json>| v.iter().map(show).collect::<Vec<_>>();
    // Up to the leave and with it.
    assert_eq!(texts(build_left_room(&all, Some(7))), vec!["5", "7"]);
    assert_eq!(texts(build_left_room(&all, None)), vec!["5", "7", "8"]);
}

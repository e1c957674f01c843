use saltator_cs_api::appservice_push::{
    after_push, event_member, interested, local_members, next_backoff, plan, raw_str, raw_type,
    Batch, Interest, MemberInterest, Plan, MAX_EVENTS_PER_TXN,
};
use saltator_cs_api::json::Json;
use saltator_cs_api::push_eval::rule_inputs;
use saltator_cs_api::push_gateway::{
    http_pusher, http_pushers, is_own, next_pass, notification, notifies, notify_event,
    notify_user, rejected, tweaks_of, Pass, PushAction, PushedEvent,
};
use saltator_cs_api::routes::push::{
    change_rule, check_gateway, copy_rules_from_predecessor, delete_pushrule, find_rule,
    get_pushrule_attr, get_pushrules, put_pushrule_attr, put_rule, rules_or_default, set_pushers,
    try_put_pushrule, user_ruleset, AttrChange, ListParam,
};

fn t(x: &str) -> String {
    x.to_owned()
}

fn js(x: &str) -> Json {
    Json::Str(x.to_owned())
}

fn obj(fields: Vec<(&str, Json)>) -> Json {
    Json::Object(map(fields))
}

fn map(fields: Vec<(&str, Json)>) -> Vec<(String, Json)> {
    fields.into_iter().map(|(k, v)| (k.to_owned(), v)).collect()
}

/// A value as compact JSON text, its fields in the order of their names.
fn show(j: &Json) -> String {
    match j {
        Json::Null => t("null"),
        Json::Bool(b) => b.to_string(),
        Json::Int(i) => i.to_string(),
        Json::Number(n) => n.clone(),
        Json::Str(s) => format!("{s:?}"),
        Json::Array(items) => {
            format!("[{}]", items.iter().map(show).collect::<Vec<String>>().join(","))
        }
        Json::Object(m) => show_map(m),
    }
}

fn show_map(m: &Vec<(String, Json)>) -> String {
    let mut sorted: std::collections::BTreeMap<&String, &Json> = std::collections::BTreeMap::new();
    for (k, v) in m {
        sorted.insert(k, v);
    }
    let parts: Vec<String> = sorted.iter().map(|(k, v)| format!("{k:?}:{}", show(v))).collect();
    format!("{{{}}}", parts.join(","))
}

fn pusher(format: Option<&str>) -> Json {
    let mut data = vec![("url", js("https://push/_matrix/push/v1/notify")), ("brand", js("b"))];
    if let Some(f) = format {
        data.push(("format", js(f)));
    }
    obj(vec![
        ("kind", js("http")),
        ("app_id", js("app")),
        ("pushkey", js("key")),
        ("data", obj(data)),
    ])
}

fn pushed() -> PushedEvent {
    PushedEvent {
        event: obj(vec![
            ("type", js("m.room.message")),
            ("sender", js("@b:x")),
            ("content", obj(vec![("body", js("hi"))])),
        ]),
        event_id: t("$e"),
        room_id: t("!r:x"),
        unread: 3,
        room_name: Some(t("Lobby")),
        sender_display_name: None,
    }
}

#[test]
fn passes_start_at_the_tip() {
    assert_eq!(next_pass(false, Some(4)), Pass::Wait);
    assert_eq!(next_pass(true, None), Pass::FromTip);
    assert_eq!(next_pass(true, Some(4)), Pass::From(4));
}

#[test]
fn tweaks_ride_along() {
    let actions = vec![
        PushAction::Notify,
        PushAction::Sound(t("a")),
        PushAction::Highlight(true),
        PushAction::Sound(t("default")),
        PushAction::Other,
    ];
    assert!(notifies(&actions));
    assert!(!notifies(&vec![PushAction::Highlight(true)]));
    assert_eq!(show_map(&tweaks_of(&actions)), "{\"highlight\":true,\"sound\":\"default\"}");
    assert!(tweaks_of(&vec![PushAction::Notify]).is_empty());
}

#[test]
fn gateways_get_the_notification() {
    let tweaks = map(vec![("sound", js("default"))]);
    assert_eq!(
        show(&notification(&pusher(None), &tweaks, &pushed())),
        "{\"notification\":{\"content\":{\"body\":\"hi\"},\"counts\":{\"unread\":3},\
         \"devices\":[{\"app_id\":\"app\",\"data\":{\"brand\":\"b\"},\"pushkey\":\"key\",\
         \"tweaks\":{\"sound\":\"default\"}}],\"event_id\":\"$e\",\"prio\":\"high\",\
         \"room_id\":\"!r:x\",\"room_name\":\"Lobby\",\"sender\":\"@b:x\",\"type\":\"m.room.message\"}}"
    );
    assert_eq!(
        show(&notification(&pusher(Some("event_id_only")), &vec![], &pushed())),
        "{\"notification\":{\"counts\":{\"unread\":3},\"devices\":[{\"app_id\":\"app\",\
         \"data\":{\"brand\":\"b\",\"format\":\"event_id_only\"},\"pushkey\":\"key\"}],\
         \"event_id\":\"$e\",\"prio\":\"high\",\"room_id\":\"!r:x\"}}"
    );
}

#[test]
fn only_others_events_are_pushed() {
    let notify = vec![PushAction::Notify];
    let sent = notify_user(&pushed(), "@a:x", &notify, &vec![pusher(None), pusher(None)]);
    assert_eq!(sent.len(), 2);
    assert_eq!(sent[0].url, "https://push/_matrix/push/v1/notify");
    assert!(sent[0].body.get("notification").is_some());
    assert!(notify_user(&pushed(), "@b:x", &notify, &vec![pusher(None)]).is_empty());
    assert!(notify_user(&pushed(), "@a:x", &vec![], &vec![pusher(None)]).is_empty());
    assert!(is_own(&pushed().event, "@b:x") && !is_own(&pushed().event, "@a:x"));
    assert!(http_pusher(&pusher(None)));
    assert!(!http_pusher(&obj(vec![("kind", js("email"))])));
}

#[test]
fn rejected_keys_drop_their_pusher() {
    let answer = |keys: Json| obj(vec![("rejected", keys)]);
    assert!(rejected(&pusher(None), &answer(Json::Array(vec![js("x"), js("key")]))));
    assert!(!rejected(&pusher(None), &answer(Json::Array(vec![js("x")]))));
    // A list that holds something else is not read.
    assert!(!rejected(&pusher(None), &answer(Json::Array(vec![js("key"), Json::Int(1)]))));
    assert!(!rejected(&pusher(None), &obj(vec![])));
}

#[test]
fn batches_leave_nothing_out() {
    let mut b = Batch::start(10);
    b.take(11, None);
    assert!(matches!(plan(2, &b), Plan::Advance(11)));
    b.take(12, Some(js("x")));
    b.take(13, None);
    b.take(15, Some(js("y")));
    match plan(2, &b) {
        Plan::Push(txn) => assert_eq!(txn, "s2_12_15_2"),
        Plan::Advance(_) => panic!("events are pending"),
    }
    assert_eq!(b.events.iter().map(show).collect::<Vec<_>>(), vec!["\"x\"", "\"y\""]);
    assert_eq!(after_push(10, &b, true), 15);
    assert_eq!(after_push(10, &b, false), 10);
    let mut full = Batch::start(0);
    for i in 0..MAX_EVENTS_PER_TXN as u64 {
        assert!(!full.is_full());
        full.take(i + 1, Some(Json::Int(i as i128)));
    }
    assert!(full.is_full());
    // A refused transaction is sent again as it was, whatever came since.
    let rows: Vec<(u64, Option<Json>)> = (1..=150).map(|i| (i, Some(Json::Int(i as i128)))).collect();
    let gather = |cursor: u64, n: usize| {
        let mut b = Batch::start(cursor);
        for (seq, event) in rows.iter().take(n) {
            if b.is_full() {
                break;
            }
            b.take(*seq, event.as_ref().map(|e| e.copy()));
        }
        b
    };
    let sent = gather(0, 120);
    let again = gather(after_push(0, &sent, false), 150);
    match (plan(1, &sent), plan(1, &again)) {
        (Plan::Push(a), Plan::Push(b)) => assert_eq!((a.as_str(), b.as_str()), ("s1_1_100_100", "s1_1_100_100")),
        _ => panic!("events are pending"),
    }
    assert_eq!(
        sent.events.iter().map(show).collect::<Vec<_>>(),
        again.events.iter().map(show).collect::<Vec<_>>()
    );
}

#[test]
fn backoff_doubles_up_to_its_bound() {
    let mut last: Option<u64> = None;
    let mut seen: Vec<u64> = vec![];
    for _ in 0..11 {
        let next = next_backoff(last);
        seen.push(next);
        last = Some(next);
    }
    assert_eq!(seen, vec![1, 2, 4, 8, 16, 32, 64, 128, 256, 300, 300]);
}

#[test]
fn interest_is_found_cheaply_first() {
    assert_eq!(interested(true, false, false, false, Some(false)), Interest::Yes);
    assert_eq!(interested(false, true, false, false, Some(false)), Interest::Yes);
    assert_eq!(interested(false, false, true, false, Some(false)), Interest::Yes);
    assert_eq!(interested(false, false, false, true, Some(false)), Interest::Yes);
    assert_eq!(interested(false, false, false, false, Some(true)), Interest::Yes);
    assert_eq!(interested(false, false, false, false, Some(false)), Interest::No);
    assert_eq!(interested(false, false, false, false, None), Interest::AskMembers);
    let members = vec![t("@a:hs1"), t("@b:hs2"), t("@c:xhs1"), t("@d:hs1")];
    assert_eq!(local_members(&members, "hs1"), vec!["@a:hs1", "@d:hs1"]);
    let mut m = MemberInterest::new();
    assert_eq!(m.recall("!r:x"), None);
    m.remember("!r:x", true);
    m.remember("!q:x", false);
    assert_eq!((m.recall("!r:x"), m.recall("!q:x")), (Some(true), Some(false)));
    m.forget("!r:x");
    assert_eq!((m.recall("!r:x"), m.recall("!q:x")), (None, Some(false)));
    let raw = map(vec![("type", js("m.room.member")), ("state_key", js("@a:x")), ("n", Json::Int(1))]);
    assert_eq!(raw_type(&raw), Some("m.room.member"));
    assert_eq!(raw_str(&raw, "n"), None);
    assert_eq!(event_member(&raw), Some("@a:x"));
    assert_eq!(event_member(&map(vec![("type", js("m.x")), ("state_key", js("@a:x"))])), None);
}

fn defaults() -> ruma::push::Ruleset {
    user_ruleset(None, "@ann:x").unwrap()
}

/// The text of the actions in a request.
const NOTIFY: Option<&str> = Some("[\"notify\"]");

fn notify() -> ListParam<ruma::push::Action> {
    ListParam::Read(vec![ruma::push::Action::Notify])
}

fn rule_ids(rules: &ruma::push::Ruleset, kind: &str) -> Vec<String> {
    let all = serde_json::to_value(rules).unwrap();
    all[kind]
        .as_array()
        .cloned()
        .unwrap_or_default()
        .iter()
        .map(|r| t(r["rule_id"].as_str().unwrap()))
        .collect()
}

#[test]
fn the_server_brings_rules() {
    let rules = defaults();
    assert_eq!(rule_ids(&rules, "override")[0], ".m.rule.master");
    assert!(!rule_ids(&rules, "underride").is_empty());
    assert!(user_ruleset(None, "ann").is_none());
    let own = rules_or_default(Some(ruma::push::Ruleset::new()), "@ann:x");
    assert!(rule_ids(&own, "override").is_empty());
    assert_eq!(rule_ids(&rules_or_default(None, "@ann:x"), "override")[0], ".m.rule.master");
}

#[test]
fn stored_rules_are_read() {
    let stored = |text: &str| rule_ids(&user_ruleset(Some(text), "@ann:x").unwrap(), "room");
    let rule = r#"{"actions":[],"default":false,"enabled":true,"rule_id":"!r:x"}"#;
    let content = format!("{{\"global\":{{\"room\":[{rule}]}}}}");
    assert_eq!(stored(&content), vec!["!r:x"]);
    let own = user_ruleset(Some(&content), "@ann:x").unwrap();
    assert!(rule_ids(&own, "override").is_empty());
    // What cannot be read is as if it were not there.
    for odd in ["", "{}", "[]", "{\"global\":1}", "{\"global\":{\"room\":[{}]}}"] {
        let rules = user_ruleset(Some(odd), "@ann:x").unwrap();
        assert_eq!(rule_ids(&rules, "override")[0], ".m.rule.master", "{odd}");
    }
    // Rules that are stored and read again are the same.
    let mut rules = defaults();
    assert!(try_put_pushrule(&mut rules, "room", "!q:x", None, NOTIFY, None).unwrap().is_ok());
    let text = get_pushrules(&rules).unwrap();
    assert!(text.starts_with("{\"global\":{"));
    let again = user_ruleset(Some(&text), "@ann:x").unwrap();
    assert_eq!(get_pushrules(&again).unwrap(), text);
}

#[test]
fn rules_that_are_put_are_there() {
    let mut rules = defaults();
    let put = |rules: &mut ruma::push::Ruleset, kind: &str, id: &str, pattern: Option<&str>| {
        try_put_pushrule(rules, kind, id, pattern, NOTIFY, None).unwrap()
    };
    assert!(put(&mut rules, "room", "!r:x", None).is_ok());
    assert!(put(&mut rules, "sender", "@b:x", None).is_ok());
    assert!(put(&mut rules, "content", "word", Some("cake")).is_ok());
    assert!(put(&mut rules, "override", "mine", None).is_ok());
    assert!(put(&mut rules, "underride", "low", None).is_ok());
    assert_eq!(rule_ids(&rules, "room"), vec!["!r:x"]);
    assert_eq!(rule_ids(&rules, "sender"), vec!["@b:x"]);
    assert_eq!(rule_ids(&rules, "content")[0], "word");
    // Behind the master rule, which stays first.
    assert_eq!(rule_ids(&rules, "override")[..2], [t(".m.rule.master"), t("mine")]);
    assert_eq!(rule_ids(&rules, "underride")[0], "low");
    let fault = |kind: &str, id: &str, pattern: Option<&str>| {
        try_put_pushrule(&mut defaults(), kind, id, pattern, NOTIFY, None)
            .unwrap()
            .unwrap_err()
            .message
    };
    assert_eq!(fault("room", "x", None), "room rule ID must be a room ID");
    assert_eq!(fault("sender", "x", None), "sender rule ID must be a user ID");
    assert_eq!(fault("content", "x", None), "Missing pattern");
    assert_eq!(fault("odd", "x", None), "Unknown rule kind");
    assert!(!fault("override", ".mine", None).is_empty());
    let asked = |actions: Option<&str>, conditions: Option<&str>| {
        try_put_pushrule(&mut defaults(), "underride", "x", None, actions, conditions)
            .unwrap()
            .unwrap_err()
            .message
    };
    assert_eq!(asked(None, None), "Missing actions");
    assert_eq!(asked(Some("5"), None), "actions: invalid type: integer `5`, expected a sequence");
    assert_eq!(
        asked(NOTIFY, Some("{}")),
        "conditions: invalid type: map, expected a sequence"
    );
    let put = |actions: ListParam<ruma::push::Action>, conditions| {
        put_rule(&mut defaults(), "underride", "x", None, actions, conditions).unwrap_err().message
    };
    assert_eq!(put(ListParam::Absent, ListParam::Absent), "Missing actions");
    assert_eq!(put(ListParam::Fault(t("bad")), ListParam::Absent), "actions: bad");
    assert_eq!(put(notify(), ListParam::Fault(t("bad"))), "conditions: bad");
}

#[test]
fn a_first_override_rule_has_no_place() {
    let mut rules = ruma::push::Ruleset::new();
    assert!(try_put_pushrule(&mut rules, "override", "x", None, NOTIFY, None).is_none());
    assert!(rule_ids(&rules, "override").is_empty());
    assert!(
        try_put_pushrule(&mut rules, "underride", "x", None, NOTIFY, None)
            .unwrap()
            .is_ok()
    );
}

#[test]
fn server_rules_stay() {
    let mut rules = defaults();
    let _ = try_put_pushrule(&mut rules, "room", "!r:x", None, NOTIFY, None);
    assert!(delete_pushrule(&mut rules, "room", "!r:x").is_ok());
    assert!(rule_ids(&rules, "room").is_empty());
    let e = delete_pushrule(&mut rules, "room", "!r:x").unwrap_err();
    assert_eq!((e.status, e.message.as_str()), (404, "No such push rule"));
    assert!(delete_pushrule(&mut rules, "override", ".m.rule.master").is_err());
    assert_eq!(rule_ids(&rules, "override")[0], ".m.rule.master");
    let master = ".m.rule.master";
    let enable = put_pushrule_attr(&mut rules, "override", master, "enabled", Some(true), None);
    assert!(enable.is_ok());
    let all = serde_json::to_value(&rules).unwrap();
    assert_eq!(all["override"][0]["enabled"], serde_json::Value::Bool(true));
    assert!(put_pushrule_attr(&mut rules, "override", master, "actions", None, NOTIFY).is_ok());
    let all = serde_json::to_value(&rules).unwrap();
    assert_eq!(all["override"][0]["actions"][0], serde_json::Value::from("notify"));
    let fault = |attr: &str, enabled: Option<bool>, actions: Option<&str>| {
        put_pushrule_attr(&mut defaults(), "override", "nope", attr, enabled, actions)
            .unwrap_err()
            .message
    };
    assert_eq!(fault("enabled", None, NOTIFY), "Missing enabled");
    assert_eq!(fault("enabled", Some(true), None), "No such push rule");
    assert_eq!(fault("actions", Some(true), None), "Missing actions");
    assert_eq!(
        fault("actions", None, Some("{}")),
        "actions: invalid type: map, expected a sequence"
    );
    assert_eq!(fault("odd", Some(true), NOTIFY), "Unknown rule attribute");
    let change = |change: AttrChange| {
        change_rule(&mut defaults(), "override", "nope", change).unwrap_err().message
    };
    assert_eq!(change(AttrChange::Actions(ListParam::Fault(t("bad")))), "actions: bad");
    assert_eq!(change(AttrChange::Actions(notify())), "No such push rule");
}

#[test]
fn upgrades_carry_rules_over() {
    let mut rules = defaults();
    let _ = try_put_pushrule(&mut rules, "room", "!old:x", None, NOTIFY, None);
    assert!(copy_rules_from_predecessor(&mut rules, "!old:x", "!new:x"));
    assert_eq!(rule_ids(&rules, "room"), vec!["!new:x", "!old:x"]);
    assert!(!copy_rules_from_predecessor(&mut rules, "!other:x", "!new:x"));
    assert!(!copy_rules_from_predecessor(&mut rules, "!old:x", "new"));
    assert_eq!(rule_ids(&rules, "room").len(), 2);
}

#[test]
fn rules_are_looked_up() {
    let mut rules = defaults();
    let actions = Some("[\"notify\",{\"set_tweak\":\"sound\",\"value\":\"default\"}]");
    let conditions = Some("[{\"kind\":\"room_member_count\",\"is\":\"2\"}]");
    let put = |rules: &mut ruma::push::Ruleset, kind: &str, id: &str| {
        try_put_pushrule(rules, kind, id, Some("cake"), actions, conditions).unwrap().unwrap()
    };
    put(&mut rules, "room", "!r:x");
    put(&mut rules, "content", "word");
    put(&mut rules, "underride", "pair");
    let shown = |rules: &ruma::push::Ruleset, kind: &str, id: &str| {
        let text = find_rule(rules, kind, id).unwrap();
        serde_json::from_str::<serde_json::Value>(&text).unwrap().to_string()
    };
    let actions = "[\"notify\",{\"set_tweak\":\"sound\",\"value\":\"default\"}]";
    assert_eq!(
        shown(&rules, "room", "!r:x"),
        format!("{{\"actions\":{actions},\"default\":false,\"enabled\":true,\"rule_id\":\"!r:x\"}}")
    );
    assert_eq!(
        shown(&rules, "content", "word"),
        format!(
            "{{\"actions\":{actions},\"default\":false,\"enabled\":true,\"pattern\":\"cake\",\
             \"rule_id\":\"word\"}}"
        )
    );
    assert_eq!(
        shown(&rules, "underride", "pair"),
        format!(
            "{{\"actions\":{actions},\
             \"conditions\":[{{\"is\":\"2\",\"kind\":\"room_member_count\"}}],\
             \"default\":false,\"enabled\":true,\"rule_id\":\"pair\"}}"
        )
    );
    // A rule is shown as it stands among the rules.
    let all = serde_json::to_value(&rules).unwrap();
    assert_eq!(shown(&rules, "override", ".m.rule.master"), all["override"][0].to_string());
    // A rule that is put again stays as enabled as it was.
    assert!(put_pushrule_attr(&mut rules, "room", "!r:x", "enabled", Some(false), None).is_ok());
    put(&mut rules, "room", "!r:x");
    let attr = |kind: &str, id: &str, attr: &str| get_pushrule_attr(&rules, kind, id, attr);
    assert_eq!(attr("room", "!r:x", "enabled").unwrap(), "{\"enabled\":false}");
    assert_eq!(attr("content", "word", "enabled").unwrap(), "{\"enabled\":true}");
    assert_eq!(attr("room", "!r:x", "actions").unwrap(), format!("{{\"actions\":{actions}}}"));
    assert_eq!(attr("room", "!r:x", "odd").unwrap_err().message, "Unknown rule attribute");
    let e = attr("room", "!q:x", "odd").unwrap_err();
    assert_eq!((e.status, e.message.as_str()), (404, "No such push rule"));
    assert_eq!(find_rule(&rules, "sender", "!r:x").unwrap_err().message, "No such push rule");
    assert_eq!(find_rule(&rules, "odd", "!r:x").unwrap_err().message, "No such push rule");
}

#[test]
fn pushers_name_a_gateway() {
    let good = "https://push/_matrix/push/v1/notify";
    assert!(check_gateway(good, Some("https")).is_ok());
    assert_eq!(
        check_gateway("https://push/", Some("https")).unwrap_err().message,
        "data.url must end with /_matrix/push/v1/notify"
    );
    assert_eq!(check_gateway(good, None).unwrap_err().message, "data.url is not a valid URL");
    assert_eq!(check_gateway(good, Some("ftp")).unwrap_err().message, "data.url must be http(s)");
    let body = |url: &str| {
        map(vec![
            ("app_id", js("app")),
            ("pushkey", js("key")),
            ("kind", js("http")),
            ("append", Json::Bool(true)),
            ("data", obj(vec![("url", js(url))])),
        ])
    };
    let plan = set_pushers(&body(good)).unwrap();
    assert_eq!((plan.app_id.as_str(), plan.pushkey.as_str()), ("app", "key"));
    assert_eq!(plan.gateway.as_deref(), Some(good));
    assert_eq!(
        show(&plan.pusher.unwrap()),
        "{\"app_id\":\"app\",\"data\":{\"url\":\"https://push/_matrix/push/v1/notify\"},\
         \"kind\":\"http\",\"pushkey\":\"key\"}"
    );
    let fault = |b: Vec<(String, Json)>| set_pushers(&b).unwrap_err().message;
    assert_eq!(fault(body("ftp://push/_matrix/push/v1/notify")), "data.url must be http(s)");
    assert_eq!(fault(body("/_matrix/push/v1/notify")), "data.url is not a valid URL");
    assert_eq!(fault(vec![]), "Missing app_id");
    assert_eq!(fault(map(vec![("app_id", js("a"))])), "Missing pushkey");
    assert_eq!(
        fault(map(vec![("app_id", js("a")), ("pushkey", js("k")), ("kind", js("http"))])),
        "http pushers require data.url"
    );
    let plan =
        set_pushers(&map(vec![("app_id", js("a")), ("pushkey", js("k")), ("kind", Json::Null)]));
    assert!(plan.unwrap().pusher.is_none());
}

#[test]
fn only_our_members_are_notified() {
    let members = vec![t("@a:x.org"), t("@b:y.org"), t("plain"), t("@c:x.org"), t("no-sigil:x.org")];
    assert_eq!(notify_event(&members, "x.org"), vec![t("@a:x.org"), t("@c:x.org")]);
}

#[test]
fn only_http_pushers_are_pushed_to() {
    let http = obj(vec![
        ("kind", js("http")),
        ("data", obj(vec![("url", js("https://push.x.org/_matrix/push/v1/notify"))])),
    ]);
    let email = obj(vec![("kind", js("email"))]);
    let kept = http_pushers(&vec![email.copy(), http.copy(), email.copy(), http.copy()]);
    assert_eq!(kept.iter().map(show).collect::<Vec<String>>(), vec![show(&http), show(&http)]);
    assert!(http_pushers(&vec![email]).is_empty());
}

#[test]
fn rules_look_at_the_name_or_the_localpart() {
    let named = rule_inputs(Some(t("Ann")), "@ann:x.org", 3);
    assert_eq!((named.display_name.as_str(), named.member_count), ("Ann", 3));
    let plain = rule_inputs(None, "@ann:x.org", 4_294_967_296);
    assert_eq!((plain.display_name.as_str(), plain.member_count), ("ann", u32::MAX));
}

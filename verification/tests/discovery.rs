use saltator_cs_api::error::ApiError;
use saltator_cs_api::json::Json;
use saltator_cs_api::routes::relations::{
    annotate_root, can_list_threads, get_threads, hide_unknown_room, parse_relations_query,
    relates_to, relations_common, sort_threads, threads_limit, threads_of, TimelineEvent,
};
use saltator_cs_api::routes::search::{
    matches_search, parse_search, rank_matches, respond, search, search_answer, search_context,
    search_next_batch, search_page_rows, search_result, search_scope, search_users, tokenize, user_directory,
    visible_users, DirectoryUser, SearchRow,
};
use saltator_cs_api::routes::spaces::{
    check_root, chunk, decode_cursor, encode_cursor, get_hierarchy, get_room_summary,
    hierarchy_path, link_via, page_rooms, parse_hierarchy_query, read_remote_room, server_of,
    viewable, Cursor, HierarchyQuery, Link, SpaceNode, Walk,
};

fn t(x: &str) -> String {
    x.to_owned()
}

fn js(x: &str) -> Json {
    Json::Str(x.to_owned())
}

fn obj(fields: Vec<(&str, Json)>) -> Json {
    Json::Object(map(fields))
}

fn map(fields: Vec<(&str, Json)>) -> Vec<(String, Json)> {
    fields.into_iter().map(|(k, v)| (k.to_owned(), v)).collect()
}

/// A value as compact JSON text, its fields in the order of their names.
fn show(j: &Json) -> String {
    match j {
        Json::Null => t("null"),
        Json::Bool(b) => b.to_string(),
        Json::Int(i) => i.to_string(),
        Json::Number(n) => n.clone(),
        Json::Str(s) => format!("{s:?}"),
        Json::Array(items) => {
            format!("[{}]", items.iter().map(show).collect::<Vec<String>>().join(","))
        }
        Json::Object(m) => show_map(m),
    }
}

fn show_map(m: &Vec<(String, Json)>) -> String {
    let mut sorted: std::collections::BTreeMap<&String, &Json> = std::collections::BTreeMap::new();
    for (k, v) in m {
        sorted.insert(k, v);
    }
    let parts: Vec<String> = sorted.iter().map(|(k, v)| format!("{k:?}:{}", show(v))).collect();
    format!("{{{}}}", parts.join(","))
}

fn query(pairs: &[(&str, &str)]) -> Vec<(String, String)> {
    pairs.iter().map(|(k, v)| (t(k), t(v))).collect()
}

#[test]
fn words_are_lowercase_and_alphanumeric() {
    assert_eq!(tokenize("Hello, WORLD_2x! ÄÖ"), vec!["hello", "world", "2x", "äö"]);
    assert!(tokenize(" ,.!").is_empty());
    let ascii: String = (0u8..128).map(|b| b as char).collect();
    assert_eq!(
        tokenize(&ascii),
        vec!["0123456789", "abcdefghijklmnopqrstuvwxyz", "abcdefghijklmnopqrstuvwxyz"]
    );
    // A word is its own only word.
    for w in tokenize("Grüße an ALLE") {
        assert_eq!(tokenize(&w), vec![w.clone()]);
    }
}

#[test]
fn searches_are_bounded() {
    let q = parse_search("Hello world", None, None).unwrap();
    assert_eq!((q.terms, q.offset, q.limit), (vec![t("hello"), t("world")], 0, 10));
    let q = parse_search("x", Some("20"), Some(5_000)).unwrap();
    assert_eq!((q.offset, q.limit), (20, 100));
    assert_eq!(parse_search("x", None, Some(0)).unwrap().limit, 1);
    assert_eq!(
        parse_search("!?", None, None).unwrap_err().message,
        "search_term must not be empty"
    );
    assert_eq!(
        parse_search("x", Some("abc"), None).unwrap_err().message,
        "Invalid next_batch token"
    );
    assert_eq!((search_context(5), search_context(500)), (5, 100));
}

fn message(body: &str) -> Json {
    obj(vec![("content", obj(vec![("body", js(body))]))])
}

fn hit(seq: u64, body: &str) -> SearchRow {
    SearchRow { seq, room_id: t("!r:x"), event: message(body) }
}

#[test]
fn a_hit_holds_every_word() {
    let wanted = vec![t("red"), t("fox")];
    assert!(matches_search(&message("A FOX, red."), &wanted));
    assert!(!matches_search(&message("a reddish fox"), &wanted));
    assert!(!matches_search(&obj(vec![]), &wanted));
}

#[test]
fn pages_of_results_join_up() {
    let rows: Vec<SearchRow> =
        vec![hit(3, "fox a"), hit(9, "dog"), hit(5, "fox b"), hit(7, "fox c"), hit(1, "fox d")];
    assert_eq!(rank_matches(&rows, &vec![t("fox")]), vec![3, 2, 0, 4]);
    let mut seen: Vec<usize> = vec![];
    let mut batch: Option<String> = None;
    for _ in 0..10 {
        let q = parse_search("fox", batch.as_deref(), Some(2)).unwrap();
        let page = search(&rows, &q);
        assert_eq!(page.count, 4);
        seen.extend(page.rows);
        batch = page.next_batch;
        if batch.is_none() {
            break;
        }
    }
    assert_eq!(seen, vec![3, 2, 0, 4]);
    assert_eq!(search_next_batch(4, 0, 2), Some(t("2")));
    // A full page promises another, though nothing may follow.
    assert_eq!(search_next_batch(4, 2, 2), Some(t("4")));
    assert_eq!(search_next_batch(4, 4, 2), None);
    assert_eq!(search_page_rows(&vec![7, 8, 9], 1, 5), vec![8, 9]);
    assert!(search_page_rows(&vec![7, 8, 9], 3, 5).is_empty());
}

#[test]
fn search_answers_always_hold_results() {
    assert_eq!(
        show(&respond(vec![])),
        "{\"search_categories\":{\"room_events\":{\"results\":[]}}}"
    );
    assert_eq!(
        show(&respond(map(vec![("results", Json::Array(vec![Json::Null]))]))),
        "{\"search_categories\":{\"room_events\":{\"results\":[null]}}}"
    );
    let one = search_result(js("e"), vec![js("b")], vec![]);
    let answer = show(&search_answer(3, Some(t("10")), vec![one]));
    assert!(answer.contains("\"count\":3"));
    assert!(answer.contains("\"next_batch\":\"10\""));
    assert!(answer.contains("\"result\":\"e\""));
    assert!(answer.contains("\"events_before\":[\"b\"]"));
}

fn user(id: &str, name: Option<&str>) -> DirectoryUser {
    DirectoryUser { user_id: t(id), displayname: name.map(t), avatar_url: None }
}

#[test]
fn users_are_found_by_name_or_id() {
    let users = vec![user("@Ann:x", None), user("@b:x", Some("ANNA")), user("@c:x", Some("Bob"))];
    let (found, limited) = search_users(&users, "aNn", 10);
    assert_eq!(
        found.iter().map(show).collect::<Vec<_>>(),
        vec![
            "{\"avatar_url\":null,\"display_name\":null,\"user_id\":\"@Ann:x\"}",
            "{\"avatar_url\":null,\"display_name\":\"ANNA\",\"user_id\":\"@b:x\"}"
        ]
    );
    assert!(!limited);
    let (found, limited) = search_users(&users, "ann", 1);
    assert_eq!((found.len(), limited), (1, true));
    assert!(search_users(&users, "", 10).0.is_empty());
    assert_eq!(
        user_directory(&map(vec![("search_term", js("ANN")), ("limit", Json::Int(500))])).unwrap().1,
        100
    );
    assert_eq!(user_directory(&map(vec![("search_term", js(""))])).unwrap().1, 10);
    assert_eq!(user_directory(&vec![]).unwrap_err().message, "search_term is required");
}

fn related(seq: u64, kind: &str, target: &str, rel: Option<&str>, sender: &str) -> TimelineEvent {
    let mut rel_fields = vec![("event_id", js(target))];
    if let Some(r) = rel {
        rel_fields.push(("rel_type", js(r)));
    }
    TimelineEvent {
        seq,
        event: obj(vec![
            ("type", js(kind)),
            ("event_id", js(&format!("$e{seq}"))),
            ("sender", js(sender)),
            ("content", obj(vec![("m.relates_to", obj(rel_fields))])),
        ]),
    }
}

fn root(seq: u64, id: &str) -> TimelineEvent {
    TimelineEvent { seq, event: obj(vec![("event_id", js(id)), ("content", obj(vec![]))]) }
}

#[test]
fn relations_are_read() {
    assert_eq!(
        relates_to(&related(1, "m", "$r", Some("m.thread"), "@a:x").event),
        Some(("$r", Some("m.thread")))
    );
    assert_eq!(relates_to(&related(1, "m", "$r", None, "@a:x").event), Some(("$r", None)));
    assert_eq!(relates_to(&obj(vec![])), None);
    let q = parse_relations_query(&vec![]).unwrap();
    assert!(q.backward);
    assert_eq!((q.limit, q.from), (10, None));
    assert_eq!(parse_relations_query(&query(&[("limit", "1000")])).unwrap().limit, 100);
    let fault = |p: &[(&str, &str)]| parse_relations_query(&query(p)).unwrap_err().message;
    assert_eq!(fault(&[("limit", "x")]), "limit: not an integer");
    assert_eq!(fault(&[("dir", "up")]), "dir: unknown value \"up\"");
    assert_eq!(fault(&[("from", "x")]), "Invalid pagination token");
    let e = hide_unknown_room(ApiError::not_found("x"));
    assert_eq!((e.status, e.message.as_str()), (403, "You aren't a member of the room"));
    assert_eq!(hide_unknown_room(ApiError::bad_json("x")).status, 400);
}

fn ids(page: &Json) -> Vec<String> {
    page.get("chunk")
        .and_then(|c| c.as_array())
        .unwrap()
        .iter()
        .map(|e| t(e.get_str("event_id").unwrap()))
        .collect()
}

#[test]
fn related_events_come_in_order() {
    let events = vec![
        root(1, "$r"),
        related(2, "m.reaction", "$r", Some("m.annotation"), "@a:x"),
        related(3, "m.room.message", "$r", Some("m.thread"), "@b:x"),
        related(4, "m.reaction", "$other", Some("m.annotation"), "@a:x"),
        related(5, "m.reaction", "$r", Some("m.annotation"), "@b:x"),
    ];
    let q = parse_relations_query(&query(&[("limit", "2")])).unwrap();
    let page = relations_common(&q, "$r", None, None, &events);
    assert_eq!(ids(&page), vec!["$e5", "$e3"]);
    assert_eq!(page.get_str("next_batch"), Some("t3"));
    let q = parse_relations_query(&query(&[("limit", "2"), ("from", "t3")])).unwrap();
    let page = relations_common(&q, "$r", None, None, &events);
    assert_eq!(ids(&page), vec!["$e2"]);
    assert!(page.get("next_batch").is_none());
    let q = parse_relations_query(&query(&[("dir", "f")])).unwrap();
    assert_eq!(
        ids(&relations_common(&q, "$r", Some(t("m.annotation")), None, &events)),
        vec!["$e2", "$e5"]
    );
    assert_eq!(
        ids(&relations_common(&q, "$r", Some(t("m.thread")), Some(t("m.room.message")), &events)),
        vec!["$e3"]
    );
    assert!(ids(&relations_common(&q, "$r", Some(t("m.thread")), Some(t("m.x")), &events)).is_empty());
}

#[test]
fn threads_come_by_recency() {
    let events = vec![
        root(1, "$r1"),
        root(2, "$r2"),
        related(3, "m", "$r1", Some("m.thread"), "@a:x"),
        related(4, "m", "$r2", Some("m.thread"), "@b:x"),
        related(5, "m", "$gone", Some("m.thread"), "@b:x"),
        related(6, "m", "$r1", Some("m.thread"), "@b:x"),
    ];
    let threads = threads_of(&events, "@a:x");
    assert_eq!(threads.len(), 3);
    let order = sort_threads(&threads);
    let seqs: Vec<u64> = order.iter().map(|i| threads[*i].latest_seq).collect();
    assert_eq!(seqs, vec![6, 5, 4]);
    assert!(can_list_threads(&events, 10));
    let page = get_threads(&events, "@a:x", 10);
    // A root that is not there is left out.
    assert_eq!(ids(&page), vec!["$r1", "$r2"]);
    let first = &page.get("chunk").unwrap().as_array().unwrap()[0];
    let summary = first.get2("unsigned", "m.relations").unwrap().get("m.thread").unwrap();
    assert_eq!(summary.get("count").unwrap().as_u64(), Some(2));
    assert_eq!(show(summary.get("current_user_participated").unwrap()), "true");
    assert_eq!(summary.get("latest_event").unwrap().get_str("event_id"), Some("$e6"));
    assert_eq!(ids(&get_threads(&events, "@a:x", 1)), vec!["$r1"]);
    assert_eq!(threads_limit(&vec![]), 10);
    assert_eq!(threads_limit(&query(&[("limit", "junk")])), 10);
    assert_eq!(threads_limit(&query(&[("limit", "0")])), 1);
    assert_eq!(threads_limit(&query(&[("limit", "101")])), 100);
}

#[test]
fn a_summary_needs_room() {
    let marked = |unsigned: Json| {
        vec![
            TimelineEvent {
                seq: 1,
                event: obj(vec![("event_id", js("$r")), ("unsigned", unsigned)]),
            },
            related(2, "m", "$r", Some("m.thread"), "@a:x"),
        ]
    };
    assert!(can_list_threads(&marked(Json::Null), 1));
    assert!(can_list_threads(&marked(obj(vec![("m.relations", Json::Null)])), 1));
    assert!(!can_list_threads(&marked(js("x")), 1));
    assert!(!can_list_threads(&marked(obj(vec![("m.relations", Json::Int(1))])), 1));
    // Only thread roots matter.
    let alone = TimelineEvent {
        seq: 1,
        event: obj(vec![("event_id", js("$r")), ("unsigned", js("x"))]),
    };
    assert!(can_list_threads(&vec![alone], 1));
    // Nor does one that the page does not reach, unless another is as recent.
    let mut two = marked(js("x"));
    two.push(root(3, "$s"));
    two.push(related(4, "m", "$s", Some("m.thread"), "@a:x"));
    assert!(can_list_threads(&two, 1));
    assert_eq!(ids(&get_threads(&two, "@a:x", 1)), vec!["$s"]);
    assert!(!can_list_threads(&two, 2));
    two[1].seq = 4;
    assert!(!can_list_threads(&two, 1));
    assert_eq!(
        show(&annotate_root(
            &map(vec![("unsigned", obj(vec![("age", Json::Int(1))]))]),
            &js("latest"),
            4,
            false
        )),
        "{\"unsigned\":{\"age\":1,\"m.relations\":{\"m.thread\":{\"count\":4,\
         \"current_user_participated\":false,\"latest_event\":\"latest\"}}}}"
    );
}

#[test]
fn cursors_read_back() {
    for c in [
        Cursor { offset: 0, suggested_only: false, max_depth: None },
        Cursor { offset: 17, suggested_only: true, max_depth: Some(3) },
        Cursor { offset: usize::MAX, suggested_only: false, max_depth: Some(u64::MAX) },
    ] {
        assert_eq!(decode_cursor(&encode_cursor(&c)).unwrap(), c);
    }
    assert_eq!(
        encode_cursor(&Cursor { offset: 17, suggested_only: true, max_depth: None }),
        "17.1.n"
    );
    assert_eq!(
        decode_cursor("5").unwrap(),
        Cursor { offset: 5, suggested_only: false, max_depth: None }
    );
    for bad in ["", "x.1.n", "1.1.x"] {
        assert_eq!(decode_cursor(bad).unwrap_err().message, "invalid from token");
    }
}

#[test]
fn hierarchy_filters_cannot_change() {
    let parse = |p: &[(&str, &str)]| parse_hierarchy_query(&query(p));
    let q = parse(&[("suggested_only", "true"), ("max_depth", "2"), ("limit", "5")]).unwrap();
    assert_eq!(
        q,
        HierarchyQuery { offset: 0, suggested_only: true, max_depth: Some(2), limit: Some(5) }
    );
    let q = parse(&[("from", "7.1.2"), ("max_depth", "2")]).unwrap();
    assert_eq!((q.offset, q.suggested_only, q.max_depth), (7, true, Some(2)));
    let fixed = "suggested_only and max_depth cannot change on paginated requests";
    assert_eq!(parse(&[("from", "7.1.2"), ("max_depth", "3")]).unwrap_err().message, fixed);
    assert_eq!(parse(&[("from", "7.1.2"), ("suggested_only", "no")]).unwrap_err().message, fixed);
    assert_eq!(parse(&[("max_depth", "x")]).unwrap_err().message, "max_depth: integer");
    assert_eq!(parse(&[("limit", "x")]).unwrap_err().message, "limit: integer");
    assert_eq!(parse(&[("from", "x")]).unwrap_err().message, "invalid from token");
}

#[test]
fn rooms_are_viewable_by_rule() {
    assert!(viewable("join", "invite", false, false));
    assert!(viewable("invite", "invite", false, false));
    assert!(!viewable("leave", "invite", false, true));
    assert!(viewable("leave", "invite", true, false));
    for open in ["public", "knock", "knock_restricted"] {
        assert!(viewable("ban", open, false, false));
    }
    assert!(viewable("leave", "restricted", false, true));
    assert!(!viewable("leave", "restricted", false, false));
}

#[test]
fn hidden_rooms_have_no_summary() {
    let summary = || Some(map(vec![("room_id", js("!r:x"))]));
    assert_eq!(
        show(&get_room_summary(summary(), "leave", "public", false, "11").unwrap()),
        "{\"membership\":\"leave\",\"room_id\":\"!r:x\",\"room_version\":\"11\"}"
    );
    assert!(get_room_summary(summary(), "knock", "invite", false, "11").is_ok());
    assert!(get_room_summary(summary(), "ban", "invite", true, "11").is_ok());
    for hidden in [
        get_room_summary(summary(), "ban", "invite", false, "11"),
        get_room_summary(summary(), "leave", "restricted", false, "11"),
        get_room_summary(None, "join", "public", true, "11"),
    ] {
        let e = hidden.unwrap_err();
        assert_eq!((e.status, e.message.as_str()), (404, "Room not found."));
    }
    assert!(check_root(Some(true)).is_ok());
    let e = check_root(Some(false)).unwrap_err();
    assert_eq!((e.status, e.message.as_str()), (403, "You are not allowed to view this room"));
    assert_eq!(check_root(None).unwrap_err().message, "Unknown room");
}

#[test]
fn remote_rooms_are_read() {
    assert_eq!(server_of("!r:hs2:8448"), vec!["hs2:8448"]);
    assert!(server_of("!hash").is_empty());
    assert_eq!(
        hierarchy_path("!r:hs$2", true),
        "/_matrix/federation/v1/hierarchy/%21r%3Ahs%242?suggested_only=true"
    );
    let answer = obj(vec![(
        "room",
        obj(vec![
            ("room_id", js("!r:x")),
            ("room_type", js("m.space")),
            ("children_state", Json::Array(vec![Json::Null])),
            ("allowed_room_ids", Json::Array(vec![js("!a:x"), Json::Int(1)])),
        ]),
    )]);
    let room = read_remote_room(&answer).unwrap();
    assert!(room.is_space && !room.world_readable);
    assert_eq!(room.join_rule, "invite");
    assert_eq!(room.children_state.len(), 1);
    assert_eq!(room.allowed_room_ids, vec!["!a:x"]);
    assert!(!show_map(&room.base).contains("children_state"));
    assert!(read_remote_room(&obj(vec![("room", Json::Null)])).is_none());
    let link = obj(vec![("content", obj(vec![("via", Json::Array(vec![js("hs2"), Json::Null]))]))]);
    assert_eq!(link_via(&link), vec!["hs2"]);
    assert_eq!(
        show(&chunk(map(vec![("room_id", js("!r:x"))]), vec![Json::Null])),
        "{\"children_state\":[null],\"room_id\":\"!r:x\"}"
    );
}

fn space(links: &[&str]) -> SpaceNode {
    SpaceNode {
        viewable: true,
        is_space: true,
        links: links.iter().map(|l| Link { target: t(l), hosts: vec![t("hs2")] }).collect(),
    }
}

/// Walks a tree of spaces: each room's node, by name.
fn walk(nodes: &[(&str, SpaceNode)], max_depth: Option<u64>) -> Vec<String> {
    let mut w = Walk::start("root");
    for _ in 0..100 {
        w.advance();
        let at = match &w.at {
            Some(stop) => stop.room_id.clone(),
            None => return w.ordered,
        };
        let node = nodes.iter().find(|(name, _)| *name == at).map(|(_, n)| n);
        w.settle(node, max_depth);
    }
    panic!("the walk does not end")
}

#[test]
fn a_space_is_walked_depth_first() {
    let nodes = vec![
        ("root", space(&["a", "b", "gone", "c"])),
        ("a", space(&["a1", "root"])),
        ("a1", SpaceNode { viewable: true, is_space: false, links: vec![] }),
        ("b", SpaceNode { viewable: false, is_space: true, links: space(&["secret"]).links }),
        ("secret", space(&[])),
        ("c", SpaceNode { viewable: true, is_space: false, links: space(&["hidden"]).links }),
        ("hidden", space(&[])),
    ];
    // Each room once, no room behind one that cannot be seen or is no space.
    assert_eq!(walk(&nodes, None), vec!["root", "a", "a1", "c"]);
    assert_eq!(walk(&nodes, Some(1)), vec!["root", "a", "c"]);
    assert_eq!(walk(&nodes, Some(0)), vec!["root"]);
    // All that is below a room comes before the next one.
    let nodes = vec![
        ("root", space(&["a", "b"])),
        ("a", space(&["a1", "a2"])),
        ("a1", space(&["a11"])),
        ("a11", space(&["b"])),
        ("a2", space(&["a1"])),
        ("b", space(&["b1"])),
        ("b1", space(&[])),
    ];
    assert_eq!(walk(&nodes, None), vec!["root", "a", "a1", "a11", "b", "b1", "a2"]);
}

#[test]
fn hierarchy_pages_join_up() {
    let ordered: Vec<String> = ["a", "b", "c", "d", "e"].iter().map(|s| t(s)).collect();
    let mut q = HierarchyQuery { offset: 0, suggested_only: true, max_depth: Some(4), limit: Some(2) };
    let mut seen: Vec<String> = vec![];
    for _ in 0..10 {
        let (page, next) = page_rooms(&ordered, &q);
        seen.extend(page);
        match next {
            Some(c) => {
                assert_eq!((c.suggested_only, c.max_depth), (true, Some(4)));
                q.offset = c.offset;
            }
            None => break,
        }
    }
    assert_eq!(seen, ordered);
    q.offset = 9;
    let (page, next) = page_rooms(&ordered, &q);
    assert!(page.is_empty() && next.is_none());
    assert_eq!(
        show(&get_hierarchy(
            vec![Json::Null],
            Some(Cursor { offset: 2, suggested_only: false, max_depth: None })
        )),
        "{\"next_batch\":\"2.0.n\",\"rooms\":[null]}"
    );
    assert_eq!(show(&get_hierarchy(vec![], None)), "{\"rooms\":[]}");
}

#[test]
fn users_in_shared_rooms_are_visible() {
    let list = |items: &[&str]| items.iter().map(|s| s.to_string()).collect::<Vec<String>>();
    let rooms = vec![list(&["@me:x", "@c:x", "@a:x"]), list(&["@b:x", "@a:x", "@me:x"])];
    assert_eq!(visible_users(&rooms, "@me:x"), list(&["@a:x", "@b:x", "@c:x"]));
    assert_eq!(visible_users(&vec![list(&["@me:x"])], "@me:x"), Vec::<String>::new());
}

#[test]
fn search_stays_in_joined_rooms() {
    let list = |items: &[&str]| items.iter().map(|s| s.to_string()).collect::<Vec<String>>();
    let joined = list(&["!a:x", "!b:x"]);
    assert_eq!(search_scope(None, &joined), joined);
    assert_eq!(search_scope(Some(list(&["!b:x", "!z:x"])), &joined), list(&["!b:x"]));
    assert_eq!(search_scope(Some(Vec::new()), &joined), Vec::<String>::new());
}

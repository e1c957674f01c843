use saltator_cs_api::error::ApiError;
use saltator_cs_api::json::Json;
use saltator_cs_api::room_util::StateEvent;
use saltator_cs_api::routes::rooms::reads::{
    begin_messages,
    backfill_until_present, closest_event, context_in_history, context_limits, context_response,
    ensure_not_forgotten, extend_unique, fetch_history, format_history_token, format_topo_token,
    get_context, get_joined_members, get_members, get_messages, get_room_event, get_state_event,
    history_readable, last_position, lazy_members_at, members_at, message_filter, messages_refusal, page_senders,
    page_start, parse_page_pos, parse_page_query, parse_pagination_bound, passes_url_filter,
    remote_timestamp_to_event, timeline_context_tokens, timestamp_query, timestamp_to_event,
    Backfill, ContextPlace, Dated, MessageFilter, PagePos, PageScan, PaginationBound, Row, RowPos, ScanEvent,
    ScanStep, TargetFacts, TimedEvent,
};

fn t(x: &str) -> String {
    x.to_owned()
}

fn js(x: &str) -> Json {
    Json::Str(x.to_owned())
}

fn obj(fields: Vec<(&str, Json)>) -> Json {
    Json::Object(map(fields))
}

fn map(fields: Vec<(&str, Json)>) -> Vec<(String, Json)> {
    fields.into_iter().map(|(k, v)| (k.to_owned(), v)).collect()
}

/// A value as compact JSON text, its fields in the order of their names.
fn show(j: &Json) -> String {
    match j {
        Json::Null => t("null"),
        Json::Bool(b) => b.to_string(),
        Json::Int(i) => i.to_string(),
        Json::Number(n) => n.clone(),
        Json::Str(s) => format!("{s:?}"),
        Json::Array(items) => {
            format!("[{}]", items.iter().map(show).collect::<Vec<String>>().join(","))
        }
        Json::Object(m) => show_map(m),
    }
}

fn show_map(m: &Vec<(String, Json)>) -> String {
    let mut sorted: std::collections::BTreeMap<&String, &Json> = std::collections::BTreeMap::new();
    for (k, v) in m {
        sorted.insert(k, v);
    }
    let parts: Vec<String> = sorted.iter().map(|(k, v)| format!("{k:?}:{}", show(v))).collect();
    format!("{{{}}}", parts.join(","))
}

fn query(pairs: &[(&str, &str)]) -> Vec<(String, String)> {
    pairs.iter().map(|(k, v)| (t(k), t(v))).collect()
}

fn bound(seq: u64, at_event: bool, stream: Option<u64>) -> PaginationBound {
    PaginationBound { seq, at_event, stream }
}

#[test]
fn tokens_are_read() {
    assert_eq!(parse_pagination_bound("t7").unwrap(), bound(7, true, None));
    assert_eq!(parse_pagination_bound("t7_9").unwrap(), bound(7, true, Some(9)));
    assert_eq!(parse_pagination_bound("s7_1_2_3").unwrap(), bound(7, false, Some(7)));
    assert_eq!(parse_page_pos("h4").unwrap(), PagePos::History(4));
    for bad in ["", "x7", "t", "t7_", "t-1", "h", "h1x"] {
        let e = parse_page_pos(bad).unwrap_err();
        assert_eq!((e.status, e.message.as_str()), (400, "Invalid pagination token"), "{bad}");
    }
    assert_eq!(parse_page_pos("s1").unwrap_err().message, "Invalid sync token");
}

#[test]
fn tokens_read_back() {
    for (seq, stream) in [(0, None), (7, Some(12)), (u64::MAX, Some(0))] {
        assert_eq!(
            parse_pagination_bound(&format_topo_token(seq, stream)).unwrap(),
            bound(seq, true, stream)
        );
    }
    assert_eq!(format_topo_token(7, Some(12)), "t7_12");
    assert_eq!(format_history_token(3), "h3");
    assert_eq!(parse_page_pos(&format_history_token(u64::MAX)).unwrap(), PagePos::History(u64::MAX));
}

#[test]
fn event_tokens_exclude_their_event() {
    assert_eq!(bound(7, true, None).upper(), 6);
    assert_eq!(bound(7, false, None).upper(), 7);
    assert_eq!(bound(0, true, None).upper(), 0);
    assert_eq!(bound(7, true, None).lower(), 7);
    assert_eq!(bound(7, true, Some(9)).at_seq(), 9);
    assert_eq!(bound(7, true, None).at_seq(), 6);
    assert_eq!(members_at("t7_9", None).unwrap(), 9);
    assert_eq!(members_at("t7_9", Some(8)).unwrap(), 8);
    assert!(members_at("nope", None).is_err());
}

#[test]
fn page_queries_have_defaults() {
    let q = parse_page_query(&query(&[("dir", "b")])).unwrap();
    assert!(q.backward);
    assert_eq!((q.limit, q.from, q.to), (10, None, None));
    let q = parse_page_query(&query(&[("dir", "f"), ("limit", "5000"), ("from", "t2")])).unwrap();
    assert!(!q.backward);
    assert_eq!(q.limit, 1000);
    assert_eq!(q.from, Some(PagePos::Timeline(bound(2, true, None))));
    assert_eq!(parse_page_query(&query(&[("dir", "f"), ("limit", "0")])).unwrap().limit, 1);
    let fault = |q: &[(&str, &str)]| parse_page_query(&query(q)).unwrap_err().message;
    assert_eq!(fault(&[]), "dir: required parameter is missing");
    assert_eq!(fault(&[("dir", "x\"")]), "dir: unknown value \"x\\\"\"");
    assert_eq!(fault(&[("dir", "b"), ("limit", "x")]), "limit: not an integer");
    assert_eq!(fault(&[("dir", "b"), ("from", "x")]), "Invalid pagination token");
}

fn rows(r: &[(u64, &str)]) -> ScanEvent {
    ScanEvent::Rows(r.iter().map(|(s, id)| (*s, t(id))).collect())
}

#[test]
fn a_backward_page_goes_on_into_history() {
    let q = parse_page_query(&query(&[("dir", "b"), ("limit", "3")])).unwrap();
    let mut scan = PageScan::start(q, Some(50));
    assert_eq!(
        scan.step(),
        ScanStep::ReadTimeline { lower: 0, upper: Some(50), limit: 3, backward: true }
    );
    scan.feed(rows(&[(2, "$b"), (1, "$a")]));
    assert_eq!(scan.step(), ScanStep::AskReadable);
    scan.feed(ScanEvent::Readable(true));
    assert_eq!(
        scan.step(),
        ScanStep::ReadHistory { after: 0, until: None, limit: 1, newest_last: false }
    );
    scan.feed(rows(&[]));
    assert_eq!(scan.step(), ScanStep::AskFrontier);
    scan.feed(ScanEvent::FrontierEmpty(false));
    assert_eq!(scan.step(), ScanStep::FetchHistory);
    scan.feed(ScanEvent::Fetched(10));
    assert_eq!(
        scan.step(),
        ScanStep::ReadHistory { after: 0, until: None, limit: 1, newest_last: false }
    );
    scan.feed(rows(&[(1, "$h1")]));
    assert_eq!(scan.step(), ScanStep::Done);
    let page = get_messages(
        &query(&[("dir", "b"), ("limit", "3")]),
        &scan,
        &vec![obj(vec![("sender", js("@a:x"))]), obj(vec![("sender", js("@a:x"))])],
        message_filter(Some(Ok(obj(vec![("lazy_load_members", Json::Bool(true))])))).unwrap(),
    );
    assert_eq!((page.start.as_str(), page.end.as_deref()), ("t0", Some("h1")));
    assert_eq!(page.chunk.len(), 2);
    assert_eq!(page.members_of, vec!["@a:x"]);
    assert_eq!(page.members_at, Some(2));
}

fn no_filter() -> MessageFilter {
    message_filter(None).unwrap()
}

#[test]
fn a_filter_of_messages_is_read() {
    let none = no_filter();
    assert_eq!((none.contains_url, none.lazy_load_members), (None, false));
    let read = |fields: Vec<(&str, Json)>| message_filter(Some(Ok(obj(fields)))).unwrap();
    let f = read(vec![("contains_url", Json::Bool(false)), ("lazy_load_members", Json::Bool(true))]);
    assert_eq!((f.contains_url, f.lazy_load_members), (Some(false), true));
    let f = read(vec![("contains_url", Json::Int(1)), ("lazy_load_members", js("true"))]);
    assert_eq!((f.contains_url, f.lazy_load_members), (None, false));
    // What is no object asks for nothing.
    assert_eq!(message_filter(Some(Ok(Json::Null))).unwrap(), none);
    let e = message_filter(Some(Err(t("EOF")))).unwrap_err();
    assert_eq!((e.status, e.errcode.as_str(), e.message.as_str()), (400, "M_BAD_JSON", "filter: EOF"));
}

#[test]
fn a_page_that_reached_the_start_has_no_end() {
    let q = parse_page_query(&query(&[("dir", "b")])).unwrap();
    let mut scan = PageScan::start(q, None);
    scan.feed(rows(&[]));
    scan.feed(ScanEvent::Readable(false));
    assert_eq!(scan.step(), ScanStep::Done);
    let page = get_messages(&query(&[("dir", "b"), ("from", "t9")]), &scan, &vec![], no_filter());
    assert_eq!((page.start.as_str(), page.end), ("t9", None));
    // A fetch without progress leaves the end open, so that the client can go on.
    let mut scan = PageScan::start(q, None);
    scan.feed(rows(&[(4, "$d")]));
    scan.feed(ScanEvent::Readable(true));
    scan.feed(rows(&[]));
    scan.feed(ScanEvent::FrontierEmpty(false));
    scan.feed(ScanEvent::Fetched(0));
    assert_eq!(scan.step(), ScanStep::Done);
    let page = get_messages(&query(&[("dir", "b")]), &scan, &vec![], no_filter());
    assert_eq!(page.end, Some(t("t4")));
    // So does one on a page without rows.
    for (from, end) in [("t3", "h0"), ("h7", "h7")] {
        let asked = query(&[("dir", "b"), ("from", from)]);
        let mut scan = begin_messages(false, Ok(None), &asked).unwrap();
        if from == "t3" {
            scan.feed(rows(&[]));
        }
        scan.feed(ScanEvent::Readable(true));
        scan.feed(rows(&[]));
        scan.feed(ScanEvent::FrontierEmpty(false));
        scan.feed(ScanEvent::Fetched(0));
        assert_eq!(scan.step(), ScanStep::Done);
        let page = get_messages(&asked, &scan, &vec![], no_filter());
        assert_eq!(page.end.as_deref(), Some(end));
    }
}

#[test]
fn strangers_are_refused_before_the_query_is_read() {
    let malformed = query(&[("dir", "x"), ("limit", "many")]);
    let member = begin_messages(false, Ok(None), &malformed).unwrap_err();
    assert_eq!(member.status, 400);
    let e = begin_messages(true, Ok(None), &malformed).unwrap_err();
    assert_eq!((e.status, e.errcode.as_str()), (403, "M_FORBIDDEN"));
    let e = begin_messages(false, Err(ApiError::not_found("Unknown room")), &malformed).unwrap_err();
    assert_eq!((e.status, e.errcode.as_str()), (403, "M_FORBIDDEN"));
    assert_eq!(e.message, "You aren't a member of the room");
    let e = begin_messages(false, Err(ApiError::forbidden("no")), &malformed).unwrap_err();
    assert_eq!((e.status, e.message.as_str()), (403, "no"));
    let scan = begin_messages(false, Ok(Some(5)), &query(&[("dir", "b")])).unwrap();
    assert_eq!(scan.cap, Some(5));
}

#[test]
fn a_forward_page_leaves_history_for_the_timeline() {
    let q = parse_page_query(&query(&[("dir", "f"), ("from", "h3"), ("limit", "4")])).unwrap();
    let mut scan = PageScan::start(q, None);
    assert_eq!(
        scan.step(),
        ScanStep::ReadHistory { after: 0, until: Some(2), limit: 4, newest_last: true }
    );
    scan.feed(rows(&[(2, "$h2"), (1, "$h1")]));
    assert_eq!(
        scan.step(),
        ScanStep::ReadTimeline { lower: 0, upper: None, limit: 2, backward: false }
    );
    scan.feed(rows(&[(1, "$a")]));
    assert_eq!(scan.step(), ScanStep::Done);
    assert_eq!(scan.rows.len(), 3);
}

#[test]
fn a_page_filters_by_url() {
    let with = obj(vec![("content", obj(vec![("url", js("mxc://a/b"))]))]);
    let without = obj(vec![("content", obj(vec![("url", Json::Int(1))]))]);
    assert!(passes_url_filter(&with, None) && passes_url_filter(&without, None));
    assert!(passes_url_filter(&with, Some(true)) && !passes_url_filter(&without, Some(true)));
    assert!(!passes_url_filter(&with, Some(false)) && passes_url_filter(&without, Some(false)));
    let from = |s: &str| obj(vec![("sender", js(s))]);
    assert_eq!(page_senders(&vec![from("@b:x"), from("@a:x"), from("@b:x")]), vec!["@b:x", "@a:x"]);
    let row = |pos: RowPos| Row { pos, event_id: t("$e") };
    assert_eq!(
        lazy_members_at(&vec![row(RowPos::Timeline(3)), row(RowPos::History(9)), row(RowPos::Timeline(5))]),
        Some(5)
    );
    assert_eq!(lazy_members_at(&vec![row(RowPos::History(9))]), None);
    assert_eq!(page_start(&query(&[("from", "t8")])), "t8");
}

#[test]
fn unknown_rooms_do_not_show() {
    let e = messages_refusal(ApiError::not_found("Unknown room"));
    assert_eq!((e.status, e.message.as_str()), (403, "You aren't a member of the room"));
    let e = messages_refusal(ApiError::internal("x"));
    assert_eq!((e.status, e.message.as_str()), (500, "x"));
    assert!(ensure_not_forgotten(false).is_ok());
    assert_eq!(ensure_not_forgotten(true).unwrap_err().message, "You aren't a member of the room");
}

fn state(event_type: &str, key: &str, content: Option<Json>) -> StateEvent {
    StateEvent {
        event_type: t(event_type),
        state_key: t(key),
        event_id: t("$s"),
        event: content.map(|c| obj(vec![("content", c)])),
        rejected: false,
    }
}

#[test]
fn history_is_readable_when_shared() {
    let vis = |v: &str| {
        vec![state(
            "m.room.history_visibility",
            "",
            Some(obj(vec![("history_visibility", js(v))])),
        )]
    };
    assert!(history_readable(&vec![]));
    assert!(history_readable(&vis("shared")) && history_readable(&vis("world_readable")));
    assert!(!history_readable(&vis("joined")) && !history_readable(&vis("invited")));
}

#[test]
fn contexts_have_a_place() {
    let event = Some(obj(vec![("room_id", js("!r:x"))]));
    let timeline = Some(TargetFacts { seq: 7, history_idx: None });
    let history = Some(TargetFacts { seq: 0, history_idx: Some(3) });
    assert_eq!(
        get_context(timeline, &event, "!r:x", false, true).unwrap(),
        ContextPlace::Timeline { seq: 7 }
    );
    assert_eq!(
        get_context(history, &event, "!r:x", true, false).unwrap(),
        ContextPlace::History { idx: 3 }
    );
    let missing = |target: Option<TargetFacts>, room: &str, readable: bool, can_see: bool| {
        get_context(target, &event, room, readable, can_see).unwrap_err().message == "Event not found"
    };
    assert!(missing(None, "!r:x", true, true));
    assert!(missing(timeline, "!q:x", true, true));
    assert!(missing(timeline, "!r:x", true, false));
    assert!(missing(history, "!r:x", false, true));
    assert!(missing(Some(TargetFacts { seq: 0, history_idx: None }), "!r:x", true, true));
    assert_eq!(context_limits(5), (3, 2));
    assert_eq!(context_limits(1000), (50, 50));
    assert_eq!(context_limits(0), (0, 0));
}

#[test]
fn contexts_have_tokens() {
    assert_eq!(last_position(7, &vec![(6, true), (5, true), (4, false)]), 5);
    assert_eq!(last_position(7, &vec![]), 7);
    assert_eq!(timeline_context_tokens(5, 9), (t("t4"), t("t9")));
    assert_eq!(timeline_context_tokens(0, 0), (t("t0"), t("t0")));
    assert_eq!(context_in_history(6, 2, None), (t("h6"), t("h1")));
    assert_eq!(context_in_history(6, 2, Some(4)), (t("h6"), t("t4")));
    assert_eq!(
        show(&context_response(t("a"), t("b"), vec![], js("e"), vec![Json::Null], vec![])),
        "{\"end\":\"b\",\"event\":\"e\",\"events_after\":[null],\"events_before\":[],\
         \"start\":\"a\",\"state\":[]}"
    );
}

#[test]
fn hidden_events_are_absent() {
    let event = Some(obj(vec![("room_id", js("!r:x"))]));
    assert!(get_room_event(true, &event, "!r:x").is_ok());
    for (seen, ev, room) in [(false, &event, "!r:x"), (true, &None, "!r:x"), (true, &event, "!q:x")] {
        let e = get_room_event(seen, ev, room).unwrap_err();
        assert_eq!((e.status, e.message.as_str()), (404, "Event not found"));
    }
}

#[test]
fn state_is_read_by_type_and_key() {
    let s = vec![
        state("m.room.name", "", Some(obj(vec![("name", js("n"))]))),
        state("m.odd", "k", None),
    ];
    assert_eq!(show(&get_state_event(&s, "m.room.name", "").unwrap()), "{\"name\":\"n\"}");
    assert_eq!(
        get_state_event(&s, "m.room.name", "k").unwrap_err().message,
        "No state with this type/key"
    );
    assert_eq!(get_state_event(&s, "m.odd", "k").unwrap_err().message, "State event missing");
}

#[test]
fn members_are_filtered() {
    let ev = |m: &str| obj(vec![("content", obj(vec![("membership", js(m))]))]);
    assert!(get_members(&ev("join"), &None, &None));
    assert!(get_members(&ev("join"), &Some(t("join")), &None));
    assert!(!get_members(&ev("join"), &Some(t("leave")), &None));
    assert!(!get_members(&ev("join"), &None, &Some(t("join"))));
    // No membership reads as a leave.
    assert!(get_members(&obj(vec![]), &Some(t("leave")), &None));
    let s = vec![
        state("m.room.member", "@a:x", Some(obj(vec![("membership", js("join")), ("displayname", js("A"))]))),
        state("m.room.member", "@b:x", Some(obj(vec![("membership", js("leave"))]))),
        state("m.room.member", "nobody", Some(obj(vec![("membership", js("join"))]))),
    ];
    assert_eq!(
        show(&get_joined_members(&s)),
        "{\"joined\":{\"@a:x\":{\"avatar_url\":null,\"display_name\":\"A\"}}}"
    );
}

#[test]
fn the_closest_event_is_found() {
    let ev = |seq: u64, ts: Option<u64>| Dated { seq, event_id: format!("${seq}"), ts };
    let events = vec![ev(1, Some(10)), ev(2, Some(20)), ev(3, Some(20)), ev(4, None), ev(5, Some(30))];
    assert_eq!(closest_event(&events, 15, false), Some(1));
    assert_eq!(closest_event(&events, 20, false), Some(1));
    assert_eq!(closest_event(&events, 25, true), Some(2));
    assert_eq!(closest_event(&events, 5, true), None);
    assert_eq!(closest_event(&events, 31, false), None);
    let timed = |id: &str, ts: u64| Some(TimedEvent { event_id: t(id), ts });
    let (best, remote) = timestamp_to_event(timed("$l", 5), timed("$r", 9), 8).unwrap();
    assert_eq!((best.event_id.as_str(), remote), ("$r", true));
    let (best, remote) = timestamp_to_event(timed("$l", 7), timed("$r", 9), 8).unwrap();
    assert_eq!((best.event_id.as_str(), remote), ("$l", false));
    let e = timestamp_to_event(None, None, 8).unwrap_err();
    assert_eq!((e.status, e.message.as_str()), (404, "No event found for the given timestamp"));
    assert_eq!(timestamp_query(&query(&[("ts", "5"), ("dir", "b")])).unwrap(), (5, true));
    assert_eq!(timestamp_query(&query(&[("ts", "5")])).unwrap(), (5, false));
    assert_eq!(timestamp_query(&vec![]).unwrap_err().message, "ts: required integer (ms)");
}

#[test]
fn history_is_asked_of_the_resident_first() {
    let in_room = vec![t("hs3"), t("hs2")];
    assert_eq!(fetch_history(Some(t("hs2")), &in_room, "hs1"), vec!["hs2", "hs3"]);
    assert_eq!(fetch_history(Some(t("hs1")), &in_room, "hs1"), vec!["hs3", "hs2"]);
    assert_eq!(remote_timestamp_to_event(None, &in_room, "hs1"), vec!["hs3", "hs2"]);
    assert_eq!(extend_unique(vec![t("a")], &vec![t("b"), t("a"), t("b")]), vec!["a", "b"]);
}

#[test]
fn backfill_stops_without_progress() {
    assert_eq!(backfill_until_present(0, Some(false), Some(3), None), Backfill::Fetch);
    assert_eq!(backfill_until_present(1, Some(false), Some(3), Some(7)), Backfill::Fetch);
    assert_eq!(backfill_until_present(1, Some(false), Some(3), Some(0)), Backfill::Done);
    assert_eq!(backfill_until_present(5, Some(false), Some(3), Some(7)), Backfill::Done);
    assert_eq!(backfill_until_present(0, Some(true), Some(3), None), Backfill::Done);
    assert_eq!(backfill_until_present(0, None, Some(3), None), Backfill::Done);
    assert_eq!(backfill_until_present(0, Some(false), Some(0), None), Backfill::Done);
    assert_eq!(backfill_until_present(0, Some(false), None, None), Backfill::Done);
}

use saltator_cs_api::clock::{now_ms, stamp_of};
use saltator_cs_api::decimal::{parse_u64, parse_usize, show_u64};
use saltator_cs_api::error::{ApiError, MediaError, RoomError, UserError};
use saltator_cs_api::json::Json;
use saltator_cs_api::merge::{merge_json, same_json};
use saltator_cs_api::order::{in_order, insert_text};
use saltator_cs_api::percent::{decode, encode, has_whole_escapes};
use saltator_cs_api::text::{split, split_once, to_ascii_lower, trim};

fn t(x: &str) -> String {
    x.to_owned()
}

fn js(x: &str) -> Json {
    Json::Str(x.to_owned())
}

fn obj(fields: Vec<(&str, Json)>) -> Json {
    Json::Object(map(fields))
}

fn map(fields: Vec<(&str, Json)>) -> Vec<(String, Json)> {
    fields.into_iter().map(|(k, v)| (k.to_owned(), v)).collect()
}

/// A value as compact JSON text, its fields in the order of their names.
fn show(j: &Json) -> String {
    match j {
        Json::Null => t("null"),
        Json::Bool(b) => b.to_string(),
        Json::Int(i) => i.to_string(),
        Json::Number(n) => n.clone(),
        Json::Str(s) => format!("{s:?}"),
        Json::Array(items) => {
            format!("[{}]", items.iter().map(show).collect::<Vec<String>>().join(","))
        }
        Json::Object(m) => show_map(m),
    }
}

fn show_map(m: &Vec<(String, Json)>) -> String {
    let mut sorted: std::collections::BTreeMap<&String, &Json> = std::collections::BTreeMap::new();
    for (k, v) in m {
        sorted.insert(k, v);
    }
    let parts: Vec<String> = sorted.iter().map(|(k, v)| format!("{k:?}:{}", show(v))).collect();
    format!("{{{}}}", parts.join(","))
}

#[test]
fn numbers_are_shown_and_read() {
    assert_eq!(show_u64(0), "0");
    assert_eq!(show_u64(u64::MAX), "18446744073709551615");
    assert_eq!(parse_u64("18446744073709551615"), Some(u64::MAX));
    assert_eq!(parse_u64("18446744073709551616"), None);
    assert_eq!(parse_u64("+7"), Some(7));
    assert_eq!(parse_u64("007"), Some(7));
    for bad in ["", "+", "-1", " 1", "1 ", "1_0", "0x1"] {
        assert_eq!(parse_u64(bad), None, "{bad:?}");
        assert_eq!(parse_usize(bad), None, "{bad:?}");
    }
    for n in [0, 9, 10, 12_345, u64::MAX] {
        assert_eq!(parse_u64(&show_u64(n)), Some(n));
    }
}

#[test]
fn texts_are_cut_and_trimmed() {
    assert_eq!(split("a&b&&", '&'), vec!["a", "b", "", ""]);
    assert_eq!(split("", '&'), vec![""]);
    assert_eq!(split_once("a=b=c", '='), Some((t("a"), t("b=c"))));
    assert_eq!(split_once("abc", '='), None);
    assert_eq!(to_ascii_lower("AbÇ"), "abÇ");
    assert_eq!(trim("\u{2003} a b\t\n"), "a b");
    assert_eq!(trim(" \u{a0} "), "");
}

#[test]
fn escapes_are_written_and_read() {
    assert_eq!(encode("!a b:c/é"), "%21a%20b%3Ac%2F%C3%A9");
    assert_eq!(encode("A-z_0.9~"), "A-z_0.9~");
    assert_eq!(decode("%21a+b%zz%4"), "!a b%zz%4");
    assert_eq!(decode("%C3%A9"), "é");
    // A byte that no UTF-8 text holds is replaced.
    assert_eq!(decode("a%FFb"), "a\u{fffd}b");
    assert!(has_whole_escapes("%C3%A9"));
    assert!(has_whole_escapes("%é"));
    assert!(!has_whole_escapes("%aé"));
    for s in ["", "plain", "!room:hs1/§ 100%", "\u{1f600}+&="] {
        assert_eq!(decode(&encode(s)), s);
    }
}

#[test]
fn patches_merge_into_their_base() {
    let base = obj(vec![
        ("users", obj(vec![("@a:x", Json::Int(100)), ("@b:x", Json::Int(0))])),
        ("ban", Json::Int(50)),
    ]);
    let patch = obj(vec![("users", obj(vec![("@b:x", Json::Int(50))])), ("kick", Json::Int(0))]);
    assert_eq!(
        show(&merge_json(&base, &patch)),
        "{\"ban\":50,\"kick\":0,\"users\":{\"@a:x\":100,\"@b:x\":50}}"
    );
    assert_eq!(show(&merge_json(&Json::Int(1), &patch)), show(&patch));
    assert_eq!(show(&merge_json(&base, &Json::Null)), "null");
    assert!(same_json(&merge_json(&base, &obj(vec![])), &base));
}

#[test]
fn objects_are_the_same_in_any_order() {
    let a = obj(vec![("x", Json::Int(1)), ("y", js("é"))]);
    let b = obj(vec![("y", js("é")), ("x", Json::Int(1))]);
    assert!(same_json(&a, &b));
    assert!(!same_json(&a, &obj(vec![("x", Json::Int(1))])));
    assert!(!same_json(&Json::Int(1), &Json::Bool(true)));
    assert!(!same_json(&Json::Array(vec![Json::Null]), &Json::Array(vec![])));
}

#[test]
fn the_clock_moves_forward() {
    let before = now_ms().expect("a clock past the epoch");
    let after = now_ms().expect("a clock past the epoch");
    assert!(before > 1_600_000_000_000);
    assert!(after >= before);
    assert_eq!(stamp_of(1_700_000_000_000), 1_700_000_000_000);
    assert_eq!(stamp_of((1u128 << 64) + 5), 5);
}

#[test]
fn an_error_becomes_a_response() {
    let r = ApiError::forbidden("no").into_response();
    assert_eq!(r.status, 403);
    assert_eq!(show_map(&r.body), "{\"errcode\":\"M_FORBIDDEN\",\"error\":\"no\"}");
    assert_eq!(r.retry_after, None);

    let r = ApiError::limit_exceeded(1_001).into_response();
    assert_eq!(r.status, 429);
    assert_eq!(r.retry_after, Some(t("2")));
    assert_eq!(
        show_map(&r.body),
        "{\"errcode\":\"M_LIMIT_EXCEEDED\",\"error\":\"Too many requests\",\"retry_after_ms\":1001}"
    );
    assert_eq!(ApiError::limit_exceeded(0).into_response().retry_after, Some(t("1")));
    assert_eq!(ApiError::limit_exceeded(2_000).into_response().retry_after, Some(t("2")));
    assert_eq!(
        ApiError::limit_exceeded(u64::MAX).into_response().retry_after,
        Some(t("18446744073709552"))
    );
}

#[test]
fn a_challenge_has_no_error_code() {
    let flows = vec![vec![t("m.login.password")], vec![t("m.login.token"), t("m.login.dummy")]];
    let e = ApiError::uiaa(&flows, t("s1")).with_completed(&vec![]);
    let r = e.into_response();
    assert_eq!(r.status, 401);
    assert_eq!(
        show_map(&r.body),
        "{\"flows\":[{\"stages\":[\"m.login.password\"]},\
         {\"stages\":[\"m.login.token\",\"m.login.dummy\"]}],\"params\":{},\"session\":\"s1\"}"
    );
    let e = ApiError::uiaa_forbidden(&vec![vec![t("m.login.password")]], t("s2"))
        .with_completed(&vec![t("m.login.dummy")]);
    assert_eq!(
        show_map(&e.into_response().body),
        "{\"completed\":[\"m.login.dummy\"],\"errcode\":\"M_FORBIDDEN\",\
         \"error\":\"Invalid password\",\"flows\":[{\"stages\":[\"m.login.password\"]}],\
         \"params\":{},\"session\":\"s2\"}"
    );
}

#[test]
fn named_errors_have_their_codes() {
    let cases = vec![
        (ApiError::not_found("m"), 404, "M_NOT_FOUND", "m"),
        (ApiError::bad_json("m"), 400, "M_BAD_JSON", "m"),
        (ApiError::invalid_param("m"), 400, "M_INVALID_PARAM", "m"),
        (ApiError::missing_token(), 401, "M_MISSING_TOKEN", "Missing access token"),
        (ApiError::unknown_token(), 401, "M_UNKNOWN_TOKEN", "Unrecognised access token"),
        (ApiError::unrecognized(), 404, "M_UNRECOGNIZED", "Unrecognized request"),
        (ApiError::method_not_allowed(), 405, "M_UNRECOGNIZED", "Unrecognized request"),
        (ApiError::internal("m"), 500, "M_UNKNOWN", "m"),
        (ApiError::from_user_error(UserError::UserExists, "m"), 400, "M_USER_IN_USE", "m"),
        (ApiError::from_user_error(UserError::InvalidUsername, "m"), 400, "M_INVALID_USERNAME", "m"),
        (ApiError::from_user_error(UserError::InvalidPassword, "m"), 400, "M_INVALID_PARAM", "m"),
        (ApiError::from_user_error(UserError::Forbidden, "m"), 403, "M_FORBIDDEN", "m"),
        (
            ApiError::from_user_error(UserError::InvalidGrant, "m"),
            401,
            "M_UNKNOWN_TOKEN",
            "Unrecognised access token",
        ),
        (ApiError::from_user_error(UserError::NotFound, "m"), 404, "M_NOT_FOUND", "m"),
        (ApiError::from_user_error(UserError::InvalidState, "m"), 400, "M_INVALID_PARAM", "m"),
        (ApiError::from_user_error(UserError::UiaRequestMismatch, "m"), 403, "M_FORBIDDEN", "m"),
        (ApiError::from_user_error(UserError::InvalidToken, "m"), 403, "M_FORBIDDEN", "m"),
        (ApiError::from_user_error(UserError::TokenExists, "m"), 409, "M_INVALID_PARAM", "m"),
        (ApiError::from_user_error(UserError::ExternalIdInUse, "m"), 409, "M_INVALID_PARAM", "m"),
        (
            ApiError::from_user_error(UserError::AliasExists, "m"),
            409,
            "M_UNKNOWN",
            "Alias already exists",
        ),
        (ApiError::from_user_error(UserError::Internal, "m"), 500, "M_UNKNOWN", "m"),
        (ApiError::from_room_error(RoomError::UnknownRoom, "m"), 404, "M_NOT_FOUND", "m"),
        (ApiError::from_room_error(RoomError::TooLarge, "m"), 413, "M_TOO_LARGE", "m"),
        (ApiError::from_room_error(RoomError::Malformed, "m"), 400, "M_BAD_JSON", "m"),
        (
            ApiError::from_room_error(RoomError::Version, "m"),
            400,
            "M_UNSUPPORTED_ROOM_VERSION",
            "m",
        ),
        (ApiError::from_room_error(RoomError::CannotAuthoriseJoin, "m"), 403, "M_FORBIDDEN", "m"),
        (ApiError::from_room_error(RoomError::Internal, "m"), 500, "M_UNKNOWN", "m"),
        (
            ApiError::from_media_error(MediaError::NotAnImage, "m"),
            400,
            "M_UNKNOWN",
            "Cannot thumbnail this content",
        ),
        (
            ApiError::from_media_error(MediaError::BadId, "m"),
            400,
            "M_INVALID_PARAM",
            "Invalid media ID",
        ),
        (ApiError::from_media_error(MediaError::Internal, "m"), 500, "M_UNKNOWN", "m"),
    ];
    for (e, status, errcode, message) in cases {
        assert_eq!(e.status, status, "{errcode}");
        assert_eq!(e.errcode, errcode);
        assert_eq!(e.message, message);
        assert!(e.extra.is_empty());
    }
}

#[test]
fn texts_come_in_order_without_doubles() {
    let list = |items: &[&str]| items.iter().map(|s| s.to_string()).collect::<Vec<String>>();
    let sorted = in_order(&list(&["@b:x", "@a:x", "@b:x", "@a", "", "@\u{e9}:x"]));
    assert_eq!(sorted, list(&["", "@a", "@a:x", "@b:x", "@\u{e9}:x"]));
    // Any arrangement of the same texts comes out alike.
    assert_eq!(sorted, in_order(&list(&["@\u{e9}:x", "@b:x", "", "@a:x", "@a"])));
    assert_eq!(insert_text(list(&["a", "c"]), "b"), list(&["a", "b", "c"]));
    assert_eq!(insert_text(list(&["a", "c"]), "c"), list(&["a", "c"]));
    assert_eq!(in_order(&Vec::new()), Vec::<String>::new());
}

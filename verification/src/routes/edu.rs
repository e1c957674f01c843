//! Outbound ephemeral events: what other servers are told of local activity.
use crate::decimal::{decimal, show_u64};
use crate::json::{array_of, field, field2, no_fields, object_of, one_field, put_str, text_json, Json, JsonV};
use crate::push_gateway::with_text;
use crate::text::join_texts;
use vstd::prelude::*;

verus! {

/// The transaction that carries one ephemeral event: the path it is put to, and
/// its body.
pub fn send_edu(origin: &str, edu: Json, now_ms: u64) -> (r: (String, Json))
    ensures
        r.0@ == "/_matrix/federation/v1/send/edu"@ + decimal(now_ms as nat),
        r.1@ == JsonV::Object(
            no_fields().insert("origin"@, JsonV::Str(origin@)).insert(
                "origin_server_ts"@,
                JsonV::Int(now_ms as int),
            ).insert("edus"@, JsonV::Array(seq![edu@])),
        ),
{
    let mut m: Vec<(String, Json)> = Vec::new();
    put_str(&mut m, "origin", text_json(origin));
    put_str(&mut m, "origin_server_ts", Json::Int(now_ms as i128));
    put_str(&mut m, "edus", array_of(edu));
    let path = join_texts("/_matrix/federation/v1/send/edu", show_u64(now_ms).as_str());
    (path, Json::Object(m))
}

/// A read receipt as other servers are told it. The thread rides in its data,
/// so that the receiver can let an unthreaded receipt win.
pub open spec fn receipt_edu(
    room: Seq<char>,
    user: Seq<char>,
    event: Seq<char>,
    thread: Option<Seq<char>>,
    ts: int,
) -> JsonV {
    let data = with_text(no_fields().insert("ts"@, JsonV::Int(ts)), "thread_id"@, thread);
    JsonV::Object(
        no_fields().insert("edu_type"@, JsonV::Str("m.receipt"@)).insert(
            "content"@,
            one_field(
                room,
                one_field(
                    "m.read"@,
                    one_field(
                        user,
                        JsonV::Object(
                            no_fields().insert("data"@, JsonV::Object(data)).insert(
                                "event_ids"@,
                                JsonV::Array(seq![JsonV::Str(event)]),
                            ),
                        ),
                    ),
                ),
            ),
        ),
    )
}

/// A read receipt as other servers are told it.
pub fn broadcast_receipt(
    room_id: &str,
    user_id: &str,
    event_id: &str,
    thread_id: Option<&str>,
    now_ms: u64,
) -> (r: Json)
    ensures
        r@ == receipt_edu(
            room_id@,
            user_id@,
            event_id@,
            match thread_id {
                Some(t) => Some(t@),
                None => None,
            },
            now_ms as int,
        ),
{
    let mut data: Vec<(String, Json)> = Vec::new();
    put_str(&mut data, "ts", Json::Int(now_ms as i128));
    match thread_id {
        Some(t) => {
            put_str(&mut data, "thread_id", text_json(t));
        },
        None => {},
    }
    let mut receipt: Vec<(String, Json)> = Vec::new();
    put_str(&mut receipt, "data", Json::Object(data));
    put_str(&mut receipt, "event_ids", array_of(text_json(event_id)));
    let mut m: Vec<(String, Json)> = Vec::new();
    put_str(&mut m, "edu_type", text_json("m.receipt"));
    put_str(
        &mut m,
        "content",
        object_of(room_id, object_of("m.read", object_of(user_id, Json::Object(receipt)))),
    );
    Json::Object(m)
}

/// A receipt tells the other servers who has read which event of which room, in
/// which thread, and when.
pub proof fn law_receipts_tell_what_was_read(
    room: Seq<char>,
    user: Seq<char>,
    event: Seq<char>,
    thread: Option<Seq<char>>,
    ts: int,
)
    ensures
        ({
            let e = receipt_edu(room, user, event, thread, ts);
            &&& field(e, "edu_type"@) == Some(JsonV::Str("m.receipt"@))
            &&& field2(e, "content"@, room) matches Some(r)
                && field2(r, "m.read"@, user) matches Some(
                u,
            ) && field(u, "event_ids"@) == Some(JsonV::Array(seq![JsonV::Str(event)])) && field2(
                u,
                "data"@,
                "ts"@,
            ) == Some(JsonV::Int(ts)) && field2(u, "data"@, "thread_id"@) == (match thread {
                Some(t) => Some(JsonV::Str(t)),
                None => None,
            })
        }),
{
    reveal_strlit("edu_type");
    reveal_strlit("content");
    reveal_strlit("data");
    reveal_strlit("event_ids");
    reveal_strlit("ts");
    reveal_strlit("thread_id");
    assert("edu_type"@.len() == 8 && "content"@.len() == 7 && "data"@.len() == 4
        && "event_ids"@.len() == 9 && "ts"@.len() == 2 && "thread_id"@.len() == 9);
    assert("event_ids"@[0] == 'e' && "thread_id"@[0] == 't');
}

/// An update is sent as it is, under our name and at the time.
pub proof fn law_edus_are_sent_as_they_are(
    origin: &str,
    edu: Json,
    now_ms: u64,
    r: (String, Json),
)
    requires
        call_ensures(send_edu, (origin, edu, now_ms), r),
    ensures
        field(r.1@, "edus"@) == Some(JsonV::Array(seq![edu@])),
        field(r.1@, "origin"@) == Some(JsonV::Str(origin@)),
        field(r.1@, "origin_server_ts"@) == Some(JsonV::Int(now_ms as int)),
{
    reveal_strlit("origin");
    reveal_strlit("origin_server_ts");
    reveal_strlit("edus");
    assert("origin"@.len() == 6 && "origin_server_ts"@.len() == 16 && "edus"@.len() == 4);
}

} // verus!

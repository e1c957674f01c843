//! What a push gateway is told of an event, and whether it is told at all.
use crate::ids::{check_user_id, is_user_id, server_in, server_part};
use crate::json::{
    as_text, copy_fields, entry, field, field2, fields_view, get, items_view, lemma_items,
        no_fields, object_of,
    one_field, put_str, remove, text_json, array_of, Json, JsonV,
};
use crate::text::{opt_text, same_text, texts};
use vstd::prelude::*;

verus! {

/// How many rows of the change stream are drained per wake.
pub const BATCH: usize = 128;

/// What the delivery of one room shard does next.
#[derive(Clone, Copy, Debug, PartialEq, Eq, Structural)]
pub enum Pass {
    /// The shard is not here: forget the position and look again later.
    Wait,
    /// Start at the tip: pushes that were missed are not delivered again.
    FromTip,
    From(u64),
}

/// What the delivery of one room shard does next.
pub fn next_pass(hosted: bool, cursor: Option<u64>) -> (r: Pass)
    ensures
        r == (if !hosted {
            Pass::Wait
        } else {
            match cursor {
                Some(c) => Pass::From(c),
                None => Pass::FromTip,
            }
        }),
{
    if !hosted {
        return Pass::Wait;
    }
    match cursor {
        Some(c) => Pass::From(c),
        None => Pass::FromTip,
    }
}

/// The field `key` of a value; `null` where there is none.
pub open spec fn at_key(j: JsonV, key: Seq<char>) -> JsonV {
    match field(j, key) {
        Some(x) => x,
        None => JsonV::Null,
    }
}

fn copy_key(j: &Json, key: &str) -> (r: Json)
    ensures
        r@ == at_key(j@, key@),
{
    match j.get(key) {
        Some(x) => x.copy(),
        None => Json::Null,
    }
}

/// Does a pusher deliver over HTTP, and does it say where to?
pub open spec fn is_http_pusher(p: JsonV) -> bool {
    at_key(p, "kind"@) == JsonV::Str("http"@) && at_key(at_key(p, "data"@), "url"@) is Str
}

/// Does a pusher deliver over HTTP, and does it say where to?
pub fn http_pusher(p: &Json) -> (r: bool)
    ensures
        r == is_http_pusher(p@),
{
    let http = match p.get_str("kind") {
        Some(k) => same_text(k, "http"),
        None => false,
    };
    http && (match p.get2("data", "url") {
        Some(u) => u.as_str().is_some(),
        None => false,
    })
}

/// The pushers that deliver over HTTP.
pub open spec fn http_only(pushers: Seq<JsonV>) -> Seq<JsonV>
    decreases pushers.len(),
{
    if pushers.len() == 0 {
        Seq::empty()
    } else {
        let init = http_only(pushers.drop_last());
        if is_http_pusher(pushers.last()) {
            init.push(pushers.last())
        } else {
            init
        }
    }
}

/// The pushers of a user that deliver over HTTP.
pub fn http_pushers(pushers: &Vec<Json>) -> (r: Vec<Json>)
    ensures
        items_view(r@) == http_only(items_view(pushers@)),
{
    let mut out: Vec<Json> = Vec::new();
    let mut i: usize = 0;
    proof {
        lemma_items(pushers@);
    }
    while i < pushers.len()
        invariant
            i <= pushers.len(),
            items_view(pushers@).len() == pushers@.len(),
            forall|k: int|
                0 <= k < pushers@.len() ==> (#[trigger] items_view(pushers@)[k]) == pushers@[k]@,
            items_view(out@) == http_only(items_view(pushers@).take(i as int)),
        decreases pushers.len() - i,
    {
        proof {
            assert(items_view(pushers@).take(i + 1).drop_last() =~= items_view(pushers@).take(
                i as int,
            ));
        }
        if http_pusher(&pushers[i]) {
            let p = pushers[i].copy();
            proof {
                assert(out@.push(p).drop_last() =~= out@);
            }
            out.push(p);
        }
        i += 1;
    }
    proof {
        assert(items_view(pushers@).take(pushers@.len() as int) =~= items_view(pushers@));
    }
    out
}

/// The members who are users of a server.
pub open spec fn members_of(members: Seq<Seq<char>>, server: Seq<char>) -> Seq<Seq<char>>
    decreases members.len(),
{
    if members.len() == 0 {
        Seq::empty()
    } else {
        let init = members_of(members.drop_last(), server);
        let m = members.last();
        if is_user_id(m) && server_in(m) == Some(server) {
            init.push(m)
        } else {
            init
        }
    }
}

/// The members of a room whose rules an event is held against: those of this
/// server.
pub fn notify_event(members: &Vec<String>, our_name: &str) -> (r: Vec<String>)
    ensures
        texts(r@) == members_of(texts(members@), our_name@),
{
    let mut out: Vec<String> = Vec::new();
    let mut i: usize = 0;
    while i < members.len()
        invariant
            i <= members.len(),
            texts(out@) == members_of(texts(members@).take(i as int), our_name@),
        decreases members.len() - i,
    {
        let m = members[i].as_str();
        proof {
            assert(texts(members@).take(i + 1).drop_last() =~= texts(members@).take(i as int));
            assert(texts(members@).take(i + 1).last() == m@);
        }
        let ours = match server_part(m) {
            Some(s) => same_text(s.as_str(), our_name),
            None => false,
        };
        if ours && check_user_id(m).is_ok() {
            let ghost before = out@;
            out.push(m.to_owned());
            proof {
                assert(texts(out@) =~= texts(before).push(m@));
            }
        }
        i += 1;
    }
    proof {
        assert(texts(members@).take(members@.len() as int) =~= texts(members@));
    }
    out
}

/// Was the event sent by the user? Nobody is notified of what they sent.
pub fn is_own(ev: &Json, user_id: &str) -> (r: bool)
    ensures
        r == ((match as_text(field(ev@, "sender"@)) {
            Some(s) => s,
            None => ""@,
        }) == user_id@),
{
    match ev.get_str("sender") {
        Some(s) => same_text(s, user_id),
        None => same_text("", user_id),
    }
}

/// What a push rule wants done.
#[derive(Debug)]
pub enum PushAction {
    Notify,
    Sound(String),
    Highlight(bool),
    Other,
}

/// Do the actions of the rules say to notify?
pub fn notifies(actions: &Vec<PushAction>) -> (r: bool)
    ensures
        r <==> exists|i: int| 0 <= i < actions@.len() && #[trigger] actions@[i] is Notify,
{
    let mut i: usize = 0;
    while i < actions.len()
        invariant
            i <= actions.len(),
            forall|j: int| 0 <= j < i ==> !(#[trigger] actions@[j] is Notify),
        decreases actions.len() - i,
    {
        match &actions[i] {
            PushAction::Notify => {
                return true;
            },
            _ => {},
        }
        i += 1;
    }
    false
}

/// The tweaks that the actions set; a later one replaces an earlier one.
pub open spec fn tweaks(actions: Seq<PushAction>) -> Map<Seq<char>, JsonV>
    decreases actions.len(),
{
    if actions.len() == 0 {
        no_fields()
    } else {
        let init = tweaks(actions.drop_last());
        match actions.last() {
            PushAction::Sound(s) => init.insert("sound"@, JsonV::Str(s@)),
            PushAction::Highlight(h) => init.insert("highlight"@, JsonV::Bool(h)),
            _ => init,
        }
    }
}

/// The tweaks that the actions set.
pub fn tweaks_of(actions: &Vec<PushAction>) -> (r: Vec<(String, Json)>)
    ensures
        fields_view(r@) == tweaks(actions@),
{
    let mut out: Vec<(String, Json)> = Vec::new();
    let mut i: usize = 0;
    while i < actions.len()
        invariant
            i <= actions.len(),
            fields_view(out@) == tweaks(actions@.take(i as int)),
        decreases actions.len() - i,
    {
        proof {
            assert(actions@.take(i + 1).drop_last() =~= actions@.take(i as int));
        }
        match &actions[i] {
            PushAction::Sound(s) => {
                put_str(&mut out, "sound", text_json(s.as_str()));
            },
            PushAction::Highlight(h) => {
                put_str(&mut out, "highlight", Json::Bool(*h));
            },
            _ => {},
        }
        i += 1;
    }
    proof {
        assert(actions@.take(actions@.len() as int) =~= actions@);
    }
    out
}

/// What is known of an event that is pushed.
#[derive(Debug)]
pub struct PushedEvent {
    pub event: Json,
    pub event_id: String,
    pub room_id: String,
    /// How many events of the room the user has not read.
    pub unread: u64,
    pub room_name: Option<String>,
    pub sender_display_name: Option<String>,
}

/// What a pusher tells its gateway besides the place to deliver to.
pub open spec fn device_data(pusher: JsonV) -> Map<Seq<char>, JsonV> {
    match at_key(pusher, "data"@) {
        JsonV::Object(m) => m.remove("url"@),
        _ => no_fields(),
    }
}

/// How a device is told to its gateway.
pub open spec fn device_json(pusher: JsonV, tweaks: Map<Seq<char>, JsonV>) -> JsonV {
    let m = no_fields().insert("app_id"@, at_key(pusher, "app_id"@)).insert(
        "pushkey"@,
        at_key(pusher, "pushkey"@),
    ).insert("data"@, JsonV::Object(device_data(pusher)));
    JsonV::Object(
        if tweaks == no_fields() {
            m
        } else {
            m.insert("tweaks"@, JsonV::Object(tweaks))
        },
    )
}

/// Is only the ID of an event told to the gateway?
pub open spec fn id_only(pusher: JsonV) -> bool {
    at_key(at_key(pusher, "data"@), "format"@) == JsonV::Str("event_id_only"@)
}

pub open spec fn with_text(
    m: Map<Seq<char>, JsonV>,
    key: Seq<char>,
    value: Option<Seq<char>>,
) -> Map<Seq<char>, JsonV> {
    match value {
        Some(s) => m.insert(key, JsonV::Str(s)),
        None => m,
    }
}

/// What a gateway is told of an event.
pub open spec fn notification_fields(
    pusher: JsonV,
    tweaks: Map<Seq<char>, JsonV>,
    p: PushedEvent,
) -> Map<Seq<char>, JsonV> {
    let m = no_fields().insert("event_id"@, JsonV::Str(p.event_id@)).insert(
        "room_id"@,
        JsonV::Str(p.room_id@),
    ).insert("prio"@, JsonV::Str("high"@)).insert(
        "counts"@,
        one_field("unread"@, JsonV::Int(p.unread as int)),
    ).insert("devices"@, JsonV::Array(seq![device_json(pusher, tweaks)]));
    if id_only(pusher) {
        m
    } else {
        with_text(
            with_text(
                m.insert("type"@, at_key(p.event@, "type"@)).insert(
                    "sender"@,
                    at_key(p.event@, "sender"@),
                ).insert("content"@, at_key(p.event@, "content"@)),
                "room_name"@,
                opt_text(p.room_name),
            ),
            "sender_display_name"@,
            opt_text(p.sender_display_name),
        )
    }
}

fn put_opt(m: &mut Vec<(String, Json)>, key: &str, value: &Option<String>)
    ensures
        fields_view(final(m)@) == with_text(fields_view(old(m)@), key@, opt_text(*value)),
{
    match value {
        Some(s) => {
            put_str(m, key, text_json(s.as_str()));
        },
        None => {},
    }
}

/// The body that a gateway is sent.
pub fn notification(pusher: &Json, tweaks: &Vec<(String, Json)>, p: &PushedEvent) -> (r: Json)
    ensures
        r@ == one_field(
            "notification"@,
            JsonV::Object(notification_fields(pusher@, fields_view(tweaks@), *p)),
        ),
{
    proof {
        if tweaks@.len() > 0 {
            let k = tweaks@.last().0@;
            assert(fields_view(tweaks@).dom().contains(k));
            assert(!no_fields().dom().contains(k));
        }
    }
    let data: Vec<(String, Json)> = match pusher.get("data") {
        Some(Json::Object(m)) => remove(copy_fields(m), "url"),
        _ => Vec::new(),
    };
    let mut device: Vec<(String, Json)> = Vec::new();
    put_str(&mut device, "app_id", copy_key(pusher, "app_id"));
    put_str(&mut device, "pushkey", copy_key(pusher, "pushkey"));
    put_str(&mut device, "data", Json::Object(data));
    if tweaks.len() > 0 {
        put_str(&mut device, "tweaks", Json::Object(copy_fields(tweaks)));
    }
    let mut m: Vec<(String, Json)> = Vec::new();
    put_str(&mut m, "event_id", text_json(p.event_id.as_str()));
    put_str(&mut m, "room_id", text_json(p.room_id.as_str()));
    put_str(&mut m, "prio", text_json("high"));
    put_str(&mut m, "counts", object_of("unread", Json::Int(p.unread as i128)));
    put_str(&mut m, "devices", array_of(Json::Object(device)));
    let id_only = match pusher.get2("data", "format") {
        Some(f) => match f.as_str() {
            Some(s) => same_text(s, "event_id_only"),
            None => false,
        },
        None => false,
    };
    if !id_only {
        put_str(&mut m, "type", copy_key(&p.event, "type"));
        put_str(&mut m, "sender", copy_key(&p.event, "sender"));
        put_str(&mut m, "content", copy_key(&p.event, "content"));
        put_opt(&mut m, "room_name", &p.room_name);
        put_opt(&mut m, "sender_display_name", &p.sender_display_name);
    }
    object_of("notification", Json::Object(m))
}

/// The data of a pusher rides along without the URL of the gateway.
pub proof fn law_url_stays_here(pusher: JsonV)
    ensures
        !device_data(pusher).dom().contains("url"@),
{
}

/// A pusher that asked for event IDs only is told nothing of what was said, by
/// whom, or where.
pub proof fn law_id_only_tells_no_content(
    pusher: JsonV,
    tweaks: Map<Seq<char>, JsonV>,
    p: PushedEvent,
)
    requires
        id_only(pusher),
    ensures
        ({
            let m = notification_fields(pusher, tweaks, p);
            &&& !m.dom().contains("content"@)
            &&& !m.dom().contains("type"@)
            &&& !m.dom().contains("sender"@)
            &&& !m.dom().contains("room_name"@)
            &&& !m.dom().contains("sender_display_name"@)
        }),
{
    reveal_strlit("content");
    reveal_strlit("type");
    reveal_strlit("sender");
    reveal_strlit("room_name");
    reveal_strlit("sender_display_name");
    reveal_strlit("event_id");
    reveal_strlit("room_id");
    reveal_strlit("prio");
    reveal_strlit("counts");
    reveal_strlit("devices");
    assert("content"@.len() == 7 && "room_id"@.len() == 7 && "devices"@.len() == 7);
    assert("content"@[0] == 'c' && "room_id"@[0] == 'r' && "devices"@[0] == 'd');
    assert("type"@.len() == 4 && "prio"@.len() == 4 && "type"@[0] == 't' && "prio"@[0] == 'p');
    assert("sender"@.len() == 6 && "counts"@.len() == 6 && "sender"@[0] == 's' && "counts"@[0]
        == 'c');
    assert("room_name"@.len() == 9 && "event_id"@.len() == 8);
    assert("sender_display_name"@.len() == 19);
}

/// Are all items strings?
pub open spec fn all_strings(items: Seq<JsonV>) -> bool {
    forall|i: int| 0 <= i < items.len() ==> #[trigger] items[i] is Str
}

/// Does the answer of a gateway reject a pusher? It lists the push keys of apps
/// that are gone; a list with anything else in it counts as no list.
pub open spec fn is_rejected(pusher: JsonV, answer: JsonV) -> bool {
    match (at_key(answer, "rejected"@), at_key(pusher, "pushkey"@)) {
        (JsonV::Array(items), JsonV::Str(k)) => all_strings(items) && items.contains(
            JsonV::Str(k),
        ),
        _ => false,
    }
}

/// Does the answer of a gateway reject a pusher? The pusher is then dropped.
pub fn rejected(pusher: &Json, answer: &Json) -> (r: bool)
    ensures
        r == is_rejected(pusher@, answer@),
{
    let key = match pusher.get_str("pushkey") {
        Some(k) => k,
        None => {
            return false;
        },
    };
    let items = match answer.get("rejected") {
        Some(j) => match j.as_array() {
            Some(v) => v,
            None => {
                return false;
            },
        },
        None => {
            return false;
        },
    };
    let ghost views = items_view(items@);
    proof {
        crate::json::lemma_items(items@);
    }
    let mut hit = false;
    let mut i: usize = 0;
    while i < items.len()
        invariant
            i <= items.len(),
            views == items_view(items@),
            views.len() == items@.len(),
            forall|j: int| 0 <= j < items@.len() ==> #[trigger] views[j] == items@[j]@,
            at_key(answer@, "rejected"@) == JsonV::Array(views),
            at_key(pusher@, "pushkey"@) == JsonV::Str(key@),
            forall|j: int| 0 <= j < i ==> #[trigger] views[j] is Str,
            hit <==> exists|j: int| 0 <= j < i && #[trigger] views[j] == JsonV::Str(key@),
        decreases items.len() - i,
    {
        match items[i].as_str() {
            Some(s) => {
                proof {
                    assert(views[i as int] == JsonV::Str(s@));
                }
                if same_text(s, key) {
                    hit = true;
                }
            },
            None => {
                proof {
                    assert(!(views[i as int] is Str));
                }
                return false;
            },
        }
        i += 1;
    }
    hit
}

/// What one gateway is sent, and where.
#[derive(Debug)]
pub struct Delivery {
    pub url: String,
    pub body: Json,
}

/// Is a user told of an event at all? Not of what they sent, and only where their
/// rules say so.
pub open spec fn is_told(ev: JsonV, user: Seq<char>, actions: Seq<PushAction>) -> bool {
    sender_or_empty(ev) != user && exists|i: int|
        0 <= i < actions.len() && #[trigger] actions[i] is Notify
}

pub open spec fn sender_or_empty(ev: JsonV) -> Seq<char> {
    match as_text(field(ev, "sender"@)) {
        Some(s) => s,
        None => ""@,
    }
}

/// The gateway of a pusher.
pub open spec fn gateway_of(pusher: JsonV) -> Seq<char> {
    match at_key(at_key(pusher, "data"@), "url"@) {
        JsonV::Str(u) => u,
        _ => ""@,
    }
}

/// What the gateways of a user's pushers are sent for an event.
pub fn notify_user(
    p: &PushedEvent,
    user_id: &str,
    actions: &Vec<PushAction>,
    pushers: &Vec<Json>,
) -> (r: Vec<Delivery>)
    ensures
        if is_told(p.event@, user_id@, actions@) {
            &&& r@.len() == pushers@.len()
            &&& forall|i: int|
                0 <= i < r@.len() ==> (#[trigger] r@[i]).url@ == gateway_of(pushers@[i]@)
                    && r@[i].body@ == one_field(
                    "notification"@,
                    JsonV::Object(notification_fields(pushers@[i]@, tweaks(actions@), *p)),
                )
        } else {
            r@.len() == 0
        },
{
    let mut out: Vec<Delivery> = Vec::new();
    if is_own(&p.event, user_id) || !notifies(actions) {
        return out;
    }
    let set = tweaks_of(actions);
    let mut i: usize = 0;
    while i < pushers.len()
        invariant
            i <= pushers.len(),
            fields_view(set@) == tweaks(actions@),
            out@.len() == i,
            forall|k: int|
                0 <= k < i ==> (#[trigger] out@[k]).url@ == gateway_of(pushers@[k]@)
                    && out@[k].body@ == one_field(
                    "notification"@,
                    JsonV::Object(notification_fields(pushers@[k]@, tweaks(actions@), *p)),
                ),
        decreases pushers.len() - i,
    {
        let url = match pushers[i].get2("data", "url") {
            Some(u) => match u.as_str() {
                Some(s) => s.to_owned(),
                None => "".to_owned(),
            },
            None => "".to_owned(),
        };
        let body = notification(&pushers[i], &set, p);
        out.push(Delivery { url, body });
        i += 1;
    }
    out
}

/// Pushes go to the pushers that are HTTP pushers and have a gateway.
pub proof fn law_http_pushers_are_pushed_to(
    a: Seq<JsonV>,
    b: Seq<JsonV>,
    x: JsonV,
)
    ensures
        http_only(a + b) == http_only(a) + http_only(b),
        http_only(seq![x]) == (if field(x, "kind"@) == Some(JsonV::Str("http"@))
            && (field2(x, "data"@, "url"@) matches Some(
            JsonV::Str(_),
        )) {
            seq![x]
        } else {
            Seq::empty()
        }),
    decreases b.len(),
{
    reveal_with_fuel(http_only, 2);
    assert(seq![x].drop_last() =~= Seq::<JsonV>::empty());
    if b.len() == 0 {
        assert(a + b =~= a);
    } else {
        law_http_pushers_are_pushed_to(a, b.drop_last(), x);
        assert((a + b).drop_last() =~= a + b.drop_last());
        assert((a + b).last() == b.last());
    }

    assert(http_only(a + b) =~= http_only(a) + http_only(b));
}

/// Of the members of a room, those of this server are told of an event.
pub proof fn law_our_members_are_told(
    a: Seq<Seq<char>>,
    b: Seq<Seq<char>>,
    x: Seq<char>,
    server: Seq<char>,
)
    ensures
        members_of(a + b, server) == members_of(a, server) + members_of(b, server),
        members_of(seq![x], server) == (if is_user_id(x) && server_in(x) == Some(server) {
            seq![x]
        } else {
            Seq::empty()
        }),
    decreases b.len(),
{
    reveal_with_fuel(members_of, 2);
    assert(seq![x].drop_last() =~= Seq::<Seq<char>>::empty());
    if b.len() == 0 {
        assert(a + b =~= a);
    } else {
        law_our_members_are_told(a, b.drop_last(), x, server);
        assert((a + b).drop_last() =~= a + b.drop_last());
        assert((a + b).last() == b.last());
    }

    assert(members_of(a + b, server) =~= members_of(a, server) + members_of(b, server));
}

/// The tweaks of a push are the last sound and the last highlight that its rule
/// sets, and nothing else.
pub proof fn law_the_last_tweak_counts(actions: Seq<PushAction>, k: Seq<char>, i: int)
    ensures
        0 <= i < actions.len() && (actions[i] matches PushAction::Sound(s) && forall|j: int|
            i < j < actions.len() ==> !(#[trigger] actions[j] is Sound)) ==> entry(
            tweaks(actions),
            "sound"@,
        ) == Some(JsonV::Str(actions[i]->Sound_0@)),
        0 <= i < actions.len() && (actions[i] matches PushAction::Highlight(h) && forall|j: int|
            i < j < actions.len() ==> !(#[trigger] actions[j] is Highlight)) ==> entry(
            tweaks(actions),
            "highlight"@,
        ) == Some(JsonV::Bool(actions[i]->Highlight_0)),
        k != "sound"@ && k != "highlight"@ ==> !tweaks(actions).dom().contains(k),
        (forall|j: int| 0 <= j < actions.len() ==> !(#[trigger] actions[j] is Sound))
            ==> !tweaks(actions).dom().contains("sound"@),
        (forall|j: int| 0 <= j < actions.len() ==> !(#[trigger] actions[j] is Highlight))
            ==> !tweaks(actions).dom().contains("highlight"@),
    decreases actions.len(),
{
    reveal_strlit("sound");
    reveal_strlit("highlight");
    assert("sound"@.len() == 5 && "highlight"@.len() == 9);
    if actions.len() > 0 {
        let init = actions.drop_last();
        law_the_last_tweak_counts(init, k, i);
        assert(actions[actions.len() - 1] == actions.last());
        assert forall|j: int| 0 <= j < init.len() implies #[trigger] init[j] == actions[j] by {}
    }
}

/// A notification says which event it is, where, how many are unread and which
/// device it is for; and, unless the pusher wants the ID alone, what the event
/// is, who sent it, what it holds, and the names of room and sender.
pub proof fn law_notifications_say_what_happened(
    pusher: JsonV,
    tw: Map<Seq<char>, JsonV>,
    p: PushedEvent,
)
    ensures
        ({
            let n = JsonV::Object(notification_fields(pusher, tw, p));
            let brief = (field2(pusher, "data"@, "format"@) == Some(JsonV::Str("event_id_only"@)));
            &&& field(n, "event_id"@) == Some(JsonV::Str(p.event_id@))
            &&& field(n, "room_id"@) == Some(JsonV::Str(p.room_id@))
            &&& field2(n, "counts"@, "unread"@) == Some(JsonV::Int(p.unread as int))
            &&& field(n, "prio"@) == Some(JsonV::Str("high"@))
            &&& field(n, "devices"@) == Some(JsonV::Array(seq![device_json(pusher, tw)]))
            &&& !brief ==> {
                &&& field(p.event@, "type"@) is Some ==> field(n, "type"@) == field(
                    p.event@,
                    "type"@,
                )
                &&& field(p.event@, "sender"@) is Some ==> field(n, "sender"@) == field(
                    p.event@,
                    "sender"@,
                )
                &&& field(p.event@, "content"@) is Some ==> field(n, "content"@) == field(
                    p.event@,
                    "content"@,
                )
                &&& p.room_name matches Some(s) ==> field(n, "room_name"@) == Some(JsonV::Str(s@))
                &&& p.sender_display_name matches Some(s) ==> field(n, "sender_display_name"@)
                    == Some(JsonV::Str(s@))
            }
        }),
{
    reveal_strlit("event_id");
    reveal_strlit("room_id");
    reveal_strlit("prio");
    reveal_strlit("counts");
    reveal_strlit("devices");
    reveal_strlit("type");
    reveal_strlit("sender");
    reveal_strlit("content");
    reveal_strlit("room_name");
    reveal_strlit("sender_display_name");
    assert("event_id"@.len() == 8 && "room_id"@.len() == 7 && "prio"@.len() == 4
        && "counts"@.len() == 6 && "devices"@.len() == 7 && "type"@.len() == 4
        && "sender"@.len() == 6 && "content"@.len() == 7 && "room_name"@.len() == 9
        && "sender_display_name"@.len() == 19);
    assert("event_id"@[0] == 'e');
    assert("counts"@[0] == 'c' && "sender"@[0] == 's');
    assert("room_id"@[0] == 'r' && "devices"@[0] == 'd' && "content"@[0] == 'c');
    assert("prio"@[0] == 'p' && "type"@[0] == 't');
}

/// The device of a notification is the pusher's: its app, its key, its data
/// without the gateway, and the tweaks where there are any.
pub proof fn law_notifications_are_for_the_device(
    pusher: JsonV,
    tw: Map<Seq<char>, JsonV>,
    k: Seq<char>,
)
    ensures
        ({
            let d = device_json(pusher, tw);
            &&& field(pusher, "app_id"@) is Some ==> field(d, "app_id"@) == field(pusher, "app_id"@)
            &&& field(pusher, "pushkey"@) is Some ==> field(d, "pushkey"@) == field(
                pusher,
                "pushkey"@,
            )
            &&& (field(pusher, "data"@) matches Some(JsonV::Object(_))) && k != "url"@ ==> field2(
                d,
                "data"@,
                k,
            ) == field2(pusher, "data"@, k)
            &&& field2(d, "data"@, "url"@) is None
            &&& tw.dom().contains(k) ==> field2(d, "tweaks"@, k) == Some(tw[k])
        }),
{
    reveal_strlit("app_id");
    reveal_strlit("pushkey");
    reveal_strlit("data");
    reveal_strlit("tweaks");
    assert("app_id"@.len() == 6 && "pushkey"@.len() == 7 && "data"@.len() == 4 && "tweaks"@.len()
        == 6);
    assert("app_id"@[0] == 'a' && "tweaks"@[0] == 't');
}

/// A pusher is rejected exactly where the answer lists its key, in a list of
/// strings.
pub proof fn law_listed_keys_are_rejected(pusher: JsonV, answer: JsonV, key: Seq<char>)
    requires
        field(pusher, "pushkey"@) == Some(JsonV::Str(key)),
    ensures
        is_rejected(pusher, answer) <==> (field(answer, "rejected"@) matches Some(
            JsonV::Array(items),
        ) && items.contains(JsonV::Str(key)) && forall|i: int|
            0 <= i < items.len() ==> (#[trigger] items[i]) is Str),
{
}

/// A user is told of an event that their rules notify of, unless they sent it.
pub proof fn law_users_are_told_what_notifies(
    ev: JsonV,
    sender: Seq<char>,
    user: Seq<char>,
    actions: Seq<PushAction>,
    i: int,
)
    requires
        field(ev, "sender"@) == Some(JsonV::Str(sender)),
    ensures
        0 <= i < actions.len() && actions[i] is Notify && sender != user ==> is_told(
            ev,
            user,
            actions,
        ),
        sender == user ==> !is_told(ev, user, actions),
        (forall|j: int| 0 <= j < actions.len() ==> !(#[trigger] actions[j] is Notify))
            ==> !is_told(ev, user, actions),
{
}

/// A push goes to the gateway that the pusher names.
pub proof fn law_pushes_go_to_the_gateway(pusher: JsonV, url: Seq<char>)
    requires
        field2(pusher, "data"@, "url"@) == Some(JsonV::Str(url)),
    ensures
        gateway_of(pusher) == url,
{
}

/// Pushing goes on from its cursor, starts at the tip without one, and waits
/// where the shard is elsewhere.
pub proof fn law_pushing_goes_on_from_the_cursor(
    hosted: bool,
    cursor: Option<u64>,
    r: Pass,
)
    requires
        call_ensures(next_pass, (hosted, cursor), r),
    ensures
        !hosted ==> r is Wait,
        hosted && cursor is None ==> r is FromTip,
        hosted && cursor is Some ==> r == Pass::From(cursor->0),
{
}

/// A user who is to be told is told through every pusher, at its gateway, of
/// the event; others are not told.
pub proof fn law_every_pusher_is_told(
    p: &PushedEvent,
    user_id: &str,
    actions: &Vec<PushAction>,
    pushers: &Vec<Json>,
    sender: Seq<char>,
    url: Seq<char>,
    i: int,
    r: Vec<Delivery>,
)
    requires
        call_ensures(notify_user, (p, user_id, actions, pushers), r),
        field(p.event@, "sender"@) == Some(JsonV::Str(sender)),
    ensures
        sender == user_id@ ==> r@.len() == 0,
        sender != user_id@ && (exists|k: int| 0 <= k < actions@.len()
            && #[trigger] actions@[k] is Notify)
            ==> r@.len() == pushers@.len(),
        0 <= i < r@.len() && field2(pushers@[i]@, "data"@, "url"@) == Some(JsonV::Str(url))
            ==> r@[i].url@
            == url && (field2(r@[i].body@, "notification"@, "event_id"@)
                == Some(JsonV::Str(p.event_id@))),
{
    if 0 <= i < r@.len() {
        law_notifications_say_what_happened(pushers@[i]@, tweaks(actions@), *p);
        assert(r@[i].url@ == gateway_of(pushers@[i]@));
    }
}

} // verus!

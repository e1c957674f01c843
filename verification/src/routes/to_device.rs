//! Messages to devices: those of local recipients go to their inboxes, and each
//! other server gets one ephemeral event with the messages for its users.
use crate::ids::{server_in, server_part};
use crate::json::{
    copy_fields, field, field2, fields_view, names_differ, no_fields, put_str, text_json, Json,
        JsonV,
};
use crate::routes::keys::{add_user, with_user};
use crate::text::same_text;
use vstd::prelude::*;
use vstd::string::StringExecFns;

verus! {

/// The messages for one user, by device; `*` stands for all of them.
#[derive(Debug)]
pub struct UserMessages {
    pub user_id: String,
    pub messages: Vec<(String, Json)>,
}

/// A message for a device of ours.
#[derive(Debug)]
pub struct ToDeviceMessage {
    pub user_id: String,
    pub device_id: String,
    pub event: Json,
}

pub struct ToDeviceMessageV {
    pub user_id: Seq<char>,
    pub device_id: Seq<char>,
    pub event: JsonV,
}

impl View for ToDeviceMessage {
    type V = ToDeviceMessageV;

    open spec fn view(&self) -> ToDeviceMessageV {
        ToDeviceMessageV {
            user_id: self.user_id@,
            device_id: self.device_id@,
            event: self.event@,
        }
    }
}

pub open spec fn message_views(s: Seq<ToDeviceMessage>) -> Seq<ToDeviceMessageV> {
    s.map_values(|m: ToDeviceMessage| m@)
}

/// What is sent: its type, and by whom.
#[derive(Debug)]
pub struct Sending {
    pub event_type: String,
    pub sender: String,
    pub txn_id: String,
}

/// A message as it stands in an inbox.
pub open spec fn inbox_event(s: Sending, content: JsonV) -> JsonV {
    JsonV::Object(
        no_fields().insert("type"@, JsonV::Str(s.event_type@)).insert(
            "sender"@,
            JsonV::Str(s.sender@),
        ).insert("content"@, content),
    )
}

/// The messages for the devices of one user of ours, in order.
pub open spec fn inbox_messages(s: Sending, user: Seq<char>, messages: Seq<(String, Json)>) -> Seq<
    ToDeviceMessageV,
> {
    messages.map_values(
        |m: (String, Json)|
            ToDeviceMessageV { user_id: user, device_id: m.0@, event: inbox_event(s, m.1@) },
    )
}

pub open spec fn is_ours(user: Seq<char>, our_name: Seq<char>) -> bool {
    server_in(user) == Some(our_name) || server_in(user) is None
}

/// The messages for our devices.
pub open spec fn local_messages(s: Sending, our_name: Seq<char>, all: Seq<UserMessages>) -> Seq<
    ToDeviceMessageV,
>
    decreases all.len(),
{
    if all.len() == 0 {
        Seq::empty()
    } else {
        let init = local_messages(s, our_name, all.drop_last());
        let u = all.last();
        if is_ours(u.user_id@, our_name) {
            init + inbox_messages(s, u.user_id@, u.messages@)
        } else {
            init
        }
    }
}

/// The messages for the users of other servers, by server and user.
pub open spec fn remote_messages(our_name: Seq<char>, all: Seq<UserMessages>) -> Map<
    Seq<char>,
    JsonV,
>
    decreases all.len(),
{
    if all.len() == 0 {
        no_fields()
    } else {
        let init = remote_messages(our_name, all.drop_last());
        let u = all.last();
        if is_ours(u.user_id@, our_name) || u.messages@.len() == 0 {
            init
        } else {
            with_user(
                init,
                server_in(u.user_id@)->0,
                u.user_id@,
                JsonV::Object(fields_view(u.messages@)),
            )
        }
    }
}

/// What is queued here, and what goes to other servers.
#[derive(Debug)]
pub struct ToDevicePlan {
    pub local: Vec<ToDeviceMessage>,
    pub remote: Vec<(String, Json)>,
}

fn event_for(s: &Sending, content: &Json) -> (r: Json)
    ensures
        r@ == inbox_event(*s, content@),
{
    let mut m: Vec<(String, Json)> = Vec::new();
    put_str(&mut m, "type", text_json(s.event_type.as_str()));
    put_str(&mut m, "sender", text_json(s.sender.as_str()));
    put_str(&mut m, "content", content.copy());
    Json::Object(m)
}

/// Sorts messages to devices by who is to deliver them. Each other server is named
/// once, with all the messages for its users.
pub fn send_to_device(s: &Sending, our_name: &str, all: &Vec<UserMessages>) -> (r: ToDevicePlan)
    ensures
        message_views(r.local@) == local_messages(*s, our_name@, all@),
        fields_view(r.remote@) == remote_messages(our_name@, all@),
        forall|i: int, j: int|
            #![trigger r.remote@[i], r.remote@[j]]
            0 <= i < j < r.remote@.len() ==> r.remote@[i].0@ != r.remote@[j].0@,
{
    let mut local: Vec<ToDeviceMessage> = Vec::new();
    let mut remote: Vec<(String, Json)> = Vec::new();
    proof {
        reveal(names_differ);
        assert(message_views(local@) =~= local_messages(*s, our_name@, all@.take(0)));
    }
    let mut i: usize = 0;
    while i < all.len()
        invariant
            i <= all.len(),
            message_views(local@) == local_messages(*s, our_name@, all@.take(i as int)),
            fields_view(remote@) == remote_messages(our_name@, all@.take(i as int)),
            names_differ(remote@),
        decreases all.len() - i,
    {
        proof {
            assert(all@.take(i + 1).drop_last() =~= all@.take(i as int));
            assert(all@.take(i + 1).last() == all@[i as int]);
        }
        let u = &all[i];
        let other: Option<String> = match server_part(u.user_id.as_str()) {
            Some(server) => if same_text(server.as_str(), our_name) {
                None
            } else {
                Some(server)
            },
            None => None,
        };
        match other {
            Some(server) => {
                if u.messages.len() > 0 {
                    add_user(
                        &mut remote,
                        server.as_str(),
                        u.user_id.as_str(),
                        Json::Object(copy_fields(&u.messages)),
                    );
                }
            },
            None => {
                let ghost before = message_views(local@);
                let ghost mine = inbox_messages(*s, u.user_id@, u.messages@);
                proof {
                    assert(before + mine.take(0) =~= before);
                }
                let mut k: usize = 0;
                while k < u.messages.len()
                    invariant
                        k <= u.messages.len(),
                        mine == inbox_messages(*s, u.user_id@, u.messages@),
                        message_views(local@) == before + mine.take(k as int),
                    decreases u.messages.len() - k,
                {
                    let m = ToDeviceMessage {
                        user_id: u.user_id.as_str().to_owned(),
                        device_id: u.messages[k].0.as_str().to_owned(),
                        event: event_for(s, &u.messages[k].1),
                    };
                    proof {
                        assert(message_views(local@.push(m)) =~= message_views(local@).push(m@));
                        assert(before + mine.take(k + 1) =~= (before + mine.take(k as int)).push(
                            m@,
                        ));
                    }
                    local.push(m);
                    k += 1;
                }
                proof {
                    assert(mine.take(mine.len() as int) =~= mine);
                }
            },
        }
        i += 1;
    }
    proof {
        assert(all@.take(all@.len() as int) =~= all@);
    }
    ToDevicePlan { local, remote }
}

/// The scope of the transaction IDs of messages of a type.
pub fn to_device_scope(event_type: &str) -> (r: String)
    ensures
        r@ == "to_device"@.push('\0') + event_type@,
{
    let mut out = "to_device".to_owned();
    out.push('\0');
    out.append(event_type);
    out
}

/// How far a sending has come.
#[derive(Clone, Copy, Debug, PartialEq, Eq, Structural)]
pub enum SendPhase {
    /// Ask whether the transaction was seen before.
    Ask,
    /// Write the messages for our devices to their inboxes.
    Queue,
    /// Put the messages for other servers into the outbox.
    Forward,
    /// Mark the transaction as seen.
    Mark,
    /// Answer that all is done.
    Done,
    /// Answer with the fault of the write that failed.
    Failed,
}

/// What came of a phase.
#[derive(Clone, Copy, Debug, PartialEq, Eq, Structural)]
pub enum SendEvent {
    Seen(bool),
    Written,
    Failed,
}

/// Where an event takes a sending. One that does not answer the phase changes
/// nothing.
pub open spec fn send_step(phase: SendPhase, event: SendEvent) -> SendPhase {
    match (phase, event) {
        (SendPhase::Done, _) => SendPhase::Done,
        (_, SendEvent::Failed) => SendPhase::Failed,
        (SendPhase::Ask, SendEvent::Seen(true)) => SendPhase::Done,
        (SendPhase::Ask, SendEvent::Seen(false)) => SendPhase::Queue,
        (SendPhase::Queue, SendEvent::Written) => SendPhase::Forward,
        (SendPhase::Forward, SendEvent::Written) => SendPhase::Mark,
        (SendPhase::Mark, SendEvent::Written) => SendPhase::Done,
        _ => phase,
    }
}

/// The phase that follows. The transaction is marked last, so that a failed write
/// leaves it unseen and the client can retry.
pub fn next_phase(phase: SendPhase, event: SendEvent) -> (r: SendPhase)
    ensures
        r == send_step(phase, event),
{
    match (phase, event) {
        (SendPhase::Done, _) => SendPhase::Done,
        (_, SendEvent::Failed) => SendPhase::Failed,
        (SendPhase::Ask, SendEvent::Seen(seen)) => if seen {
            SendPhase::Done
        } else {
            SendPhase::Queue
        },
        (SendPhase::Queue, SendEvent::Written) => SendPhase::Forward,
        (SendPhase::Forward, SendEvent::Written) => SendPhase::Mark,
        (SendPhase::Mark, SendEvent::Written) => SendPhase::Done,
        _ => phase,
    }
}

/// The phase of a sending after some events.
pub open spec fn phase_after(events: Seq<SendEvent>) -> SendPhase
    decreases events.len(),
{
    if events.len() == 0 {
        SendPhase::Ask
    } else {
        send_step(phase_after(events.drop_last()), events.last())
    }
}

/// A transaction that was seen before does nothing: however it goes on, nothing
/// is queued, forwarded or marked.
pub proof fn law_seen_transactions_do_nothing(events: Seq<SendEvent>, n: int)
    requires
        0 < n <= events.len(),
        events[0] == SendEvent::Seen(true),
    ensures
        phase_after(events.take(n)) == SendPhase::Done,
    decreases n,
{
    let now = events.take(n);
    assert(now.drop_last() =~= events.take(n - 1));
    if n > 1 {
        law_seen_transactions_do_nothing(events, n - 1);
    } else {
        assert(events.take(0) =~= Seq::empty());
    }
}

/// A sending that failed stays failed: it comes to no other phase, and the
/// transaction is not marked.
pub proof fn law_failed_writes_leave_it_unseen(events: Seq<SendEvent>, k: int, n: int)
    requires
        0 <= k < n <= events.len(),
        events[k] == SendEvent::Failed,
        phase_after(events.take(k)) != SendPhase::Done,
    ensures
        phase_after(events.take(n)) == SendPhase::Failed,
    decreases n,
{
    let now = events.take(n);
    assert(now.drop_last() =~= events.take(n - 1));
    if n > k + 1 {
        law_failed_writes_leave_it_unseen(events, k, n - 1);
    }
}

/// The transaction is marked only when both writes are through: the phase in which
/// it is marked follows that in which the outbox was written, and that one follows
/// the one in which the inboxes were.
pub proof fn law_marked_last(phase: SendPhase, event: SendEvent)
    ensures
        send_step(phase, event) == SendPhase::Mark && phase != SendPhase::Mark ==> phase
            == SendPhase::Forward && event == SendEvent::Written,
        send_step(phase, event) == SendPhase::Forward && phase != SendPhase::Forward ==> phase
            == SendPhase::Queue && event == SendEvent::Written,
        send_step(phase, event) == SendPhase::Queue && phase != SendPhase::Queue ==> phase
            == SendPhase::Ask && event == SendEvent::Seen(false),
        send_step(phase, event) == SendPhase::Done && phase != SendPhase::Done ==> (phase
            == SendPhase::Ask && event == SendEvent::Seen(true)) || (phase == SendPhase::Mark
            && event == SendEvent::Written),
{
}

/// How a sending is named to other servers: unique per server of origin, so the
/// sender is part of it, and the same on every retry.
pub open spec fn message_id(sender: Seq<char>, txn: Seq<char>) -> Seq<char> {
    sender + "/"@ + txn
}

/// The ephemeral event that one other server gets.
pub open spec fn direct_edu_json(s: Sending, messages: JsonV) -> JsonV {
    JsonV::Object(
        no_fields().insert("edu_type"@, JsonV::Str("m.direct_to_device"@)).insert(
            "content"@,
            JsonV::Object(
                no_fields().insert("sender"@, JsonV::Str(s.sender@)).insert(
                    "type"@,
                    JsonV::Str(s.event_type@),
                ).insert("message_id"@, JsonV::Str(message_id(s.sender@, s.txn_id@))).insert(
                    "messages"@,
                    messages,
                ),
            ),
        ),
    )
}

/// The ephemeral event that one other server gets.
pub fn direct_edu(s: &Sending, messages: Json) -> (r: Json)
    ensures
        r@ == direct_edu_json(*s, messages@),
{
    let mut id = s.sender.as_str().to_owned();
    id.append("/");
    id.append(s.txn_id.as_str());
    let mut c: Vec<(String, Json)> = Vec::new();
    put_str(&mut c, "sender", text_json(s.sender.as_str()));
    put_str(&mut c, "type", text_json(s.event_type.as_str()));
    put_str(&mut c, "message_id", Json::Str(id));
    put_str(&mut c, "messages", messages);
    let mut m: Vec<(String, Json)> = Vec::new();
    put_str(&mut m, "edu_type", text_json("m.direct_to_device"));
    put_str(&mut m, "content", Json::Object(c));
    Json::Object(m)
}

/// The server part of a user ID holds no slash.
pub open spec fn plain_server(user: Seq<char>) -> bool {
    server_in(user) matches Some(s) && !s.contains('/')
}

proof fn lemma_no_longer_sender(a: Seq<char>, x: Seq<char>, b: Seq<char>, y: Seq<char>)
    requires
        message_id(a, x) == message_id(b, y),
        plain_server(a),
        plain_server(b),
    ensures
        a.len() >= b.len(),
{
    reveal_strlit("/");
    if a.len() < b.len() {
        let s = message_id(a, x);
        let t = message_id(b, y);
        let n = a.len() as int;
        assert(s[n] == '/');
        assert(t[n] == b[n]);
        crate::text::lemma_find_char(a, ':', 0);
        crate::text::lemma_find_char(b, ':', 0);
        let ca = crate::text::find_char_from(a, ':', 0)->0;
        let cb = crate::text::find_char_from(b, ':', 0)->0;
        assert forall|i: int| 0 <= i < n implies a[i] == b[i] by {
            assert(s[i] == a[i]);
            assert(t[i] == b[i]);
        }
        assert(b[ca] == ':');
        assert(cb <= ca) by {
            if cb > ca {
                assert(b[ca] != ':');
            }
        }
        let server = server_in(b)->0;
        assert(server[n - cb - 1] == b[n]);
        assert(server.contains('/'));
    }
}

/// Two sendings have one name only where the sender and the transaction agree:
/// every client starts its counter at the same place, and still no message is
/// taken for another's.
pub proof fn law_message_ids_keep_senders_apart(
    a: Seq<char>,
    x: Seq<char>,
    b: Seq<char>,
    y: Seq<char>,
)
    requires
        message_id(a, x) == message_id(b, y),
        plain_server(a),
        plain_server(b),
    ensures
        a == b,
        x == y,
{
    reveal_strlit("/");
    lemma_no_longer_sender(a, x, b, y);
    lemma_no_longer_sender(b, y, a, x);
    let s = message_id(a, x);
    let t = message_id(b, y);
    let n = a.len() as int;
    assert(a =~= s.take(n));
    assert(b =~= t.take(n));
    assert(x =~= s.skip(n + 1));
    assert(y =~= t.skip(n + 1));
}

/// Messages for our own users go to the inbox of each device that they are for,
/// under the sender's name and with the content that was given; others go to no
/// inbox.
pub proof fn law_local_messages_reach_their_devices(
    a: Seq<UserMessages>,
    b: Seq<UserMessages>,
    x: UserMessages,
    sending: Sending,
    our_name: Seq<char>,
)
    ensures
        local_messages(sending, our_name, a + b) == local_messages(sending, our_name, a)
            + local_messages(sending, our_name, b),
        local_messages(sending, our_name, seq![x]) == (if server_in(x.user_id@) == Some(our_name)
            || server_in(x.user_id@) is None {
            Seq::new(
                x.messages@.len(),
                |i: int|
                    ToDeviceMessageV {
                        user_id: x.user_id@,
                        device_id: x.messages@[i].0@,
                        event: inbox_event(sending, x.messages@[i].1@),
                    },
            )
        } else {
            Seq::empty()
        }),
    decreases b.len(),
{
    reveal_with_fuel(local_messages, 2);
    assert(seq![x].drop_last() =~= Seq::<UserMessages>::empty());
    if b.len() == 0 {
        assert(a + b =~= a);
    } else {
        law_local_messages_reach_their_devices(a, b.drop_last(), x, sending, our_name);
        assert((a + b).drop_last() =~= a + b.drop_last());
        assert((a + b).last() == b.last());
    }
    assert(inbox_messages(sending, x.user_id@, x.messages@) =~= Seq::new(
        x.messages@.len(),
        |i: int|
            ToDeviceMessageV {
                user_id: x.user_id@,
                device_id: x.messages@[i].0@,
                event: inbox_event(sending, x.messages@[i].1@),
            },
    ));
    assert(local_messages(sending, our_name, seq![x]) =~= if is_ours(x.user_id@, our_name) {
        inbox_messages(sending, x.user_id@, x.messages@)
    } else {
        Seq::empty()
    });
    assert(local_messages(sending, our_name, a + b) =~= local_messages(sending, our_name, a)
        + local_messages(sending, our_name, b));
}

/// A message in an inbox says its type, who sent it and what it holds.
pub proof fn law_messages_say_what_was_sent(s: Sending, content: JsonV)
    ensures
        ({
            let e = inbox_event(s, content);
            &&& field(e, "type"@) == Some(JsonV::Str(s.event_type@))
            &&& field(e, "sender"@) == Some(JsonV::Str(s.sender@))
            &&& field(e, "content"@) == Some(content)
        }),
{
    reveal_strlit("type");
    reveal_strlit("sender");
    reveal_strlit("content");
    assert("type"@.len() == 4 && "sender"@.len() == 6 && "content"@.len() == 7);
}

/// What goes to another server says its type, who sent it, which message it is,
/// and the messages.
pub proof fn law_other_servers_are_told_what_was_sent(s: Sending, messages: JsonV)
    ensures
        ({
            let e = direct_edu_json(s, messages);
            &&& field(e, "edu_type"@) == Some(JsonV::Str("m.direct_to_device"@))
            &&& field2(e, "content"@, "sender"@) == Some(JsonV::Str(s.sender@))
            &&& field2(e, "content"@, "type"@) == Some(JsonV::Str(s.event_type@))
            &&& field2(e, "content"@, "message_id"@) == Some(
                JsonV::Str(message_id(s.sender@, s.txn_id@)),
            )
            &&& field2(e, "content"@, "messages"@) == Some(messages)
        }),
{
    reveal_strlit("edu_type");
    reveal_strlit("content");
    reveal_strlit("sender");
    reveal_strlit("type");
    reveal_strlit("message_id");
    reveal_strlit("messages");
    assert("edu_type"@.len() == 8 && "content"@.len() == 7 && "sender"@.len() == 6 && "type"@.len()
        == 4 && "message_id"@.len() == 10 && "messages"@.len() == 8);
}

/// Messages for a user of another server go to that server, all of them; nobody
/// else's do.
pub proof fn law_other_users_are_reached_through_their_server(
    our_name: Seq<char>,
    all: Seq<UserMessages>,
    i: int,
    server: Seq<char>,
    user: Seq<char>,
)
    ensures
        ({
            let remote = JsonV::Object(remote_messages(our_name, all));
            &&& 0 <= i < all.len() && all[i].messages@.len() > 0 && server_in(all[i].user_id@)
                == Some(server) && server != our_name && (forall|j: int|
                i < j < all.len() ==> (#[trigger] all[j]).user_id@ != all[i].user_id@) ==> field2(
                remote,
                server,
                all[i].user_id@,
            ) == Some(JsonV::Object(fields_view(all[i].messages@)))
            &&& field2(remote, server, user) is Some ==> server != our_name && server_in(user)
                == Some(server) && exists|j: int|
                0 <= j < all.len() && (#[trigger] all[j]).user_id@ == user
        }),
    decreases all.len(),
{
    if all.len() > 0 {
        let init = all.drop_last();
        law_other_users_are_reached_through_their_server(our_name, init, i, server, user);
        assert(all[all.len() - 1] == all.last());
        assert forall|j: int| 0 <= j < init.len() implies #[trigger] init[j] == all[j] by {}
        if exists|j: int| 0 <= j < init.len() && (#[trigger] init[j]).user_id@ == user {
            let j = choose|j: int| 0 <= j < init.len() && (#[trigger] init[j]).user_id@ == user;
            assert(all[j].user_id@ == user);
        }
        if 0 <= i < init.len() && (forall|j: int|
            i < j < all.len() ==> (#[trigger] all[j]).user_id@ != all[i].user_id@) {
            assert forall|j: int| i < j < init.len() implies (#[trigger] init[j]).user_id@
                != init[i].user_id@ by {
                assert(init[j] == all[j]);
            }
        }
    }
}

} // verus!

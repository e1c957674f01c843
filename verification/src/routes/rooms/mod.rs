//! Rooms: creation, membership, events, reads and the directory.
use crate::json::{as_int64, as_text, entry, field, field2, fields_view, put_str, read_int64, read_strings_in, remove, strings_in,
    text_json, Json, JsonV};
use crate::percent::{encode, percent_encoded};
use crate::routes::rooms::create::without;
use crate::text::{list_has, opt_text, same_text};
use vstd::prelude::*;

pub mod create;
pub mod directory;
pub mod events;
pub mod membership;
pub mod reads;

verus! {

/// Percent-encodes one path segment.
pub fn encode_segment(s: &str) -> (r: String)
    ensures
        r@ == percent_encoded(s@),
{
    encode(s)
}

/// Is the user one of the creators that a create event names: its sender, or a
/// creator listed in its content?
pub open spec fn names_as_creator(create: JsonV, user: Seq<char>) -> bool {
    ||| as_text(field(create, "sender"@)) == Some(user)
    ||| strings_in(field2(create, "content"@, "additional_creators"@)).contains(user)
}

/// A user's power level.
pub open spec fn user_level(levels: JsonV, user: Seq<char>) -> int {
    match as_int64(field2(levels, "users"@, user)) {
        Some(l) => l,
        None => match as_int64(field(levels, "users_default"@)) {
            Some(l) => l,
            None => 0,
        },
    }
}

/// The level that it takes to send a kind of state event.
pub open spec fn state_level(levels: JsonV, event_type: Seq<char>) -> int {
    match as_int64(field2(levels, "events"@, event_type)) {
        Some(l) => l,
        None => match as_int64(field(levels, "state_default"@)) {
            Some(l) => l,
            None => 50,
        },
    }
}

/// May a user send a kind of state event? Creators in privileged-creator
/// versions always may, and without a power-level event everyone may.
pub open spec fn may_send_state(
    privileged_creators: bool,
    create: Option<JsonV>,
    levels: Option<JsonV>,
    user: Seq<char>,
    event_type: Seq<char>,
) -> bool {
    if privileged_creators && (create matches Some(c) && names_as_creator(c, user)) {
        true
    } else {
        match levels {
            Some(l) => user_level(l, user) >= state_level(l, event_type),
            None => true,
        }
    }
}

pub open spec fn opt_json(j: Option<Json>) -> Option<JsonV> {
    match j {
        Some(x) => Some(x@),
        None => None,
    }
}

/// May `user_id` send state events of `event_type` in this room? Room creators
/// in privileged-creator versions always may; everyone else is measured
/// against the power-level event.
pub fn can_send_state(
    privileged_creators: bool,
    create_event: &Option<Json>,
    power_levels: &Option<Json>,
    user_id: &str,
    event_type: &str,
) -> (r: bool)
    ensures
        r == may_send_state(
            privileged_creators,
            opt_json(*create_event),
            opt_json(*power_levels),
            user_id@,
            event_type@,
        ),
{
    if privileged_creators {
        match create_event {
            Some(create) => {
                let sent = match create.get_str("sender") {
                    Some(s) => same_text(s, user_id),
                    None => false,
                };
                if sent {
                    return true;
                }
                let more = read_strings_in(create.get2("content", "additional_creators"));
                if list_has(&more, user_id) {
                    return true;
                }
            },
            None => {},
        }
    }
    let levels = match power_levels {
        Some(l) => l,
        None => {
            return true;
        },
    };
    let have: i64 = match read_int64(levels.get2("users", user_id)) {
        Some(l) => l,
        None => match read_int64(levels.get("users_default")) {
            Some(l) => l,
            None => 0,
        },
    };
    let need: i64 = match read_int64(levels.get2("events", event_type)) {
        Some(l) => l,
        None => match read_int64(levels.get("state_default")) {
            Some(l) => l,
            None => 50,
        },
    };
    have >= need
}

/// The names in member-event content that only the server sets.
pub open spec fn reserved_member_keys() -> Seq<Seq<char>> {
    seq![
        "membership"@,
        "displayname"@,
        "avatar_url"@,
        "join_authorised_via_users_server"@,
        "third_party_invite"@,
    ]
}

pub open spec fn with_text(m: Map<Seq<char>, JsonV>, key: Seq<char>, value: Option<Seq<char>>) -> Map<
    Seq<char>,
    JsonV,
> {
    match value {
        Some(v) => m.insert(key, JsonV::Str(v)),
        None => m,
    }
}

/// The content of a member event: what the client sent without the reserved
/// names, then what the server says. A join or an invite carries the target's
/// profile.
pub open spec fn member_content(
    extra: Map<Seq<char>, JsonV>,
    membership: Seq<char>,
    reason: Option<Seq<char>>,
    authorised_via: Option<Seq<char>>,
    displayname: Option<Seq<char>>,
    avatar_url: Option<Seq<char>>,
) -> Map<Seq<char>, JsonV> {
    let base = crate::routes::rooms::create::without(extra, reserved_member_keys()).insert(
        "membership"@,
        JsonV::Str(membership),
    );
    let base = with_text(base, "join_authorised_via_users_server"@, authorised_via);
    let base = with_text(base, "reason"@, reason);
    if membership == "join"@ || membership == "invite"@ {
        with_text(with_text(base, "displayname"@, displayname), "avatar_url"@, avatar_url)
    } else {
        base
    }
}

/// Builds the content of an `m.room.member` event. `extra` carries
/// client-supplied custom content; reserved fields are applied on top so a
/// body can't spoof membership or profile. `authorised_via`, when set, is the
/// server-chosen authoriser of a restricted join.
pub fn send_membership_with(
    extra: Vec<(String, Json)>,
    membership: &str,
    reason: Option<String>,
    authorised_via: Option<String>,
    displayname: Option<String>,
    avatar_url: Option<String>,
) -> (r: Vec<(String, Json)>)
    ensures
        fields_view(r@) == member_content(
            fields_view(extra@),
            membership@,
            opt_text(reason),
            opt_text(authorised_via),
            opt_text(displayname),
            opt_text(avatar_url),
        ),
{
    let ghost all = fields_view(extra@);
    let mut content = remove(extra, "membership");
    content = remove(content, "displayname");
    content = remove(content, "avatar_url");
    content = remove(content, "join_authorised_via_users_server");
    content = remove(content, "third_party_invite");
    proof {
        lemma_without_reserved(all);
    }
    put_str(&mut content, "membership", text_json(membership));
    match authorised_via {
        Some(a) => {
            put_str(&mut content, "join_authorised_via_users_server", Json::Str(a));
        },
        None => {},
    }
    match reason {
        Some(r) => {
            put_str(&mut content, "reason", Json::Str(r));
        },
        None => {},
    }
    if same_text(membership, "join") || same_text(membership, "invite") {
        match displayname {
            Some(d) => {
                put_str(&mut content, "displayname", Json::Str(d));
            },
            None => {},
        }
        match avatar_url {
            Some(a) => {
                put_str(&mut content, "avatar_url", Json::Str(a));
            },
            None => {},
        }
    }
    content
}

proof fn lemma_without_reserved(m: Map<Seq<char>, JsonV>)
    ensures
        without(m, reserved_member_keys()) == m.remove("membership"@).remove("displayname"@).remove(
            "avatar_url"@,
        ).remove("join_authorised_via_users_server"@).remove("third_party_invite"@),
{
    let k = reserved_member_keys();
    assert(k.drop_last().drop_last().drop_last().drop_last().drop_last() =~= Seq::empty());
    assert(k.drop_last().drop_last().drop_last().drop_last().last() == "membership"@);
    assert(k.drop_last().drop_last().drop_last().last() == "displayname"@);
    assert(k.drop_last().drop_last().last() == "avatar_url"@);
    assert(k.drop_last().last() == "join_authorised_via_users_server"@);
    reveal_with_fuel(without, 6);
}

/// A client cannot forge what the server vouches for: whatever the body says,
/// the membership, the authoriser and the profile are the server's, and there
/// is no third-party invite.
pub proof fn law_member_content_cannot_be_spoofed(
    extra: Map<Seq<char>, JsonV>,
    membership: Seq<char>,
    reason: Option<Seq<char>>,
    authorised_via: Option<Seq<char>>,
    displayname: Option<Seq<char>>,
    avatar_url: Option<Seq<char>>,
)
    ensures
        ({
            let c = member_content(
                extra,
                membership,
                reason,
                authorised_via,
                displayname,
                avatar_url,
            );
            let profiled = membership == "join"@ || membership == "invite"@;
            &&& entry(c, "membership"@) == Some(JsonV::Str(membership))
            &&& entry(c, "join_authorised_via_users_server"@) == (match authorised_via {
                Some(a) => Some(JsonV::Str(a)),
                None => None,
            })
            &&& entry(c, "displayname"@) == (match displayname {
                Some(d) => if profiled {
                    Some(JsonV::Str(d))
                } else {
                    None
                },
                None => None,
            })
            &&& entry(c, "avatar_url"@) == (match avatar_url {
                Some(a) => if profiled {
                    Some(JsonV::Str(a))
                } else {
                    None
                },
                None => None,
            })
            &&& entry(c, "third_party_invite"@) is None
        }),
{
    lemma_without_reserved(extra);
    reveal_strlit("membership");
    reveal_strlit("displayname");
    reveal_strlit("avatar_url");
    reveal_strlit("join_authorised_via_users_server");
    reveal_strlit("third_party_invite");
    reveal_strlit("reason");
    assert("membership"@.len() == 10 && "displayname"@.len() == 11 && "avatar_url"@.len() == 10
        && "join_authorised_via_users_server"@.len() == 32 && "third_party_invite"@.len() == 18
        && "reason"@.len() == 6);
    assert("membership"@[0] != "avatar_url"@[0]);
}

/// A user's level is the one that they have of their own, else the default for
/// users, else 0; a kind of state needs the level set for it, else the default
/// for state, else 50. Whoever has the level that it needs may send it, and
/// nobody else.
pub proof fn law_levels_decide_who_sends(
    create: Option<JsonV>,
    levels: JsonV,
    user: Seq<char>,
    event_type: Seq<char>,
    own: int,
    needed: int,
)
    requires
        as_int64(field2(levels, "users"@, user)) == Some(own) || (as_int64(
            field2(levels, "users"@, user),
        ) is None && (as_int64(field(levels, "users_default"@)) == Some(own) || (as_int64(
            field(levels, "users_default"@),
        ) is None && own == 0))),
        as_int64(field2(levels, "events"@, event_type)) == Some(needed) || (as_int64(
            field2(levels, "events"@, event_type),
        ) is None && (as_int64(field(levels, "state_default"@)) == Some(needed) || (as_int64(
            field(levels, "state_default"@),
        ) is None && needed == 50))),
    ensures
        may_send_state(false, create, Some(levels), user, event_type) <==> own >= needed,
        may_send_state(false, create, None, user, event_type),
{
}

/// Privileged creators may send any state, whatever their level: the sender of
/// the create event and those whom it lists.
pub proof fn law_privileged_creators_may_send_anything(
    create: JsonV,
    levels: Option<JsonV>,
    user: Seq<char>,
    event_type: Seq<char>,
)
    requires
        field(create, "sender"@) == Some(JsonV::Str(user)) || strings_in(
            field2(create, "content"@, "additional_creators"@),
        ).contains(user),
    ensures
        may_send_state(true, Some(create), levels, user, event_type),
{
}

/// Those who are not creators need the level also where creators are
/// privileged.
pub proof fn law_others_need_the_level(
    create: JsonV,
    levels: Option<JsonV>,
    user: Seq<char>,
    event_type: Seq<char>,
)
    requires
        field(create, "sender"@) != Some(JsonV::Str(user)),
        !strings_in(field2(create, "content"@, "additional_creators"@)).contains(user),
    ensures
        may_send_state(true, Some(create), levels, user, event_type) == may_send_state(
            false,
            Some(create),
            levels,
            user,
            event_type,
        ),
{
}

/// A membership event says what it is to say: the membership and the reason;
/// who authorised it; the profile, for a join and an invite; and every field of
/// the client's that the server does not manage.
pub proof fn law_member_events_say_what_they_are_to(
    extra: Map<Seq<char>, JsonV>,
    membership: Seq<char>,
    reason: Option<Seq<char>>,
    authorised_via: Option<Seq<char>>,
    displayname: Option<Seq<char>>,
    avatar_url: Option<Seq<char>>,
    k: Seq<char>,
)
    ensures
        ({
            let c = JsonV::Object(
                member_content(
                    extra,
                    membership,
                    reason,
                    authorised_via,
                    displayname,
                    avatar_url,
                ),
            );
            let profiled = membership == "join"@ || membership == "invite"@;
            &&& field(c, "membership"@) == Some(JsonV::Str(membership))
            &&& reason matches Some(r) ==> field(c, "reason"@) == Some(JsonV::Str(r))
            &&& reason is None ==> field(c, "reason"@) == field(JsonV::Object(extra), "reason"@)
            &&& authorised_via matches Some(u) ==> field(c, "join_authorised_via_users_server"@)
                == Some(JsonV::Str(u))
            &&& authorised_via is None ==> field(c, "join_authorised_via_users_server"@) is None
            &&& profiled && displayname is Some ==> field(c, "displayname"@) == Some(
                JsonV::Str(displayname->0),
            )
            &&& profiled && avatar_url is Some ==> field(c, "avatar_url"@) == Some(
                JsonV::Str(avatar_url->0),
            )
            &&& !profiled || displayname is None ==> field(c, "displayname"@) is None
            &&& !profiled || avatar_url is None ==> field(c, "avatar_url"@) is None
            &&& field(c, "third_party_invite"@) is None
            &&& k != "membership"@ && k != "reason"@ && k != "join_authorised_via_users_server"@
                && k != "displayname"@ && k != "avatar_url"@ && k != "third_party_invite"@
                ==> field(c, k) == field(JsonV::Object(extra), k)
        }),
{
    reveal_strlit("membership");
    reveal_strlit("displayname");
    reveal_strlit("avatar_url");
    reveal_strlit("join_authorised_via_users_server");
    reveal_strlit("third_party_invite");
    reveal_strlit("reason");
    assert("membership"@.len() == 10 && "displayname"@.len() == 11 && "avatar_url"@.len() == 10
        && "join_authorised_via_users_server"@.len() == 32 && "third_party_invite"@.len() == 18
        && "reason"@.len() == 6);
    assert("membership"@[0] == 'm' && "avatar_url"@[0] == 'a');
    let kept = reserved_member_keys();
    crate::routes::rooms::create::lemma_without(extra, kept);
    assert(kept[0] == "membership"@ && kept[1] == "displayname"@ && kept[2] == "avatar_url"@
        && kept[3] == "join_authorised_via_users_server"@ && kept[4] == "third_party_invite"@);
    assert(kept.contains(kept[0]) && kept.contains(kept[1]) && kept.contains(kept[2])
        && kept.contains(kept[3]) && kept.contains(kept[4]));
    assert(!kept.contains("reason"@)) by {
        if kept.contains("reason"@) {
            let i = choose|i: int| 0 <= i < kept.len() && kept[i] == "reason"@;
        }
    }
    if k != "membership"@ && k != "displayname"@ && k != "avatar_url"@ && k
        != "join_authorised_via_users_server"@ && k != "third_party_invite"@ {
        assert(!kept.contains(k)) by {
            if kept.contains(k) {
                let i = choose|i: int| 0 <= i < kept.len() && kept[i] == k;
            }
        }
    }
}

} // verus!

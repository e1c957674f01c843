//! Shared helpers over a room's state: membership gates, history visibility,
//! and the shapes in which clients see events.
use crate::error::{forbidden, ApiError, ApiErrorV};
use crate::json::{
    as_text, entry, field, field2, fields_view, get, no_fields, put_str, text_json, Json, JsonV,
};
use crate::text::{opt_text, same_text, texts};
use vstd::prelude::*;

verus! {

/// One entry of a state map, with the event it points at where that is known.
#[derive(Debug)]
pub struct StateEvent {
    pub event_type: String,
    pub state_key: String,
    pub event_id: String,
    pub event: Option<Json>,
    pub rejected: bool,
}

/// Where the state entry for a kind and key stands, from position `from` on.
pub open spec fn state_index(
    state: Seq<StateEvent>,
    event_type: Seq<char>,
    state_key: Seq<char>,
    from: int,
) -> Option<int>
    decreases state.len() - from,
{
    if from < 0 || from >= state.len() {
        None
    } else if state[from].event_type@ == event_type && state[from].state_key@ == state_key {
        Some(from)
    } else {
        state_index(state, event_type, state_key, from + 1)
    }
}

/// The state entry for a kind and key.
pub open spec fn state_entry(
    state: Seq<StateEvent>,
    event_type: Seq<char>,
    state_key: Seq<char>,
) -> Option<StateEvent> {
    match state_index(state, event_type, state_key, 0) {
        Some(i) => Some(state[i]),
        None => None,
    }
}

/// A user's membership in a state (`leave` if absent).
pub open spec fn membership(state: Seq<StateEvent>, user: Seq<char>) -> Seq<char> {
    match state_entry(state, "m.room.member"@, user) {
        Some(e) => match e.event {
            Some(j) => match as_text(field2(j@, "content"@, "membership"@)) {
                Some(m) => m,
                None => "leave"@,
            },
            None => "leave"@,
        },
        None => "leave"@,
    }
}

/// The event for a kind with an empty state key, unless it was rejected.
pub open spec fn served_state(state: Seq<StateEvent>, event_type: Seq<char>) -> Option<JsonV> {
    match state_entry(state, event_type, Seq::empty()) {
        Some(e) => match e.event {
            Some(j) => if e.rejected {
                None
            } else {
                Some(j@)
            },
            None => None,
        },
        None => None,
    }
}

/// The content of the event for a kind with an empty state key.
pub open spec fn state_content(state: Seq<StateEvent>, event_type: Seq<char>) -> Option<JsonV> {
    match served_state(state, event_type) {
        Some(j) => field(j, "content"@),
        None => None,
    }
}

/// The text in a field of such a content.
pub open spec fn state_text(
    state: Seq<StateEvent>,
    event_type: Seq<char>,
    key: Seq<char>,
) -> Option<Seq<char>> {
    match state_content(state, event_type) {
        Some(c) => as_text(field(c, key)),
        None => None,
    }
}

pub proof fn lemma_state_index(
    state: Seq<StateEvent>,
    event_type: Seq<char>,
    state_key: Seq<char>,
    from: int,
)
    requires
        0 <= from,
    ensures
        state_index(state, event_type, state_key, from) matches Some(i) ==> from <= i < state.len()
            && state[i].event_type@ == event_type && state[i].state_key@ == state_key,
    decreases state.len() - from,
{
    if from < state.len() && !(state[from].event_type@ == event_type && state[from].state_key@
        == state_key) {
        lemma_state_index(state, event_type, state_key, from + 1);
    }
}

/// Looking up a kind and key finds the entry that the state has for them, and
/// nothing where it has none.
pub proof fn law_state_is_looked_up(
    state: Seq<StateEvent>,
    event_type: Seq<char>,
    state_key: Seq<char>,
)
    ensures
        forall|i: int|
            0 <= i < state.len() && (#[trigger] state[i]).event_type@ == event_type
                && state[i].state_key@ == state_key && (forall|j: int|
                0 <= j < i ==> !((#[trigger] state[j]).event_type@ == event_type
                    && state[j].state_key@ == state_key)) ==> state_entry(
                state,
                event_type,
                state_key,
            ) == Some(state[i]),
        (forall|i: int|
            0 <= i < state.len() ==> !((#[trigger] state[i]).event_type@ == event_type
                && state[i].state_key@ == state_key)) ==> state_entry(state, event_type, state_key)
            is None,
{
    lemma_state_index_first(state, event_type, state_key, 0);
}

proof fn lemma_state_index_first(
    state: Seq<StateEvent>,
    event_type: Seq<char>,
    state_key: Seq<char>,
    from: int,
)
    requires
        0 <= from,
    ensures
        match state_index(state, event_type, state_key, from) {
            Some(k) => from <= k < state.len() && state[k].event_type@ == event_type
                && state[k].state_key@ == state_key && forall|j: int|
                from <= j < k ==> !((#[trigger] state[j]).event_type@ == event_type
                    && state[j].state_key@ == state_key),
            None => forall|j: int|
                from <= j < state.len() ==> !((#[trigger] state[j]).event_type@ == event_type
                    && state[j].state_key@ == state_key),
        },
    decreases state.len() - from,
{
    if from < state.len() && !(state[from].event_type@ == event_type && state[from].state_key@
        == state_key) {
        lemma_state_index_first(state, event_type, state_key, from + 1);
    }
}

/// A user's membership is what the member event that the state has for them says;
/// whoever has none, or one that says nothing, has left.
pub proof fn law_membership_is_as_stated(state: Seq<StateEvent>, user: Seq<char>)
    ensures
        match state_entry(state, "m.room.member"@, user) {
            Some(e) => {
                &&& e.event_type@ == "m.room.member"@
                &&& e.state_key@ == user
                &&& match e.event {
                    Some(j) => match field2(j@, "content"@, "membership"@) {
                        Some(JsonV::Str(m)) => membership(state, user) == m,
                        _ => membership(state, user) == "leave"@,
                    },
                    None => membership(state, user) == "leave"@,
                }
            },
            None => membership(state, user) == "leave"@,
        },
{
    lemma_state_index(state, "m.room.member"@, user, 0);
}

/// A room's state is served by what its events say: the content of the event for
/// a kind is that event's content, and a rejected event is as good as absent.
pub proof fn law_served_content_is_the_events(
    state: Seq<StateEvent>,
    event_type: Seq<char>,
    key: Seq<char>,
)
    ensures
        match state_entry(state, event_type, Seq::empty()) {
            Some(e) => if e.rejected || e.event is None {
                &&& served_state(state, event_type) is None
                &&& state_content(state, event_type) is None
                &&& state_text(state, event_type, key) is None
            } else {
                &&& served_state(state, event_type) == Some(e.event->0@)
                &&& state_content(state, event_type) == field(e.event->0@, "content"@)
                &&& match field2(e.event->0@, "content"@, key) {
                    Some(JsonV::Str(t)) => state_text(state, event_type, key) == Some(t),
                    _ => state_text(state, event_type, key) is None,
                }
            },
            None => {
                &&& served_state(state, event_type) is None
                &&& state_content(state, event_type) is None
                &&& state_text(state, event_type, key) is None
            },
        },
{
}

/// The state entry for a kind and key.
pub fn find_state<'a>(state: &'a Vec<StateEvent>, event_type: &str, state_key: &str) -> (r: Option<
    &'a StateEvent,
>)
    ensures
        r is Some <==> state_entry(state@, event_type@, state_key@) is Some,
        r matches Some(e) ==> state_entry(state@, event_type@, state_key@) == Some(*e),
{
    let mut i: usize = 0;
    while i < state.len()
        invariant
            i <= state.len(),
            state_index(state@, event_type@, state_key@, 0) == state_index(
                state@,
                event_type@,
                state_key@,
                i as int,
            ),
        decreases state.len() - i,
    {
        if same_text(state[i].event_type.as_str(), event_type) && same_text(
            state[i].state_key.as_str(),
            state_key,
        ) {
            return Some(&state[i]);
        }
        i += 1;
    }
    None
}

/// A user's membership in a state (`leave` if absent).
pub fn membership_in(state: &Vec<StateEvent>, user_id: &str) -> (r: String)
    ensures
        r@ == membership(state@, user_id@),
{
    match find_state(state, "m.room.member", user_id) {
        Some(e) => match &e.event {
            Some(j) => match j.get2("content", "membership") {
                Some(m) => match m.as_str() {
                    Some(s) => s.to_owned(),
                    None => "leave".to_owned(),
                },
                None => "leave".to_owned(),
            },
            None => "leave".to_owned(),
        },
        None => "leave".to_owned(),
    }
}

/// The event for a kind with an empty state key, unless it was rejected.
pub fn state_event_in<'a>(state: &'a Vec<StateEvent>, event_type: &str) -> (r: Option<&'a Json>)
    ensures
        r is Some <==> served_state(state@, event_type@) is Some,
        r matches Some(j) ==> served_state(state@, event_type@) == Some(j@),
{
    proof {
        reveal_strlit("");
        assert(""@ =~= Seq::empty());
    }
    match find_state(state, event_type, "") {
        Some(e) => match &e.event {
            Some(j) => if e.rejected {
                None
            } else {
                Some(j)
            },
            None => None,
        },
        None => None,
    }
}

/// Content of the `(event_type, "")` event in a state, if present.
pub fn state_content_in<'a>(state: &'a Vec<StateEvent>, event_type: &str) -> (r: Option<&'a Json>)
    ensures
        r is Some <==> state_content(state@, event_type@) is Some,
        r matches Some(j) ==> state_content(state@, event_type@) == Some(j@),
{
    match state_event_in(state, event_type) {
        Some(j) => j.get("content"),
        None => None,
    }
}

/// The text in a field of such a content.
pub fn state_text_in(state: &Vec<StateEvent>, event_type: &str, key: &str) -> (r: Option<String>)
    ensures
        opt_text(r) == state_text(state@, event_type@, key@),
{
    match state_content_in(state, event_type) {
        Some(c) => match c.get_str(key) {
            Some(s) => Some(s.to_owned()),
            None => None,
        },
        None => None,
    }
}

/// What a current or former member may read.
#[derive(Debug)]
pub enum MemberView {
    /// The room as it is.
    Current,
    /// The room frozen at the event with which the user left.
    FrozenAt { event_id: String },
}

/// What a user may read of a room: a member sees it as it is, a departed user
/// as it was at the moment they left.
pub open spec fn view_of(state: Seq<StateEvent>, user: Seq<char>) -> Result<
    Option<Seq<char>>,
    ApiErrorV,
> {
    let m = membership(state, user);
    if m == "join"@ {
        Ok(None)
    } else if m == "leave"@ || m == "ban"@ {
        match state_entry(state, "m.room.member"@, user) {
            Some(e) => if e.event is Some {
                Ok(Some(e.event_id@))
            } else {
                Err(forbidden("You are not in this room"@))
            },
            None => Err(forbidden("You are not in this room"@)),
        }
    } else {
        Err(forbidden("You are not joined to this room"@))
    }
}

/// Read access for a current or former member: the state snapshot the caller
/// is entitled to see.
pub fn member_view(state: &Vec<StateEvent>, user_id: &str) -> (r: Result<MemberView, ApiError>)
    ensures
        match view_of(state@, user_id@) {
            Ok(None) => r matches Ok(MemberView::Current),
            Ok(Some(id)) => r matches Ok(MemberView::FrozenAt { event_id }) && event_id@ == id,
            Err(e) => r matches Err(x) && x@ == e,
        },
{
    let m = membership_in(state, user_id);
    if same_text(m.as_str(), "join") {
        return Ok(MemberView::Current);
    }
    if same_text(m.as_str(), "leave") || same_text(m.as_str(), "ban") {
        return match find_state(state, "m.room.member", user_id) {
            Some(e) => if e.event.is_some() {
                Ok(MemberView::FrozenAt { event_id: e.event_id.as_str().to_owned() })
            } else {
                Err(ApiError::forbidden("You are not in this room"))
            },
            None => Err(ApiError::forbidden("You are not in this room")),
        };
    }
    Err(ApiError::forbidden("You are not joined to this room"))
}

/// 403 unless `user_id` is currently joined.
pub fn require_joined(state: &Vec<StateEvent>, user_id: &str) -> (r: Result<(), ApiError>)
    ensures
        membership(state@, user_id@) == "join"@ ==> r is Ok,
        membership(state@, user_id@) != "join"@ ==> (r matches Err(e) && e@ == forbidden(
            "You are not joined to this room"@,
        )),
{
    let m = membership_in(state, user_id);
    if same_text(m.as_str(), "join") {
        Ok(())
    } else {
        Err(ApiError::forbidden("You are not joined to this room"))
    }
}

/// The joined members of a state, in the state's order.
pub open spec fn joined_members(state: Seq<StateEvent>, n: int) -> Seq<Seq<char>>
    decreases n,
{
    if n <= 0 {
        Seq::empty()
    } else {
        let init = joined_members(state, n - 1);
        let e = state[n - 1];
        if e.event_type@ == "m.room.member"@ && membership(state, e.state_key@) == "join"@ {
            init.push(e.state_key@)
        } else {
            init
        }
    }
}

/// User IDs joined in a state.
pub fn joined_member_ids(state: &Vec<StateEvent>) -> (r: Vec<String>)
    ensures
        texts(r@) == joined_members(state@, state@.len() as int),
{
    let mut out: Vec<String> = Vec::new();
    let mut i: usize = 0;
    proof {
        assert(texts(out@) =~= Seq::<Seq<char>>::empty());
    }
    while i < state.len()
        invariant
            i <= state.len(),
            texts(out@) == joined_members(state@, i as int),
        decreases state.len() - i,
    {
        if same_text(state[i].event_type.as_str(), "m.room.member") {
            let m = membership_in(state, state[i].state_key.as_str());
            if same_text(m.as_str(), "join") {
                let s = state[i].state_key.as_str().to_owned();
                proof {
                    assert(texts(out@.push(s)) =~= texts(out@).push(s@));
                }
                out.push(s);
            }
        }
        i += 1;
    }
    out
}

/// Everyone listed as joined is joined.
pub proof fn law_joined_members_are_joined(state: Seq<StateEvent>, n: int)
    ensures
        forall|i: int|
            0 <= i < joined_members(state, n).len() ==> membership(
                state,
                #[trigger] joined_members(state, n)[i],
            ) == "join"@,
    decreases n,
{
    if n > 0 {
        law_joined_members_are_joined(state, n - 1);
        let init = joined_members(state, n - 1);
        let all = joined_members(state, n);
        assert forall|i: int| 0 <= i < all.len() implies membership(state, #[trigger] all[i])
            == "join"@ by {
            if i < init.len() {
                assert(all[i] == init[i]);
            }
        }
    }
}

/// Everyone who is joined is listed, and listed users have a member event.
pub proof fn law_every_joined_member_is_listed(state: Seq<StateEvent>, i: int)
    requires
        0 <= i < state.len(),
    ensures
        (state[i].event_type@ == "m.room.member"@ && membership(state, state[i].state_key@)
            == "join"@) ==> joined_members(state, state.len() as int).contains(state[i].state_key@),
        forall|u: Seq<char>| #[trigger]
            joined_members(state, state.len() as int).contains(u) ==> exists|k: int|
                0 <= k < state.len() && (#[trigger] state[k]).event_type@ == "m.room.member"@
                    && state[k].state_key@ == u,
{
    lemma_joined_members(state, state.len() as int);
}

proof fn lemma_joined_members(state: Seq<StateEvent>, n: int)
    requires
        n <= state.len(),
    ensures
        forall|i: int|
            0 <= i < n && (#[trigger] state[i]).event_type@ == "m.room.member"@ && membership(
                state,
                state[i].state_key@,
            ) == "join"@ ==> joined_members(state, n).contains(state[i].state_key@),
        forall|u: Seq<char>| #[trigger]
            joined_members(state, n).contains(u) ==> exists|k: int|
                0 <= k < n && (#[trigger] state[k]).event_type@ == "m.room.member"@
                    && state[k].state_key@ == u,
    decreases n,
{
    if n > 0 {
        lemma_joined_members(state, n - 1);
        let init = joined_members(state, n - 1);
        let all = joined_members(state, n);
        let e = state[n - 1];
        if e.event_type@ == "m.room.member"@ && membership(state, e.state_key@) == "join"@ {
            assert(all == init.push(e.state_key@));
            assert(all[init.len() as int] == e.state_key@);
            assert forall|x: Seq<char>| init.contains(x) implies all.contains(x) by {
                let k = choose|k: int| 0 <= k < init.len() && init[k] == x;
                assert(all[k] == x);
            }
            assert forall|u: Seq<char>| #[trigger] all.contains(u) implies exists|k: int|
                0 <= k < n && (#[trigger] state[k]).event_type@ == "m.room.member"@
                    && state[k].state_key@ == u by {
                let k = choose|k: int| 0 <= k < all.len() && all[k] == u;
                if k < init.len() {
                    assert(init[k] == u);
                    assert(init.contains(u));
                    let w = choose|w: int|
                        0 <= w < n - 1 && (#[trigger] state[w]).event_type@ == "m.room.member"@
                            && state[w].state_key@ == u;
                    assert(state[w].state_key@ == u);
                } else {
                    assert(state[n - 1].state_key@ == u);
                }
            }
        }
    }
}

/// Who reads a room reads it as they stand in it: a joined user as it is, one who
/// left or was banned as it was at the member event with which they went, and
/// nobody else at all.
pub proof fn law_readers_see_their_time(state: Seq<StateEvent>, user: Seq<char>)
    ensures
        view_of(state, user) == Ok::<Option<Seq<char>>, ApiErrorV>(None) <==> membership(
            state,
            user,
        ) == "join"@,
        view_of(state, user) matches Ok(Some(id)) ==> {
            &&& membership(state, user) == "leave"@ || membership(state, user) == "ban"@
            &&& state_entry(state, "m.room.member"@, user) matches Some(e) && e.event_id@ == id
        },
        (membership(state, user) == "leave"@ || membership(state, user) == "ban"@) && (state_entry(
            state,
            "m.room.member"@,
            user,
        ) matches Some(e) && e.event is Some) ==> view_of(state, user) matches Ok(Some(_)),
        view_of(state, user) matches Err(e) ==> e.status == 403,
        membership(state, user) == "invite"@ || membership(state, user) == "knock"@ ==> view_of(
            state,
            user,
        ) is Err,
{
    reveal_strlit("join");
    reveal_strlit("leave");
    reveal_strlit("ban");
    reveal_strlit("invite");
    reveal_strlit("knock");
    assert("join"@.len() == 4 && "leave"@.len() == 5 && "ban"@.len() == 3 && "invite"@.len() == 6);
    assert("knock"@[0] == 'k' && "leave"@[0] == 'l' && "knock"@.len() == 5);
}

/// The stored facts of an event that decide who may see it.
#[derive(Clone, Copy, Debug, PartialEq, Eq, Structural)]
pub struct StoredFacts {
    pub rejected: bool,
    /// The state group behind the event; 0 where there is none.
    pub state_group_after: u64,
}

/// The history visibility in a state (`shared` if absent).
pub open spec fn visibility(state: Seq<StateEvent>) -> Seq<char> {
    match state_text(state, "m.room.history_visibility"@, "history_visibility"@) {
        Some(v) => v,
        None => "shared"@,
    }
}

/// May a user see an event, given the state at the event and their membership
/// now?
pub open spec fn can_see(
    stored: Option<StoredFacts>,
    state_at: Seq<StateEvent>,
    current: Seq<StateEvent>,
    user: Seq<char>,
) -> bool {
    match stored {
        Some(s) => if s.rejected || s.state_group_after == 0 {
            false
        } else {
            let at = membership(state_at, user);
            let v = visibility(state_at);
            ||| at == "join"@
            ||| v == "world_readable"@
            ||| v == "shared"@ && membership(current, user) == "join"@
            ||| v == "invited"@ && at == "invite"@
        },
        None => false,
    }
}

/// History-visibility check: may `user_id` see this event? Uses the state *at
/// the event*; `shared` additionally admits anyone who is a member now.
pub fn user_can_see_event(
    stored: Option<StoredFacts>,
    state_at: &Vec<StateEvent>,
    current: &Vec<StateEvent>,
    user_id: &str,
) -> (r: bool)
    ensures
        r == can_see(stored, state_at@, current@, user_id@),
{
    let s = match stored {
        Some(s) => s,
        None => {
            return false;
        },
    };
    if s.rejected || s.state_group_after == 0 {
        return false;
    }
    let at = membership_in(state_at, user_id);
    if same_text(at.as_str(), "join") {
        return true;
    }
    proof {
        reveal_strlit("world_readable");
        reveal_strlit("shared");
        reveal_strlit("invited");
        assert("world_readable"@.len() == 14 && "shared"@.len() == 6 && "invited"@.len() == 7);
    }
    let v = match state_text_in(state_at, "m.room.history_visibility", "history_visibility") {
        Some(v) => v,
        None => "shared".to_owned(),
    };
    if same_text(v.as_str(), "world_readable") {
        return true;
    }
    if same_text(v.as_str(), "shared") {
        let now = membership_in(current, user_id);
        return same_text(now.as_str(), "join");
    }
    if same_text(v.as_str(), "invited") {
        return same_text(at.as_str(), "invite");
    }
    false
}

/// A user who is no member, neither at the event nor now, sees it only where
/// history is world-readable, or where they were invited at the event and
/// history is open to invited users.
pub proof fn law_outsiders_see_only_open_history(
    stored: Option<StoredFacts>,
    state_at: Seq<StateEvent>,
    current: Seq<StateEvent>,
    user: Seq<char>,
)
    requires
        can_see(stored, state_at, current, user),
        membership(state_at, user) != "join"@,
        membership(current, user) != "join"@,
    ensures
        visibility(state_at) == "world_readable"@ || (visibility(state_at) == "invited"@
            && membership(state_at, user) == "invite"@),
{
}

/// Whoever was joined at an accepted event sees it, whatever the visibility of
/// the room's history.
pub proof fn law_members_see_what_they_were_there_for(
    stored: StoredFacts,
    state_at: Seq<StateEvent>,
    current: Seq<StateEvent>,
    user: Seq<char>,
)
    requires
        !stored.rejected,
        stored.state_group_after != 0,
        membership(state_at, user) == "join"@,
    ensures
        can_see(Some(stored), state_at, current, user),
{
}

/// The visibility at an accepted event decides for whoever was not joined at it:
/// `world_readable` shows it to anyone, `shared` to whoever is joined now,
/// `invited` to whoever was invited then, and any other to nobody.
pub proof fn law_visibility_decides_for_others(
    stored: StoredFacts,
    state_at: Seq<StateEvent>,
    current: Seq<StateEvent>,
    user: Seq<char>,
)
    requires
        !stored.rejected,
        stored.state_group_after != 0,
        membership(state_at, user) != "join"@,
    ensures
        visibility(state_at) == "world_readable"@ ==> can_see(
            Some(stored),
            state_at,
            current,
            user,
        ),
        visibility(state_at) == "shared"@ ==> (can_see(Some(stored), state_at, current, user)
            <==> membership(current, user) == "join"@),
        visibility(state_at) == "invited"@ ==> (can_see(Some(stored), state_at, current, user)
            <==> membership(state_at, user) == "invite"@),
        visibility(state_at) != "world_readable"@ && visibility(state_at) != "shared"@
            && visibility(state_at) != "invited"@ ==> !can_see(
            Some(stored),
            state_at,
            current,
            user,
        ),
{
    reveal_strlit("world_readable");
    reveal_strlit("shared");
    reveal_strlit("invited");
    assert("world_readable"@.len() == 14 && "shared"@.len() == 6 && "invited"@.len() == 7);
}

/// A room's history is as visible as its visibility event says, and `shared` where
/// it has none.
pub proof fn law_visibility_is_as_stated(state: Seq<StateEvent>)
    ensures
        match state_entry(state, "m.room.history_visibility"@, Seq::empty()) {
            Some(e) => if e.event is Some && !e.rejected {
                match field2(e.event->0@, "content"@, "history_visibility"@) {
                    Some(JsonV::Str(v)) => visibility(state) == v,
                    _ => visibility(state) == "shared"@,
                }
            } else {
                visibility(state) == "shared"@
            },
            None => visibility(state) == "shared"@,
        },
{
}

/// What was rejected, or is not stored with its state, nobody sees.
pub proof fn law_rejected_events_are_hidden(
    stored: Option<StoredFacts>,
    state_at: Seq<StateEvent>,
    current: Seq<StateEvent>,
    user: Seq<char>,
)
    requires
        stored matches Some(s) ==> s.rejected || s.state_group_after == 0,
    ensures
        !can_see(stored, state_at, current, user),
{
}

// -- event shapes -------------------------------------------------------------

/// The fields of an object that have one of the names.
pub open spec fn picked(m: Map<Seq<char>, JsonV>, keys: Seq<Seq<char>>) -> Map<Seq<char>, JsonV> {
    Map::new(|k: Seq<char>| m.dom().contains(k) && keys.contains(k), |k: Seq<char>| m[k])
}

/// Copies the fields that have one of the names.
pub fn pick(fields: &Vec<(String, Json)>, keys: &Vec<String>) -> (r: Vec<(String, Json)>)
    ensures
        fields_view(r@) == picked(fields_view(fields@), texts(keys@)),
{
    let mut out: Vec<(String, Json)> = Vec::new();
    let ghost m = fields_view(fields@);
    let ghost names = texts(keys@);
    let mut i: usize = 0;
    proof {
        assert(fields_view(out@) =~= picked(m, names.take(0)));
    }
    while i < keys.len()
        invariant
            i <= keys.len(),
            m == fields_view(fields@),
            names == texts(keys@),
            fields_view(out@) == picked(m, names.take(i as int)),
        decreases keys.len() - i,
    {
        let key = keys[i].as_str();
        let ghost before = names.take(i as int);
        let ghost after = names.take(i + 1);
        proof {
            assert(after =~= before.push(key@));
            assert forall|k: Seq<char>| after.contains(k) <==> before.contains(k) || k == key@ by {
                if before.contains(k) {
                    let j = choose|j: int| 0 <= j < before.len() && before[j] == k;
                    assert(after[j] == k);
                }
                assert(after[i as int] == key@);
            }
        }
        match get(fields, key) {
            Some(v) => {
                let v = v.copy();
                put_str(&mut out, key, v);
                proof {
                    assert(fields_view(out@) =~= picked(m, after));
                }
            },
            None => {
                proof {
                    assert(picked(m, before) =~= picked(m, after));
                }
            },
        }
        i += 1;
    }
    proof {
        assert(names.take(names.len() as int) =~= names);
    }
    out
}

/// The fields of an event that every client sees.
pub open spec fn client_keys() -> Seq<Seq<char>> {
    seq![
        "content"@,
        "origin_server_ts"@,
        "sender"@,
        "state_key"@,
        "type"@,
        "unsigned"@,
    ]
}

/// An event in the client event format. Some create events carry no room ID on
/// the wire; the client format always has one.
pub open spec fn client_format(
    raw: Map<Seq<char>, JsonV>,
    room_id: Seq<char>,
    event_id: Seq<char>,
) -> Map<Seq<char>, JsonV> {
    picked(raw, client_keys()).insert("room_id"@, JsonV::Str(room_id)).insert(
        "event_id"@,
        JsonV::Str(event_id),
    )
}

/// An event in the client event format.
pub fn to_client_format(raw: &Vec<(String, Json)>, room_id: &str, event_id: &str) -> (r: Vec<
    (String, Json),
>)
    ensures
        fields_view(r@) == client_format(fields_view(raw@), room_id@, event_id@),
{
    let mut keys: Vec<String> = Vec::new();
    keys.push("content".to_owned());
    keys.push("origin_server_ts".to_owned());
    keys.push("sender".to_owned());
    keys.push("state_key".to_owned());
    keys.push("type".to_owned());
    keys.push("unsigned".to_owned());
    proof {
        assert(texts(keys@) =~= client_keys());
    }
    let mut out = pick(raw, &keys);
    put_str(&mut out, "room_id", text_json(room_id));
    put_str(&mut out, "event_id", text_json(event_id));
    out
}

/// The state that a state event replaced.
#[derive(Debug)]
pub struct PrevState {
    pub content: Json,
    pub sender: String,
}

/// What the server adds to an event's `unsigned`.
pub open spec fn annotated(
    unsigned: Map<Seq<char>, JsonV>,
    membership: Seq<char>,
    prev: Option<(JsonV, Seq<char>)>,
) -> Map<Seq<char>, JsonV> {
    let u = unsigned.insert("membership"@, JsonV::Str(membership));
    match prev {
        Some((content, sender)) => u.insert("prev_content"@, content).insert(
            "prev_sender"@,
            JsonV::Str(sender),
        ),
        None => u,
    }
}

pub open spec fn prev_view(p: Option<PrevState>) -> Option<(JsonV, Seq<char>)> {
    match p {
        Some(p) => Some((p.content@, p.sender@)),
        None => None,
    }
}

/// An event as a user sees it: with their membership at the event, and for a
/// state event what it replaced.
pub open spec fn event_for(
    raw: Map<Seq<char>, JsonV>,
    room_id: Seq<char>,
    event_id: Seq<char>,
    membership_at: Option<Seq<char>>,
    prev: Option<(JsonV, Seq<char>)>,
) -> Map<Seq<char>, JsonV> {
    let ev = client_format(raw, room_id, event_id);
    match membership_at {
        Some(m) => {
            let shown = if raw.dom().contains("state_key"@) {
                prev
            } else {
                None
            };
            match entry(ev, "unsigned"@) {
                None => ev.insert("unsigned"@, JsonV::Object(annotated(no_fields(), m, shown))),
                Some(JsonV::Object(u)) => ev.insert(
                    "unsigned"@,
                    JsonV::Object(annotated(u, m, shown)),
                ),
                Some(_) => ev,
            }
        },
        None => ev,
    }
}

/// An event in the client event format. `membership_at` is the requesting
/// user's membership in the state at the event, where that state is known; it
/// is annotated as `unsigned.membership`. For a state event, `prev_content`
/// and `prev_sender` describe the state it replaced.
pub fn client_event(
    raw: &Vec<(String, Json)>,
    room_id: &str,
    event_id: &str,
    membership_at: Option<String>,
    prev: Option<PrevState>,
) -> (r: Vec<(String, Json)>)
    ensures
        fields_view(r@) == event_for(
            fields_view(raw@),
            room_id@,
            event_id@,
            opt_text(membership_at),
            prev_view(prev),
        ),
{
    let mut ev = to_client_format(raw, room_id, event_id);
    let m = match membership_at {
        Some(m) => m,
        None => {
            return ev;
        },
    };
    let prev = if get(raw, "state_key").is_some() {
        prev
    } else {
        None
    };
    let unsigned: Option<Vec<(String, Json)>> = match get(&ev, "unsigned") {
        None => Some(Vec::new()),
        Some(u) => match u.as_object() {
            Some(u) => Some(crate::json::copy_fields(u)),
            None => None,
        },
    };
    match unsigned {
        Some(u) => {
            let mut u = u;
            put_str(&mut u, "membership", Json::Str(m));
            match prev {
                Some(p) => {
                    put_str(&mut u, "prev_content", p.content);
                    put_str(&mut u, "prev_sender", Json::Str(p.sender));
                },
                None => {},
            }
            put_str(&mut ev, "unsigned", Json::Object(u));
        },
        None => {},
    }
    ev
}

/// The fields of stripped state. The create event is served in full: invited
/// users need it to verify the room.
pub open spec fn stripped_keys(is_create: bool) -> Seq<Seq<char>> {
    if is_create {
        seq![
            "content"@,
            "sender"@,
            "state_key"@,
            "type"@,
            "origin_server_ts"@,
            "auth_events"@,
            "depth"@,
            "hashes"@,
            "prev_events"@,
            "signatures"@,
        ]
    } else {
        seq!["content"@, "sender"@, "state_key"@, "type"@]
    }
}

/// The stripped form of an event.
pub open spec fn stripped(raw: Map<Seq<char>, JsonV>) -> Map<Seq<char>, JsonV> {
    picked(raw, stripped_keys(entry(raw, "type"@) == Some(JsonV::Str("m.room.create"@))))
}

/// The stripped state format of invites: `content`, `sender`, `state_key`,
/// `type`; the create event keeps more.
pub fn stripped_event(raw: &Vec<(String, Json)>) -> (r: Vec<(String, Json)>)
    ensures
        fields_view(r@) == stripped(fields_view(raw@)),
{
    let is_create = match get(raw, "type") {
        Some(t) => match t.as_str() {
            Some(s) => same_text(s, "m.room.create"),
            None => false,
        },
        None => false,
    };
    let mut keys: Vec<String> = Vec::new();
    keys.push("content".to_owned());
    keys.push("sender".to_owned());
    keys.push("state_key".to_owned());
    keys.push("type".to_owned());
    if is_create {
        keys.push("origin_server_ts".to_owned());
        keys.push("auth_events".to_owned());
        keys.push("depth".to_owned());
        keys.push("hashes".to_owned());
        keys.push("prev_events".to_owned());
        keys.push("signatures".to_owned());
    }
    proof {
        assert(texts(keys@) =~= stripped_keys(is_create));
    }
    pick(raw, &keys)
}

/// A client sees an event as it was sent: its type, sender, content, state key and
/// time are those of the event, room and event ID are those asked for, and nothing
/// of the event's wiring shows.
pub proof fn law_clients_see_the_event(
    raw: Map<Seq<char>, JsonV>,
    room_id: Seq<char>,
    event_id: Seq<char>,
    membership_at: Option<Seq<char>>,
    prev: Option<(JsonV, Seq<char>)>,
)
    ensures
        ({
            let ev = event_for(raw, room_id, event_id, membership_at, prev);
            &&& entry(ev, "type"@) == entry(raw, "type"@)
            &&& entry(ev, "sender"@) == entry(raw, "sender"@)
            &&& entry(ev, "content"@) == entry(raw, "content"@)
            &&& entry(ev, "state_key"@) == entry(raw, "state_key"@)
            &&& entry(ev, "origin_server_ts"@) == entry(raw, "origin_server_ts"@)
            &&& entry(ev, "room_id"@) == Some(JsonV::Str(room_id))
            &&& entry(ev, "event_id"@) == Some(JsonV::Str(event_id))
            &&& entry(ev, "auth_events"@) is None
            &&& entry(ev, "prev_events"@) is None
            &&& entry(ev, "depth"@) is None
            &&& entry(ev, "hashes"@) is None
            &&& entry(ev, "signatures"@) is None
        }),
{
    lemma_client_names();
    let keys = client_keys();
    assert(keys[0] == "content"@ && keys[1] == "origin_server_ts"@ && keys[2] == "sender"@
        && keys[3] == "state_key"@ && keys[4] == "type"@ && keys[5] == "unsigned"@);
    assert(keys.contains("content"@) && keys.contains("origin_server_ts"@) && keys.contains(
        "sender"@,
    ) && keys.contains("state_key"@) && keys.contains("type"@));
}

/// A reader is told their membership at the event, and of a state event what it
/// replaced; of any other event nothing is said to be replaced.
pub proof fn law_readers_are_told_their_membership(
    raw: Map<Seq<char>, JsonV>,
    room_id: Seq<char>,
    event_id: Seq<char>,
    m: Seq<char>,
    prev: Option<(JsonV, Seq<char>)>,
)
    requires
        entry(raw, "unsigned"@) is None,
    ensures
        ({
            let ev = JsonV::Object(event_for(raw, room_id, event_id, Some(m), prev));
            let told = raw.dom().contains("state_key"@) && prev is Some;
            &&& field2(ev, "unsigned"@, "membership"@) == Some(JsonV::Str(m))
            &&& field2(ev, "unsigned"@, "prev_content"@) == (if told {
                Some((prev->0).0)
            } else {
                None
            })
            &&& field2(ev, "unsigned"@, "prev_sender"@) == (if told {
                Some(JsonV::Str((prev->0).1))
            } else {
                None
            })
        }),
{
    lemma_client_names();
    reveal_strlit("membership");
    reveal_strlit("prev_content");
    reveal_strlit("prev_sender");
    assert("membership"@.len() == 10 && "prev_content"@.len() == 12 && "prev_sender"@.len() == 11);
}

/// Stripped state says what an event is, and no more than that: its type, key,
/// sender and content as they are, and of anything but a create event nothing else.
pub proof fn law_stripped_state_says_what_it_is(raw: Map<Seq<char>, JsonV>, k: Seq<char>)
    ensures
        entry(stripped(raw), "type"@) == entry(raw, "type"@),
        entry(stripped(raw), "sender"@) == entry(raw, "sender"@),
        entry(stripped(raw), "content"@) == entry(raw, "content"@),
        entry(stripped(raw), "state_key"@) == entry(raw, "state_key"@),
        entry(raw, "type"@) != Some(JsonV::Str("m.room.create"@)) && k != "type"@ && k != "sender"@
            && k != "content"@ && k != "state_key"@ ==> entry(stripped(raw), k) is None,
{
    let keys = stripped_keys(entry(raw, "type"@) == Some(JsonV::Str("m.room.create"@)));
    assert(keys[0] == "content"@ && keys[1] == "sender"@ && keys[2] == "state_key"@ && keys[3]
        == "type"@);
    assert(keys.contains("content"@) && keys.contains("sender"@) && keys.contains("state_key"@)
        && keys.contains("type"@));
}

/// The names of fields differ.
proof fn lemma_client_names()
    ensures
        "type"@ != "room_id"@,
        "sender"@ != "room_id"@,
        "content"@ != "room_id"@,
        "state_key"@ != "room_id"@,
        "origin_server_ts"@ != "room_id"@,
        "auth_events"@ != "room_id"@,
        "prev_events"@ != "room_id"@,
        "depth"@ != "room_id"@,
        "hashes"@ != "room_id"@,
        "signatures"@ != "room_id"@,
        "type"@ != "event_id"@,
        "sender"@ != "event_id"@,
        "content"@ != "event_id"@,
        "state_key"@ != "event_id"@,
        "origin_server_ts"@ != "event_id"@,
        "auth_events"@ != "event_id"@,
        "prev_events"@ != "event_id"@,
        "depth"@ != "event_id"@,
        "hashes"@ != "event_id"@,
        "signatures"@ != "event_id"@,
        "type"@ != "unsigned"@,
        "sender"@ != "unsigned"@,
        "content"@ != "unsigned"@,
        "state_key"@ != "unsigned"@,
        "origin_server_ts"@ != "unsigned"@,
        "auth_events"@ != "unsigned"@,
        "prev_events"@ != "unsigned"@,
        "depth"@ != "unsigned"@,
        "hashes"@ != "unsigned"@,
        "signatures"@ != "unsigned"@,
        "room_id"@ != "event_id"@,
        "room_id"@ != "unsigned"@,
        "event_id"@ != "unsigned"@,
        !client_keys().contains("auth_events"@),
        !client_keys().contains("prev_events"@),
        !client_keys().contains("depth"@),
        !client_keys().contains("hashes"@),
        !client_keys().contains("signatures"@),
{
    reveal_strlit("type");
    reveal_strlit("sender");
    reveal_strlit("content");
    reveal_strlit("state_key");
    reveal_strlit("origin_server_ts");
    reveal_strlit("room_id");
    reveal_strlit("event_id");
    reveal_strlit("unsigned");
    reveal_strlit("auth_events");
    reveal_strlit("prev_events");
    reveal_strlit("depth");
    reveal_strlit("hashes");
    reveal_strlit("signatures");
    assert("type"@.len() == 4 && "sender"@.len() == 6 && "content"@.len() == 7 && "state_key"@.len()
        == 9 && "origin_server_ts"@.len() == 16 && "room_id"@.len() == 7 && "event_id"@.len() == 8
        && "unsigned"@.len() == 8 && "auth_events"@.len() == 11 && "prev_events"@.len() == 11
        && "depth"@.len() == 5 && "hashes"@.len() == 6 && "signatures"@.len() == 10);
    assert("content"@[0] == 'c' && "room_id"@[0] == 'r' && "event_id"@[0] == 'e' && "unsigned"@[0]
        == 'u' && "auth_events"@[0] == 'a' && "prev_events"@[0] == 'p' && "sender"@[0] == 's'
        && "hashes"@[0] == 'h');
}

/// What the room pipeline made of an event.
#[derive(Debug)]
pub enum Outcome {
    Accepted { event_id: String, seq: u64 },
    Rejected { reason: String },
    Duplicate { event_id: String },
}

/// Map a pipeline outcome to the client response, turning rejections into
/// 403s.
pub fn accepted_event_id(outcome: Outcome) -> (r: Result<(String, u64), ApiError>)
    ensures
        match outcome {
            Outcome::Accepted { event_id, seq } => r matches Ok(p) && p.0@ == event_id@ && p.1
                == seq,
            Outcome::Rejected { reason } => r matches Err(e) && e@ == forbidden(reason@),
            Outcome::Duplicate { event_id } => r matches Ok(p) && p.0@ == event_id@ && p.1 == 0,
        },
{
    match outcome {
        Outcome::Accepted { event_id, seq } => Ok((event_id, seq)),
        Outcome::Rejected { reason } => Err(ApiError::forbidden(reason.as_str())),
        Outcome::Duplicate { event_id } => Ok((event_id, 0)),
    }
}

/// The room that a state's create event declares to replace.
pub open spec fn predecessor(state: Seq<StateEvent>) -> Option<Seq<char>> {
    match state_content(state, "m.room.create"@) {
        Some(c) => as_text(field2(c, "predecessor"@, "room_id"@)),
        None => None,
    }
}

/// The predecessor room declared by a state's create event, if any.
pub fn predecessor_of(state: &Vec<StateEvent>) -> (r: Option<String>)
    ensures
        opt_text(r) == predecessor(state@),
{
    match state_content_in(state, "m.room.create") {
        Some(c) => match c.get2("predecessor", "room_id") {
            Some(j) => match j.as_str() {
                Some(s) => Some(s.to_owned()),
                None => None,
            },
            None => None,
        },
        None => None,
    }
}

/// An event that was accepted, or sent before, is answered with its ID; one
/// that was rejected with 403 and why.
pub proof fn law_accepted_events_have_ids(
    o: Outcome,
    r: Result<(String, u64), ApiError>,
)
    requires
        call_ensures(accepted_event_id, (o,), r),
    ensures
        o matches Outcome::Accepted { event_id, seq } ==> (r matches Ok(p) && p.0@ == event_id@
            && p.1 == seq),
        o matches Outcome::Duplicate { event_id } ==> (r matches Ok(p) && p.0@ == event_id@),
        o matches Outcome::Rejected { reason } ==> (r matches Err(e) && e@.status == 403
            && e@.message == reason@),
{
}

/// Who had joined when an event was sent sees it, whatever the visibility of
/// history is; and nobody sees an event that was rejected or that is not
/// stored.
pub proof fn law_whoever_was_there_sees_it(
    stored: Option<StoredFacts>,
    state_at: &Vec<StateEvent>,
    current: &Vec<StateEvent>,
    user_id: &str,
    r: bool,
)
    requires
        call_ensures(user_can_see_event, (stored, state_at, current, user_id), r),
    ensures
        (stored matches Some(s) && !s.rejected && s.state_group_after != 0)
            && membership(state_at@, user_id@) == "join"@ ==> r,
        stored is None ==> !r,
        stored matches Some(s) ==> (s.rejected ==> !r),
{
}

} // verus!

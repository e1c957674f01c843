//! Event relationships: the events that relate to an event, and the threads of
//! a room. Both scan the visible timeline of the room, oldest event first.
use crate::decimal::{decimal, parse_usize, read_number, show_u64};
use crate::error::{forbidden, invalid_param, outcome, ApiError, ApiErrorV};
use crate::json::{
    as_text, copy_fields, entry, field, field2, fields_view, get, items_view, no_fields, one_field,
        put_str,
    Json, JsonV,
};
use crate::routes::rooms::reads::{clamp_int, parse_pagination_bound, read_topo, PaginationBound};
use crate::text::{opt_text, query_get, query_value, quote, quoted, same_text};
use vstd::prelude::*;
use vstd::string::StringExecFns;

verus! {

/// An event of the timeline that the caller may see.
#[derive(Debug)]
pub struct TimelineEvent {
    pub seq: u64,
    pub event: Json,
}

/// A room that is not there is answered like one the caller is not in.
pub fn hide_unknown_room(e: ApiError) -> (r: ApiError)
    ensures
        r@ == (if e@.status == 404 {
            forbidden("You aren't a member of the room"@)
        } else {
            e@
        }),
{
    if e.status == 404 {
        ApiError::forbidden("You aren't a member of the room")
    } else {
        e
    }
}

/// The event that an event relates to, and the type of the relation.
pub open spec fn relation(ev: JsonV) -> Option<(Seq<char>, Option<Seq<char>>)> {
    match field(ev, "content"@) {
        Some(content) => match field(content, "m.relates_to"@) {
            Some(rel) => match as_text(field(rel, "event_id"@)) {
                Some(id) => Some((id, as_text(field(rel, "rel_type"@)))),
                None => None,
            },
            None => None,
        },
        None => None,
    }
}

/// The event that an event relates to, and the type of the relation.
pub fn relates_to<'a>(ev: &'a Json) -> (r: Option<(&'a str, Option<&'a str>)>)
    ensures
        match relation(ev@) {
            Some((id, rel_type)) => r matches Some(p) && p.0@ == id && (match p.1 {
                Some(t) => rel_type == Some(t@),
                None => rel_type is None,
            }),
            None => r is None,
        },
{
    match ev.get2("content", "m.relates_to") {
        Some(rel) => match rel.get_str("event_id") {
            Some(id) => Some((id, rel.get_str("rel_type"))),
            None => None,
        },
        None => None,
    }
}

// -- the events that relate to an event ---------------------------------------

/// What a request for relations asks for.
#[derive(Clone, Copy, Debug, PartialEq, Eq, Structural)]
pub struct RelationsQuery {
    pub limit: usize,
    pub backward: bool,
    pub from: Option<PaginationBound>,
}

pub open spec fn relations_query(q: Seq<(String, String)>) -> Result<RelationsQuery, ApiErrorV> {
    let limit: Option<int> = match query_value(q, "limit"@) {
        Some(l) => match read_number(l, usize::MAX as nat) {
            Some(n) => Some(clamp_int(n as int, 1, 100)),
            None => None,
        },
        None => Some(10int),
    };
    match limit {
        None => Err(invalid_param("limit: not an integer"@)),
        Some(limit) => {
            let dir = query_value(q, "dir"@);
            if dir is None || dir == Some("b"@) || dir == Some("f"@) {
                let backward = dir != Some("f"@);
                match query_value(q, "from"@) {
                    Some(t) => match read_topo(t) {
                        Ok(b) => Ok(
                            RelationsQuery { limit: limit as usize, backward, from: Some(b) },
                        ),
                        Err(e) => Err(e),
                    },
                    None => Ok(RelationsQuery { limit: limit as usize, backward, from: None }),
                }
            } else {
                Err(invalid_param("dir: unknown value "@ + quoted(dir->0)))
            }
        },
    }
}

/// Reads a request for relations. `from` takes this endpoint's own tokens and
/// sync tokens alike.
pub fn parse_relations_query(q: &Vec<(String, String)>) -> (r: Result<RelationsQuery, ApiError>)
    ensures
        outcome(r) == relations_query(q@),
{
    proof {
        reveal_strlit("b");
        reveal_strlit("f");
        assert("b"@[0] != "f"@[0]);
    }
    let limit: usize = match query_get(q, "limit") {
        Some(l) => match parse_usize(l.as_str()) {
            Some(n) => if n < 1 {
                1
            } else if n > 100 {
                100
            } else {
                n
            },
            None => {
                return Err(ApiError::invalid_param("limit: not an integer"));
            },
        },
        None => 10,
    };
    let backward = match query_get(q, "dir") {
        None => true,
        Some(d) => if same_text(d.as_str(), "b") {
            true
        } else if same_text(d.as_str(), "f") {
            false
        } else {
            let mut message = "dir: unknown value ".to_owned();
            message.append(quote(d.as_str()).as_str());
            return Err(ApiError::invalid_param(message.as_str()));
        },
    };
    let from = match query_get(q, "from") {
        Some(t) => match parse_pagination_bound(t.as_str()) {
            Ok(b) => Some(b),
            Err(e) => {
                return Err(e);
            },
        },
        None => None,
    };
    Ok(RelationsQuery { limit, backward, from })
}

/// Does an event at `seq` lie on the asked side of the token?
pub open spec fn in_range(q: RelationsQuery, seq: u64) -> bool {
    match q.from {
        Some(b) => if q.backward {
            seq <= b.upper_spec()
        } else {
            seq > b.seq
        },
        None => true,
    }
}

/// Does a text filter let a value through? One that is not given lets all
/// through.
pub open spec fn filter_allows(want: Option<Seq<char>>, have: Option<Seq<char>>) -> bool {
    want is Some ==> have == want
}

/// Does an event stand among the relations that are asked for?
pub open spec fn is_related(
    q: RelationsQuery,
    target: Seq<char>,
    rel_type: Option<Seq<char>>,
    event_type: Option<Seq<char>>,
    e: TimelineEvent,
) -> bool {
    in_range(q, e.seq) && (relation(e.event@) matches Some((id, rt)) && id == target
        && filter_allows(rel_type, rt) && filter_allows(
        event_type,
        as_text(field(e.event@, "type"@)),
    ))
}

/// The places of the related events among the first `n`, oldest first.
pub open spec fn related_among(
    q: RelationsQuery,
    target: Seq<char>,
    rel_type: Option<Seq<char>>,
    event_type: Option<Seq<char>>,
    events: Seq<TimelineEvent>,
    n: int,
) -> Seq<int>
    decreases n,
{
    if n <= 0 {
        Seq::empty()
    } else {
        let init = related_among(q, target, rel_type, event_type, events, n - 1);
        if is_related(q, target, rel_type, event_type, events[n - 1]) {
            init.push(n - 1)
        } else {
            init
        }
    }
}

/// The places of the related events in the order that is asked for.
pub open spec fn relations_of(
    q: RelationsQuery,
    target: Seq<char>,
    rel_type: Option<Seq<char>>,
    event_type: Option<Seq<char>>,
    events: Seq<TimelineEvent>,
) -> Seq<int> {
    let all = related_among(q, target, rel_type, event_type, events, events.len() as int);
    if q.backward {
        all.reverse()
    } else {
        all
    }
}

pub open spec fn events_at(events: Seq<TimelineEvent>, places: Seq<int>) -> Seq<JsonV> {
    places.map_values(|i: int| events[i].event@)
}

pub open spec fn first_places(places: Seq<int>, limit: int) -> Seq<int> {
    if places.len() > limit {
        places.take(limit)
    } else {
        places
    }
}

/// The answer to a request for relations: the first page of them, and a token
/// behind its last event where there are more.
pub open spec fn relations_answer(
    q: RelationsQuery,
    target: Seq<char>,
    rel_type: Option<Seq<char>>,
    event_type: Option<Seq<char>>,
    events: Seq<TimelineEvent>,
) -> JsonV {
    let all = relations_of(q, target, rel_type, event_type, events);
    let page = first_places(all, q.limit as int);
    let m = no_fields().insert("chunk"@, JsonV::Array(events_at(events, page)));
    JsonV::Object(
        if all.len() > q.limit {
            m.insert(
                "next_batch"@,
                JsonV::Str(seq!['t'] + decimal(events[page.last()].seq as nat)),
            )
        } else {
            m
        },
    )
}

fn related(
    q: &RelationsQuery,
    target: &str,
    rel_type: &Option<String>,
    event_type: &Option<String>,
    e: &TimelineEvent,
) -> (r: bool)
    ensures
        r == is_related(*q, target@, opt_text(*rel_type), opt_text(*event_type), *e),
{
    match q.from {
        Some(b) => {
            if q.backward {
                if e.seq > b.upper() {
                    return false;
                }
            } else if e.seq <= b.lower() {
                return false;
            }
        },
        None => {},
    }
    let (id, rt) = match relates_to(&e.event) {
        Some(p) => p,
        None => {
            return false;
        },
    };
    if !same_text(id, target) {
        return false;
    }
    match rel_type {
        Some(want) => match rt {
            Some(have) => if !same_text(have, want.as_str()) {
                return false;
            },
            None => {
                return false;
            },
        },
        None => {},
    }
    match event_type {
        Some(want) => match e.event.get_str("type") {
            Some(have) => same_text(have, want.as_str()),
            None => false,
        },
        None => true,
    }
}

/// Answers a request for the events that relate to `target`.
pub fn relations_common(
    q: &RelationsQuery,
    target: &str,
    rel_type: Option<String>,
    event_type: Option<String>,
    events: &Vec<TimelineEvent>,
) -> (r: Json)
    requires
        q.limit >= 1,
    ensures
        r@ == relations_answer(*q, target@, opt_text(rel_type), opt_text(event_type), events@),
{
    let ghost rt = opt_text(rel_type);
    let ghost et = opt_text(event_type);
    let mut places: Vec<usize> = Vec::new();
    let mut i: usize = 0;
    while i < events.len()
        invariant
            i <= events.len(),
            rt == opt_text(rel_type),
            et == opt_text(event_type),
            places@.map_values(|k: usize| k as int) == related_among(
                *q,
                target@,
                rt,
                et,
                events@,
                i as int,
            ),
            forall|k: int| 0 <= k < places@.len() ==> (#[trigger] places@[k]) < i,
        decreases events.len() - i,
    {
        if related(q, target, &rel_type, &event_type, &events[i]) {
            proof {
                assert(places@.push(i).map_values(|k: usize| k as int) =~= places@.map_values(
                    |k: usize| k as int,
                ).push(i as int));
            }
            places.push(i);
        }
        i += 1;
    }
    let ghost all = relations_of(*q, target@, rt, et, events@);
    let total = places.len();
    let end: usize = if total > q.limit {
        q.limit
    } else {
        total
    };
    let ghost page = first_places(all, q.limit as int);
    let mut items: Vec<Json> = Vec::new();
    let mut k: usize = 0;
    proof {
        assert(items_view(items@) =~= events_at(events@, page.take(0)));
    }
    while k < end
        invariant
            k <= end <= total,
            total == places@.len(),
            all.len() == total,
            page == all.take(end as int),
            items_view(items@) == events_at(events@, page.take(k as int)),
            forall|j: int| 0 <= j < places@.len() ==> (#[trigger] places@[j]) < events@.len(),
            forall|j: int|
                0 <= j < total ==> #[trigger] all[j] == (if q.backward {
                    places@[total - 1 - j] as int
                } else {
                    places@[j] as int
                }),
        decreases end - k,
    {
        let at = if q.backward {
            places[total - 1 - k]
        } else {
            places[k]
        };
        let j = events[at].event.copy();
        proof {
            assert(all[k as int] == at as int);
            assert(items@.push(j).drop_last() =~= items@);
            assert(events_at(events@, page.take(k + 1)) =~= events_at(
                events@,
                page.take(k as int),
            ).push(events@[at as int].event@));
        }
        items.push(j);
        k += 1;
    }
    proof {
        assert(page.take(end as int) =~= page);
    }
    let mut m: Vec<(String, Json)> = Vec::new();
    put_str(&mut m, "chunk", Json::Array(items));
    if total > q.limit {
        let at = if q.backward {
            places[total - end]
        } else {
            places[end - 1]
        };
        proof {
            assert(page.last() == all[end - 1]);
        }
        let mut token = String::new();
        token.push('t');
        token.append(show_u64(events[at].seq).as_str());
        proof {
            assert(token@ =~= seq!['t'] + decimal(events@[at as int].seq as nat));
        }
        put_str(&mut m, "next_batch", Json::Str(token));
    }
    Json::Object(m)
}

/// The timeline is in order.
pub open spec fn in_order(events: Seq<TimelineEvent>) -> bool {
    forall|i: int, j: int|
        #![trigger events[i], events[j]]
        0 <= i < j < events.len() ==> events[i].seq < events[j].seq
}

proof fn lemma_related_bounds(
    q: RelationsQuery,
    target: Seq<char>,
    rel_type: Option<Seq<char>>,
    event_type: Option<Seq<char>>,
    events: Seq<TimelineEvent>,
    n: int,
)
    requires
        0 <= n <= events.len(),
    ensures
        ({
            let all = related_among(q, target, rel_type, event_type, events, n);
            &&& forall|k: int|
                0 <= k < all.len() ==> 0 <= #[trigger] all[k] < n && is_related(
                    q,
                    target,
                    rel_type,
                    event_type,
                    events[all[k]],
                )
            &&& forall|a: int, b: int|
                #![trigger all[a], all[b]]
                0 <= a < b < all.len() ==> all[a] < all[b]
            &&& forall|i: int|
                0 <= i < n && is_related(q, target, rel_type, event_type, #[trigger] events[i])
                    ==> all.contains(i)
        }),
    decreases n,
{
    if n > 0 {
        lemma_related_bounds(q, target, rel_type, event_type, events, n - 1);
        let init = related_among(q, target, rel_type, event_type, events, n - 1);
        let all = related_among(q, target, rel_type, event_type, events, n);
        assert forall|i: int|
            0 <= i < n && is_related(
                q,
                target,
                rel_type,
                event_type,
                #[trigger] events[i],
            ) implies all.contains(i) by {
            if i < n - 1 {
                assert(init.contains(i));
                let k = choose|k: int| 0 <= k < init.len() && init[k] == i;
                assert(all[k] == i);
            } else {
                assert(all[init.len() as int] == i);
            }
        }
    }
}

/// Every event that is listed relates to the target as asked, and every such
/// event is listed.
pub proof fn law_relations_are_the_related(
    q: RelationsQuery,
    target: Seq<char>,
    rel_type: Option<Seq<char>>,
    event_type: Option<Seq<char>>,
    events: Seq<TimelineEvent>,
    i: int,
)
    requires
        0 <= i < events.len(),
    ensures
        relations_of(q, target, rel_type, event_type, events).contains(i) <==> is_related(
            q,
            target,
            rel_type,
            event_type,
            events[i],
        ),
{
    let all = related_among(q, target, rel_type, event_type, events, events.len() as int);
    let shown = relations_of(q, target, rel_type, event_type, events);
    lemma_related_bounds(q, target, rel_type, event_type, events, events.len() as int);
    if is_related(q, target, rel_type, event_type, events[i]) {
        assert(all.contains(i));
        let k = choose|k: int| 0 <= k < all.len() && all[k] == i;
        if q.backward {
            assert(shown[all.len() - 1 - k] == i);
        }
    }
    if shown.contains(i) {
        let k = choose|k: int| 0 <= k < shown.len() && shown[k] == i;
        if q.backward {
            assert(all[all.len() - 1 - k] == i);
        }
    }
}

/// Newest first going backward, oldest first going forward.
pub proof fn law_relations_are_in_order(
    q: RelationsQuery,
    target: Seq<char>,
    rel_type: Option<Seq<char>>,
    event_type: Option<Seq<char>>,
    events: Seq<TimelineEvent>,
    a: int,
    b: int,
)
    requires
        in_order(events),
        0 <= a < b < relations_of(q, target, rel_type, event_type, events).len(),
    ensures
        ({
            let all = relations_of(q, target, rel_type, event_type, events);
            if q.backward {
                events[all[a]].seq > events[all[b]].seq
            } else {
                events[all[a]].seq < events[all[b]].seq
            }
        }),
{
    let all = related_among(q, target, rel_type, event_type, events, events.len() as int);
    lemma_related_bounds(q, target, rel_type, event_type, events, events.len() as int);
    if q.backward {
        let x = all.len() - 1 - a;
        let y = all.len() - 1 - b;
        assert(all[y] < all[x]);
        assert(events[all[y]].seq < events[all[x]].seq);
    } else {
        assert(all[a] < all[b]);
        assert(events[all[a]].seq < events[all[b]].seq);
    }
}

// -- threads ------------------------------------------------------------------

/// What is told of a thread.
#[derive(Clone, Copy, Debug, PartialEq, Eq, Structural)]
pub struct Thread {
    /// An event of the thread, for its root.
    pub member: usize,
    /// The latest event of the thread.
    pub latest: usize,
    pub latest_seq: u64,
    pub count: u64,
    pub participated: bool,
}

/// The root of the thread that an event is in.
pub open spec fn thread_root(ev: JsonV) -> Option<Seq<char>> {
    match relation(ev) {
        Some((root, rel_type)) => if rel_type == Some("m.thread"@) {
            Some(root)
        } else {
            None
        },
        None => None,
    }
}

/// Is event `i` in the thread under `root`?
pub open spec fn in_thread(events: Seq<TimelineEvent>, root: Seq<char>, i: int) -> bool {
    thread_root(events[i].event@) == Some(root)
}

/// How many of the first `n` events are in the thread.
pub open spec fn thread_count(events: Seq<TimelineEvent>, root: Seq<char>, n: int) -> nat
    decreases n,
{
    if n <= 0 {
        0
    } else {
        thread_count(events, root, n - 1) + (if in_thread(events, root, n - 1) {
            1nat
        } else {
            0
        })
    }
}

/// Did the user send one of the first `n` events of the thread?
pub open spec fn has_sent(
    events: Seq<TimelineEvent>,
    root: Seq<char>,
    user: Seq<char>,
    n: int,
) -> bool {
    exists|i: int|
        0 <= i < n && #[trigger] in_thread(events, root, i) && as_text(
            field(events[i].event@, "sender"@),
        ) == Some(user)
}

/// Is event `i` the latest of the thread among the first `n`? Of events at one
/// position the last one counts.
pub open spec fn is_latest(events: Seq<TimelineEvent>, root: Seq<char>, i: int, n: int) -> bool {
    &&& 0 <= i < n
    &&& in_thread(events, root, i)
    &&& forall|j: int|
        0 <= j < n && #[trigger] in_thread(events, root, j) ==> events[j].seq < events[i].seq || (
        events[j].seq == events[i].seq && j <= i)
}

/// `t` tells what there is to tell of the thread under `root`, from the first
/// `n` events.
pub open spec fn tells(
    t: Thread,
    events: Seq<TimelineEvent>,
    root: Seq<char>,
    user: Seq<char>,
    n: int,
) -> bool {
    &&& t.member < n
    &&& in_thread(events, root, t.member as int)
    &&& is_latest(events, root, t.latest as int, n)
    &&& t.latest_seq == events[t.latest as int].seq
    &&& t.count == thread_count(events, root, n)
    &&& t.participated == has_sent(events, root, user, n)
}

pub open spec fn root_of(events: Seq<TimelineEvent>, t: Thread) -> Seq<char> {
    thread_root(events[t.member as int].event@)->0
}

/// `threads` tells of every thread among the first `n` events, each once.
pub open spec fn covers(
    threads: Seq<Thread>,
    events: Seq<TimelineEvent>,
    user: Seq<char>,
    n: int,
) -> bool {
    &&& forall|k: int|
        0 <= k < threads.len() ==> tells(
            #[trigger] threads[k],
            events,
            root_of(events, threads[k]),
            user,
            n,
        )
    &&& forall|a: int, b: int|
        #![trigger threads[a], threads[b]]
        0 <= a < b < threads.len() ==> root_of(events, threads[a]) != root_of(events, threads[b])
    &&& forall|i: int|
        0 <= i < n && thread_root((#[trigger] events[i]).event@) is Some ==> exists|k: int|
            0 <= k < threads.len() && Some(root_of(events, #[trigger] threads[k])) == thread_root(
                events[i].event@,
            )
}

fn root_at<'a>(events: &'a Vec<TimelineEvent>, i: usize) -> (r: Option<&'a str>)
    requires
        i < events@.len(),
    ensures
        match thread_root(events@[i as int].event@) {
            Some(root) => r matches Some(s) && s@ == root,
            None => r is None,
        },
{
    match relates_to(&events[i].event) {
        Some((root, Some(t))) => if same_text(t, "m.thread") {
            Some(root)
        } else {
            None
        },
        _ => None,
    }
}

proof fn lemma_count_bound(events: Seq<TimelineEvent>, root: Seq<char>, n: int)
    requires
        n >= 0,
    ensures
        thread_count(events, root, n) <= n,
    decreases n,
{
    if n > 0 {
        lemma_count_bound(events, root, n - 1);
    }
}

proof fn lemma_count_zero(events: Seq<TimelineEvent>, root: Seq<char>, n: int)
    requires
        forall|i: int| 0 <= i < n ==> !#[trigger] in_thread(events, root, i),
    ensures
        thread_count(events, root, n) == 0,
    decreases n,
{
    if n > 0 {
        lemma_count_zero(events, root, n - 1);
    }
}

fn find_thread(
    threads: &Vec<Thread>,
    events: &Vec<TimelineEvent>,
    root: &str,
) -> (r: Option<usize>)
    requires
        forall|k: int| 0 <= k < threads@.len() ==> (#[trigger] threads@[k]).member < events@.len()
            && thread_root(events@[threads@[k].member as int].event@) is Some,
    ensures
        match r {
            Some(k) => k < threads@.len() && root_of(events@, threads@[k as int]) == root@,
            None => forall|k: int|
                0 <= k < threads@.len() ==> root_of(events@, #[trigger] threads@[k]) != root@,
        },
{
    let mut k: usize = 0;
    while k < threads.len()
        invariant
            k <= threads.len(),
            forall|k: int|
                0 <= k < threads@.len() ==> (#[trigger] threads@[k]).member < events@.len()
                    && thread_root(events@[threads@[k].member as int].event@) is Some,
            forall|j: int| 0 <= j < k ==> root_of(events@, #[trigger] threads@[j]) != root@,
        decreases threads.len() - k,
    {
        match root_at(events, threads[k].member) {
            Some(s) => if same_text(s, root) {
                return Some(k);
            },
            None => {},
        }
        k += 1;
    }
    None
}

proof fn lemma_tells_other(
    t: Thread,
    events: Seq<TimelineEvent>,
    root: Seq<char>,
    user: Seq<char>,
    n: int,
)
    requires
        tells(t, events, root, user, n),
        !in_thread(events, root, n),
    ensures
        tells(t, events, root, user, n + 1),
{
    if has_sent(events, root, user, n) {
        let i = choose|i: int|
            0 <= i < n && #[trigger] in_thread(events, root, i) && as_text(
                field(events[i].event@, "sender"@),
            ) == Some(user);
        assert(in_thread(events, root, i));
        assert(has_sent(events, root, user, n + 1));
    }
}

proof fn lemma_tells_same(
    t: Thread,
    t2: Thread,
    events: Seq<TimelineEvent>,
    root: Seq<char>,
    user: Seq<char>,
    n: int,
)
    requires
        tells(t, events, root, user, n),
        in_thread(events, root, n),
        n <= usize::MAX,
        t2.member == t.member,
        t2.latest == (if events[n].seq >= t.latest_seq {
            n
        } else {
            t.latest as int
        }),
        t2.latest_seq == (if events[n].seq >= t.latest_seq {
            events[n].seq
        } else {
            t.latest_seq
        }),
        t2.count == t.count + 1,
        t2.participated == (t.participated || as_text(field(events[n].event@, "sender"@)) == Some(
            user,
        )),
    ensures
        tells(t2, events, root, user, n + 1),
{
    if has_sent(events, root, user, n) {
        let i = choose|i: int|
            0 <= i < n && #[trigger] in_thread(events, root, i) && as_text(
                field(events[i].event@, "sender"@),
            ) == Some(user);
        assert(in_thread(events, root, i));
        assert(has_sent(events, root, user, n + 1));
    }
}

proof fn lemma_tells_new(
    t: Thread,
    events: Seq<TimelineEvent>,
    root: Seq<char>,
    user: Seq<char>,
    n: int,
)
    requires
        0 <= n,
        forall|i: int| 0 <= i < n ==> !#[trigger] in_thread(events, root, i),
        in_thread(events, root, n),
        t.member == n,
        t.latest == n,
        t.latest_seq == events[n].seq,
        t.count == 1,
        t.participated == (as_text(field(events[n].event@, "sender"@)) == Some(user)),
    ensures
        tells(t, events, root, user, n + 1),
{
    lemma_count_zero(events, root, n);
}

proof fn lemma_covers_same(
    before: Seq<Thread>,
    after: Seq<Thread>,
    events: Seq<TimelineEvent>,
    user: Seq<char>,
    n: int,
    k: int,
)
    requires
        0 <= n < events.len(),
        covers(before, events, user, n),
        thread_root(events[n].event@) is Some,
        0 <= k < after.len(),
        after.len() == before.len() || (after.len() == before.len() + 1 && k == before.len()),
        forall|j: int| 0 <= j < before.len() && j != k ==> after[j] == #[trigger] before[j],
        k < before.len() ==> root_of(events, before[k]) == root_of(events, after[k]),
        k == before.len() ==> forall|j: int|
            0 <= j < before.len() ==> root_of(events, #[trigger] before[j]) != root_of(
                events,
                after[k],
            ),
        Some(root_of(events, after[k])) == thread_root(events[n].event@),
        tells(after[k], events, root_of(events, after[k]), user, n + 1),
    ensures
        covers(after, events, user, n + 1),
{
    assert forall|j: int| 0 <= j < after.len() implies tells(
        #[trigger] after[j],
        events,
        root_of(events, after[j]),
        user,
        n + 1,
    ) by {
        if j != k {
            assert(after[j] == before[j]);
            if k < before.len() {
                if j < k {
                    assert(root_of(events, before[j]) != root_of(events, before[k]));
                } else {
                    assert(root_of(events, before[k]) != root_of(events, before[j]));
                }
            }
            lemma_tells_other(before[j], events, root_of(events, before[j]), user, n);
        }
    }
    assert forall|a: int, b: int|
        #![trigger after[a], after[b]]
        0 <= a < b < after.len() implies root_of(events, after[a]) != root_of(events, after[b]) by {
        if a < before.len() && b < before.len() {
            assert(root_of(events, before[a]) != root_of(events, before[b]));
        } else {
            assert(after[a] == before[a]);
        }
    }
    assert forall|i: int|
        0 <= i < n + 1 && thread_root((#[trigger] events[i]).event@) is Some implies exists|j: int|
        0 <= j < after.len() && Some(root_of(events, #[trigger] after[j])) == thread_root(
            events[i].event@,
        ) by {
        if i < n {
            let j = choose|j: int|
                0 <= j < before.len() && Some(root_of(events, #[trigger] before[j]))
                    == thread_root(events[i].event@);
            assert(Some(root_of(events, after[j])) == thread_root(events[i].event@));
        } else {
            assert(Some(root_of(events, after[k])) == thread_root(events[i].event@));
        }
    }
}

/// The threads of a timeline.
pub fn threads_of(events: &Vec<TimelineEvent>, user: &str) -> (r: Vec<Thread>)
    ensures
        covers(r@, events@, user@, events@.len() as int),
{
    let mut threads: Vec<Thread> = Vec::new();
    let mut i: usize = 0;
    while i < events.len()
        invariant
            i <= events.len(),
            covers(threads@, events@, user@, i as int),
        decreases events.len() - i,
    {
        let ghost before = threads@;
        match root_at(events, i) {
            Some(root) => {
                let mine = match events[i].event.get_str("sender") {
                    Some(s) => same_text(s, user),
                    None => false,
                };
                proof {
                    assert forall|k: int| 0 <= k < threads@.len() implies (
                    #[trigger] threads@[k]).member < events@.len() && thread_root(
                        events@[threads@[k].member as int].event@,
                    ) is Some by {
                        assert(tells(
                            threads@[k],
                            events@,
                            root_of(events@, threads@[k]),
                            user@,
                            i as int,
                        ));
                    }
                }
                match find_thread(&threads, events, root) {
                    Some(k) => {
                        let t = threads[k];
                        proof {
                            lemma_count_bound(events@, root@, i as int);
                        }
                        let newer = events[i].seq >= t.latest_seq;
                        let t2 = Thread {
                            member: t.member,
                            latest: if newer {
                                i
                            } else {
                                t.latest
                            },
                            latest_seq: if newer {
                                events[i].seq
                            } else {
                                t.latest_seq
                            },
                            count: t.count + 1,
                            participated: t.participated || mine,
                        };
                        threads.set(k, t2);
                        proof {
                            lemma_tells_same(t, t2, events@, root@, user@, i as int);
                            lemma_covers_same(
                                before,
                                threads@,
                                events@,
                                user@,
                                i as int,
                                k as int,
                            );
                        }
                    },
                    None => {
                        let t2 = Thread {
                            member: i,
                            latest: i,
                            latest_seq: events[i].seq,
                            count: 1,
                            participated: mine,
                        };
                        threads.push(t2);
                        proof {
                            assert forall|j: int| 0 <= j < i implies !#[trigger] in_thread(
                                events@,
                                root@,
                                j,
                            ) by {
                                assert(events@[j] == events@[j]);
                            }
                            lemma_tells_new(t2, events@, root@, user@, i as int);
                            lemma_covers_same(
                                before,
                                threads@,
                                events@,
                                user@,
                                i as int,
                                before.len() as int,
                            );
                        }
                    },
                }
            },
            None => {
                proof {
                    assert forall|k: int| 0 <= k < threads@.len() implies tells(
                        #[trigger] threads@[k],
                        events@,
                        root_of(events@, threads@[k]),
                        user@,
                        i + 1,
                    ) by {
                        lemma_tells_other(
                            threads@[k],
                            events@,
                            root_of(events@, threads@[k]),
                            user@,
                            i as int,
                        );
                    }
                }
            },
        }
        i += 1;
    }
    threads
}

/// `order` lists the threads, each once, by their latest event, newest first;
/// threads at one position in the order in which they came.
pub open spec fn by_recency(order: Seq<usize>, threads: Seq<Thread>) -> bool {
    &&& forall|k: int| 0 <= k < order.len() ==> (#[trigger] order[k]) < threads.len()
    &&& forall|i: int| 0 <= i < threads.len() ==> order.contains(#[trigger] idx(i))
    &&& forall|a: int, b: int|
        #![trigger order[a], order[b]]
        0 <= a < b < order.len() ==> threads[order[a] as int].latest_seq
            > threads[order[b] as int].latest_seq || (threads[order[a] as int].latest_seq
            == threads[order[b] as int].latest_seq && order[a] < order[b])
}

pub open spec fn idx(i: int) -> usize {
    i as usize
}

/// The threads, those with the latest activity first.
pub fn sort_threads(threads: &Vec<Thread>) -> (r: Vec<usize>)
    ensures
        by_recency(r@, threads@),
{
    let mut order: Vec<usize> = Vec::new();
    let mut i: usize = 0;
    while i < threads.len()
        invariant
            i <= threads.len(),
            by_recency(order@, threads@.take(i as int)),
        decreases threads.len() - i,
    {
        let ghost seen = threads@.take(i as int);
        let mut at: usize = 0;
        while at < order.len() && threads[order[at]].latest_seq >= threads[i].latest_seq
            invariant
                at <= order.len(),
                i < threads.len(),
                seen == threads@.take(i as int),
                by_recency(order@, seen),
                forall|k: int|
                    0 <= k < at ==> threads@[(#[trigger] order@[k]) as int].latest_seq
                        >= threads@[i as int].latest_seq,
            decreases order.len() - at,
        {
            at += 1;
        }
        let ghost before = order@;
        order.insert(at, i);
        proof {
            lemma_insert_thread(before, order@, threads@, i as int, at as int);
        }
        i += 1;
    }
    proof {
        assert(threads@.take(threads@.len() as int) =~= threads@);
    }
    order
}

proof fn lemma_insert_thread(
    before: Seq<usize>,
    after: Seq<usize>,
    threads: Seq<Thread>,
    i: int,
    at: int,
)
    requires
        0 <= i < threads.len(),
        threads.len() <= usize::MAX,
        0 <= at <= before.len(),
        by_recency(before, threads.take(i)),
        after == before.insert(at, i as usize),
        forall|k: int|
            0 <= k < at ==> threads[(#[trigger] before[k]) as int].latest_seq
                >= threads[i].latest_seq,
        at < before.len() ==> threads[before[at] as int].latest_seq < threads[i].latest_seq,
    ensures
        by_recency(after, threads.take(i + 1)),
{
    let seen = threads.take(i);
    let now = threads.take(i + 1);
    assert forall|k: int| 0 <= k < after.len() implies (#[trigger] after[k]) < now.len() by {
        if k < at {
            assert(after[k] == before[k]);
        } else if k > at {
            assert(after[k] == before[k - 1]);
        }
    }
    assert forall|j: int| 0 <= j < now.len() implies after.contains(#[trigger] idx(j)) by {
        if j == i {
            assert(after[at] == idx(j));
        } else {
            assert(before.contains(idx(j)));
            let k = choose|k: int| 0 <= k < before.len() && before[k] == idx(j);
            if k < at {
                assert(after[k] == before[k]);
            } else {
                assert(after[k + 1] == before[k]);
            }
        }
    }
    assert forall|a: int, b: int|
        #![trigger after[a], after[b]]
        0 <= a < b < after.len() implies now[after[a] as int].latest_seq
        > now[after[b] as int].latest_seq || (now[after[a] as int].latest_seq
        == now[after[b] as int].latest_seq && after[a] < after[b]) by {
        if b < at {
            assert(after[a] == before[a] && after[b] == before[b]);
        } else if b == at {
            assert(after[a] == before[a]);
        } else if a < at {
            assert(after[a] == before[a] && after[b] == before[b - 1]);
        } else if a == at {
            assert(after[b] == before[b - 1]);
            if b - 1 > at {
                assert(seen[before[at] as int].latest_seq >= seen[before[b - 1] as int].latest_seq);
            }
        } else {
            assert(after[a] == before[a - 1] && after[b] == before[b - 1]);
        }
    }
}

/// The last event with an ID among the first `n`.
pub open spec fn find_event(events: Seq<TimelineEvent>, id: Seq<char>, n: int) -> Option<int>
    decreases n,
{
    if n <= 0 {
        None
    } else if as_text(field(events[n - 1].event@, "event_id"@)) == Some(id) {
        Some(n - 1)
    } else {
        find_event(events, id, n - 1)
    }
}

fn event_by_id(events: &Vec<TimelineEvent>, id: &str) -> (r: Option<usize>)
    ensures
        match find_event(events@, id@, events@.len() as int) {
            Some(i) => r matches Some(k) && k == i && 0 <= i < events@.len(),
            None => r is None,
        },
{
    let mut n: usize = events.len();
    while n > 0
        invariant
            n <= events.len(),
            find_event(events@, id@, events@.len() as int) == find_event(events@, id@, n as int),
        decreases n,
    {
        n -= 1;
        match events[n].event.get_str("event_id") {
            Some(s) => if same_text(s, id) {
                return Some(n);
            },
            None => {},
        }
    }
    None
}

pub open spec fn fields_or_none(j: Option<JsonV>) -> Map<Seq<char>, JsonV> {
    match j {
        Some(JsonV::Object(m)) => m,
        _ => no_fields(),
    }
}

/// May a field be written into? It must be missing, `null` or an object.
pub open spec fn can_extend(j: Option<JsonV>) -> bool {
    j is None || j == Some(JsonV::Null) || j->0 is Object
}

/// Can an event carry the summary of its thread?
pub open spec fn can_annotate(ev: JsonV) -> bool {
    ev matches JsonV::Object(m) && can_extend(entry(m, "unsigned"@)) && can_extend(
        entry(fields_or_none(entry(m, "unsigned"@)), "m.relations"@),
    )
}

pub open spec fn thread_summary(latest: JsonV, count: int, participated: bool) -> JsonV {
    JsonV::Object(
        no_fields().insert("latest_event"@, latest).insert("count"@, JsonV::Int(count)).insert(
            "current_user_participated"@,
            JsonV::Bool(participated),
        ),
    )
}

/// A thread root with the summary of its thread.
pub open spec fn with_summary(root: Map<Seq<char>, JsonV>, summary: JsonV) -> JsonV {
    let unsigned = fields_or_none(entry(root, "unsigned"@));
    let relations = fields_or_none(entry(unsigned, "m.relations"@));
    JsonV::Object(
        root.insert(
            "unsigned"@,
            JsonV::Object(
                unsigned.insert(
                    "m.relations"@,
                    JsonV::Object(relations.insert("m.thread"@, summary)),
                ),
            ),
        ),
    )
}

fn extendable_fields(j: Option<&Json>) -> (r: Vec<(String, Json)>)
    ensures
        fields_view(r@) == fields_or_none(
            match j {
                Some(x) => Some(x@),
                None => None,
            },
        ),
{
    match j {
        Some(Json::Object(m)) => copy_fields(m),
        _ => Vec::new(),
    }
}

/// Adds the summary of its thread to a thread root.
pub fn annotate_root(
    root: &Vec<(String, Json)>,
    latest: &Json,
    count: u64,
    participated: bool,
) -> (r: Json)
    requires
        can_annotate(JsonV::Object(fields_view(root@))),
    ensures
        r@ == with_summary(
            fields_view(root@),
            thread_summary(latest@, count as int, participated),
        ),
{
    let mut summary: Vec<(String, Json)> = Vec::new();
    put_str(&mut summary, "latest_event", latest.copy());
    put_str(&mut summary, "count", Json::Int(count as i128));
    put_str(&mut summary, "current_user_participated", Json::Bool(participated));
    let mut unsigned = extendable_fields(get(root, "unsigned"));
    let mut relations = extendable_fields(get(&unsigned, "m.relations"));
    put_str(&mut relations, "m.thread", Json::Object(summary));
    put_str(&mut unsigned, "m.relations", Json::Object(relations));
    let mut out = copy_fields(root);
    put_str(&mut out, "unsigned", Json::Object(unsigned));
    Json::Object(out)
}

/// The roots of the first `n` threads in `order`, each with its summary; a root
/// that the caller cannot see is left out.
pub open spec fn thread_chunk(
    events: Seq<TimelineEvent>,
    threads: Seq<Thread>,
    order: Seq<usize>,
    n: int,
) -> Seq<JsonV>
    decreases n,
{
    if n <= 0 {
        Seq::empty()
    } else {
        let init = thread_chunk(events, threads, order, n - 1);
        let t = threads[order[n - 1] as int];
        match find_event(events, root_of(events, t), events.len() as int) {
            Some(i) => match events[i].event@ {
                JsonV::Object(m) => init.push(
                    with_summary(
                        m,
                        thread_summary(
                            events[t.latest as int].event@,
                            t.count as int,
                            t.participated,
                        ),
                    ),
                ),
                _ => init,
            },
            None => init,
        }
    }
}

/// The page size of a request for threads: 10 unless the query holds a number,
/// at least 1 and at most 100.
pub fn threads_limit(q: &Vec<(String, String)>) -> (r: usize)
    ensures
        r == (match query_value(q@, "limit"@) {
            Some(l) => match read_number(l, usize::MAX as nat) {
                Some(n) => clamp_int(n as int, 1, 100),
                None => 10,
            },
            None => 10,
        }),
{
    match query_get(q, "limit") {
        Some(l) => match parse_usize(l.as_str()) {
            Some(n) => if n < 1 {
                1
            } else if n > 100 {
                100
            } else {
                n
            },
            None => 10,
        },
        None => 10,
    }
}

/// The root of a thread, where it is among the events, can carry a summary.
pub open spec fn root_ready(events: Seq<TimelineEvent>, root: Option<Seq<char>>) -> bool {
    match root {
        Some(id) => match find_event(events, id, events.len() as int) {
            Some(i) => can_annotate(events[i].event@),
            None => true,
        },
        None => true,
    }
}

/// Was the thread under `a` active after the one under `b`?
pub open spec fn outlives(events: Seq<TimelineEvent>, a: Seq<char>, b: Seq<char>) -> bool {
    exists|i: int|
        0 <= i < events.len() && #[trigger] in_thread(events, a, i) && forall|j: int|
            0 <= j < events.len() && #[trigger] in_thread(events, b, j) ==> events[j].seq
                < events[i].seq
}

/// The roots of the threads that were active after the one under `root`.
pub open spec fn busier(events: Seq<TimelineEvent>, root: Seq<char>) -> Set<Seq<char>> {
    Set::new(|r: Seq<char>| outlives(events, r, root))
}

/// Every thread root among the events that a page of `limit` threads can reach
/// is able to carry a summary.
pub open spec fn roots_ready(events: Seq<TimelineEvent>, limit: int) -> bool {
    forall|j: int|
        0 <= j < events.len() && thread_root((#[trigger] events[j]).event@) is Some && busier(
            events,
            thread_root(events[j].event@)->0,
        ).len() < limit ==> root_ready(events, thread_root(events[j].event@))
}

/// How many threads in `order` are newer than the one at `k`.
pub open spec fn newer(order: Seq<usize>, threads: Seq<Thread>, k: int) -> int
    decreases k,
{
    if k > 0 && threads[order[k - 1] as int].latest_seq == threads[order[k] as int].latest_seq {
        newer(order, threads, k - 1)
    } else {
        k
    }
}

proof fn lemma_newer(order: Seq<usize>, threads: Seq<Thread>, k: int)
    requires
        by_recency(order, threads),
        0 <= k < order.len(),
    ensures
        0 <= newer(order, threads, k) <= k,
        forall|a: int|
            #![trigger order[a]]
            0 <= a < newer(order, threads, k) ==> threads[order[a] as int].latest_seq
                > threads[order[k] as int].latest_seq,
        forall|a: int|
            #![trigger order[a]]
            newer(order, threads, k) <= a < order.len() ==> threads[order[a] as int].latest_seq
                <= threads[order[k] as int].latest_seq,
    decreases k,
{
    if k > 0 {
        if threads[order[k - 1] as int].latest_seq == threads[order[k] as int].latest_seq {
            lemma_newer(order, threads, k - 1);
        } else {
            assert(order[k - 1] < threads.len());
        }
    }
}

proof fn lemma_outlives(
    threads: Seq<Thread>,
    events: Seq<TimelineEvent>,
    user: Seq<char>,
    a: int,
    b: int,
)
    requires
        covers(threads, events, user, events.len() as int),
        0 <= a < threads.len(),
        0 <= b < threads.len(),
    ensures
        outlives(events, root_of(events, threads[a]), root_of(events, threads[b])) == (
        threads[a].latest_seq > threads[b].latest_seq),
{
    let ra = root_of(events, threads[a]);
    let rb = root_of(events, threads[b]);
    assert(tells(threads[a], events, ra, user, events.len() as int));
    assert(tells(threads[b], events, rb, user, events.len() as int));
    assert(in_thread(events, ra, threads[a].latest as int));
    assert(in_thread(events, rb, threads[b].latest as int));
}

/// The root of the thread at place `a` of `order`.
pub open spec fn listed_root(
    order: Seq<usize>,
    threads: Seq<Thread>,
    events: Seq<TimelineEvent>,
    a: int,
) -> Seq<char> {
    root_of(events, threads[order[a] as int])
}

/// The place in `order` of the thread that event `i` is in.
proof fn lemma_listed(
    order: Seq<usize>,
    threads: Seq<Thread>,
    events: Seq<TimelineEvent>,
    user: Seq<char>,
    i: int,
) -> (a: int)
    requires
        covers(threads, events, user, events.len() as int),
        by_recency(order, threads),
        0 <= i < events.len(),
        thread_root(events[i].event@) is Some,
        threads.len() <= usize::MAX,
    ensures
        0 <= a < order.len(),
        Some(listed_root(order, threads, events, a)) == thread_root(events[i].event@),
{
    let t = choose|t: int|
        0 <= t < threads.len() && Some(root_of(events, #[trigger] threads[t])) == thread_root(
            events[i].event@,
        );
    assert(order.contains(idx(t)));
    order.index_of(idx(t))
}

/// Which of two listed threads was active later.
proof fn lemma_listed_order(
    order: Seq<usize>,
    threads: Seq<Thread>,
    events: Seq<TimelineEvent>,
    user: Seq<char>,
    a: int,
    b: int,
)
    requires
        covers(threads, events, user, events.len() as int),
        by_recency(order, threads),
        0 <= a < order.len(),
        0 <= b < order.len(),
    ensures
        outlives(
            events,
            listed_root(order, threads, events, a),
            listed_root(order, threads, events, b),
        ) == (threads[order[a] as int].latest_seq > threads[order[b] as int].latest_seq),
        a != b ==> listed_root(order, threads, events, a) != listed_root(
            order,
            threads,
            events,
            b,
        ),
{
    assert(order[a] < threads.len() && order[b] < threads.len());
    lemma_outlives(threads, events, user, order[a] as int, order[b] as int);
    if a != b {
        assert(order[a] != order[b]);
        let (x, y) = if order[a] < order[b] {
            (order[a] as int, order[b] as int)
        } else {
            (order[b] as int, order[a] as int)
        };
        assert(root_of(events, threads[x]) != root_of(events, threads[y]));
    }
}

/// The threads that are newer than one are those before it, less those at its
/// own position in time.
proof fn lemma_busier(
    order: Seq<usize>,
    threads: Seq<Thread>,
    events: Seq<TimelineEvent>,
    user: Seq<char>,
    k: int,
)
    requires
        covers(threads, events, user, events.len() as int),
        by_recency(order, threads),
        0 <= k < order.len(),
        threads.len() <= usize::MAX,
    ensures
        busier(events, listed_root(order, threads, events, k)).len() == newer(order, threads, k),
        newer(order, threads, k) <= k,
{
    let n = newer(order, threads, k);
    let root = listed_root(order, threads, events, k);
    let roots = Seq::new(n as nat, |a: int| listed_root(order, threads, events, a));
    lemma_newer(order, threads, k);
    assert forall|a: int, b: int| 0 <= a < n && 0 <= b < n && a != b implies roots[a]
        != roots[b] by {
        lemma_listed_order(order, threads, events, user, a, b);
    }
    assert(roots.no_duplicates());
    roots.unique_seq_to_set();
    assert forall|r: Seq<char>| busier(events, root).contains(r) implies roots.to_set().contains(
        r,
    ) by {
        let i = choose|i: int| 0 <= i < events.len() && #[trigger] in_thread(events, r, i);
        let a = lemma_listed(order, threads, events, user, i);
        lemma_listed_order(order, threads, events, user, a, k);
        assert(order[a] < threads.len());
        assert(roots[a] == r);
    }
    assert forall|r: Seq<char>| roots.to_set().contains(r) implies busier(events, root).contains(
        r,
    ) by {
        let a = roots.index_of(r);
        assert(roots[a] == r);
        assert(order[a] < threads.len());
        lemma_listed_order(order, threads, events, user, a, k);
    }
    assert(busier(events, root) =~= roots.to_set());
}

fn is_extendable(j: Option<&Json>) -> (r: bool)
    ensures
        r == can_extend(
            match j {
                Some(x) => Some(x@),
                None => None,
            },
        ),
{
    match j {
        None => true,
        Some(Json::Null) => true,
        Some(Json::Object(_)) => true,
        _ => false,
    }
}

fn is_annotatable(ev: &Json) -> (r: bool)
    ensures
        r == can_annotate(ev@),
{
    match ev.as_object() {
        Some(m) => {
            let unsigned = get(m, "unsigned");
            let relations = match unsigned {
                Some(Json::Object(u)) => get(u, "m.relations"),
                _ => None,
            };
            is_extendable(unsigned) && is_extendable(relations)
        },
        None => false,
    }
}

fn is_root_ready(events: &Vec<TimelineEvent>, i: usize) -> (r: bool)
    requires
        i < events@.len(),
    ensures
        r == root_ready(events@, thread_root(events@[i as int].event@)),
{
    match root_at(events, i) {
        Some(root) => match event_by_id(events, root) {
            Some(i) => is_annotatable(&events[i].event),
            None => true,
        },
        None => true,
    }
}

/// `order` lists the threads of the timeline by recency.
#[verifier::opaque]
spec fn lists(
    order: Seq<usize>,
    threads: Seq<Thread>,
    events: Seq<TimelineEvent>,
    user: Seq<char>,
) -> bool {
    &&& covers(threads, events, user, events.len() as int)
    &&& by_recency(order, threads)
    &&& threads.len() <= usize::MAX
}

/// A listed thread has its root among the threads of the timeline, and those
/// newer than it are counted.
proof fn lemma_lists(
    order: Seq<usize>,
    threads: Seq<Thread>,
    events: Seq<TimelineEvent>,
    user: Seq<char>,
    k: int,
)
    requires
        lists(order, threads, events, user),
        0 <= k < order.len(),
    ensures
        order[k] < threads.len(),
        threads[order[k] as int].member < events.len(),
        threads[order[k] as int].latest < events.len(),
        thread_root(events[threads[order[k] as int].member as int].event@) == Some(
            listed_root(order, threads, events, k),
        ),
        busier(events, listed_root(order, threads, events, k)).len() == newer(order, threads, k),
        newer(order, threads, k) <= k,
{
    reveal(lists);
    let t = threads[order[k] as int];
    assert(tells(t, events, root_of(events, t), user, events.len() as int));
    lemma_busier(order, threads, events, user, k);
}

/// Can every thread root that a page of `limit` threads can reach carry a summary?
pub fn can_list_threads(events: &Vec<TimelineEvent>, limit: usize) -> (r: bool)
    ensures
        r == roots_ready(events@, limit as int),
{
    let threads = threads_of(events, "");
    let order = sort_threads(&threads);
    let mut before: usize = 0;
    let mut k: usize = 0;
    assert(lists(order@, threads@, events@, ""@)) by {
        reveal(lists);
        assert(threads.len() == threads@.len());
    }
    while k < order.len()
        invariant
            k <= order.len(),
            lists(order@, threads@, events@, ""@),
            k > 0 ==> before == newer(order@, threads@, k - 1),
            forall|a: int|
                #![trigger newer(order@, threads@, a)]
                0 <= a < k && newer(order@, threads@, a) < limit ==> root_ready(
                    events@,
                    Some(listed_root(order@, threads@, events@, a)),
                ),
        decreases order.len() - k,
    {
        proof {
            lemma_lists(order@, threads@, events@, ""@, k as int);
            if k > 0 {
                lemma_lists(order@, threads@, events@, ""@, k - 1);
            }
        }
        let t = threads[order[k]];
        if k == 0 || threads[order[k - 1]].latest_seq != t.latest_seq {
            before = k;
        }
        if before < limit && !is_root_ready(events, t.member) {
            return false;
        }
        k += 1;
    }
    proof {
        assert forall|j: int|
            0 <= j < events@.len() && thread_root((#[trigger] events@[j]).event@) is Some && busier(
                events@,
                thread_root(events@[j].event@)->0,
            ).len() < limit implies root_ready(events@, thread_root(events@[j].event@)) by {
            let a = lemma_listed(order@, threads@, events@, ""@, j);
            lemma_lists(order@, threads@, events@, ""@, a);
        }
    }
    true
}

/// Thread roots ordered by most recent activity, each carrying the summary of
/// its thread: the latest event, how many there are, and whether the caller
/// took part.
pub fn get_threads(events: &Vec<TimelineEvent>, user: &str, limit: usize) -> (r: Json)
    requires
        roots_ready(events@, limit as int),
    ensures
        exists|threads: Seq<Thread>, order: Seq<usize>|
            #![trigger covers(threads, events@, user@, events@.len() as int), by_recency(
                order,
                threads,
            )]
            covers(threads, events@, user@, events@.len() as int) && by_recency(order, threads)
                && r@ == one_field(
                "chunk"@,
                JsonV::Array(
                    thread_chunk(
                        events@,
                        threads,
                        order,
                        if order.len() < limit {
                            order.len() as int
                        } else {
                            limit as int
                        },
                    ),
                ),
            ),
{
    let threads = threads_of(events, user);
    let order = sort_threads(&threads);
    let mut items: Vec<Json> = Vec::new();
    let mut k: usize = 0;
    assert(lists(order@, threads@, events@, user@)) by {
        reveal(lists);
        assert(threads.len() == threads@.len());
    }
    while k < order.len() && k < limit
        invariant
            k <= order.len(),
            k <= limit,
            roots_ready(events@, limit as int),
            lists(order@, threads@, events@, user@),
            items_view(items@) == thread_chunk(events@, threads@, order@, k as int),
        decreases order.len() - k,
    {
        proof {
            lemma_lists(order@, threads@, events@, user@, k as int);
        }
        let t = threads[order[k]];
        proof {
            assert(root_ready(events@, thread_root(events@[t.member as int].event@)));
        }
        match root_at(events, t.member) {
            Some(root) => {
                match event_by_id(events, root) {
                    Some(i) => {
                        match events[i].event.as_object() {
                            Some(m) => {
                                let j = annotate_root(
                                    m,
                                    &events[t.latest].event,
                                    t.count,
                                    t.participated,
                                );
                                proof {
                                    assert(items@.push(j).drop_last() =~= items@);
                                }
                                items.push(j);
                            },
                            None => {},
                        }
                    },
                    None => {},
                }
            },
            None => {},
        }
        k += 1;
    }
    let mut m: Vec<(String, Json)> = Vec::new();
    put_str(&mut m, "chunk", Json::Array(items));
    Json::Object(m)
}

/// What is told of a thread does not depend on how it was found: two accounts
/// of the threads of a timeline in order agree on every thread.
pub proof fn law_threads_are_determined(
    a: Seq<Thread>,
    b: Seq<Thread>,
    events: Seq<TimelineEvent>,
    user: Seq<char>,
    i: int,
    j: int,
)
    requires
        covers(a, events, user, events.len() as int),
        covers(b, events, user, events.len() as int),
        0 <= i < a.len(),
        0 <= j < b.len(),
        root_of(events, a[i]) == root_of(events, b[j]),
    ensures
        a[i].latest == b[j].latest,
        a[i].latest_seq == b[j].latest_seq,
        a[i].count == b[j].count,
        a[i].participated == b[j].participated,
{
    let root = root_of(events, a[i]);
    assert(tells(a[i], events, root, user, events.len() as int));
    assert(tells(b[j], events, root, user, events.len() as int));
    assert(in_thread(events, root, a[i].latest as int));
    assert(in_thread(events, root, b[j].latest as int));
}

// -- what relations and threads come to ------------------------------------------

/// An event is shown among the relations of another exactly where it names it,
/// is of the kind of relation and the type that were asked for, and lies in the
/// range: when paging back, at or before the bound; when paging forward, behind
/// it.
pub proof fn law_related_events_are_shown(
    q: RelationsQuery,
    target: Seq<char>,
    rel_type: Option<Seq<char>>,
    event_type: Option<Seq<char>>,
    events: Seq<TimelineEvent>,
    i: int,
)
    requires
        0 <= i < events.len(),
    ensures
        ({
            let ev = events[i].event@;
            let shown = relations_of(q, target, rel_type, event_type, events).contains(i);
            let ranged = match q.from {
                None => true,
                Some(b) => if !q.backward {
                    events[i].seq > b.seq
                } else if b.at_event && b.seq > 0 {
                    events[i].seq < b.seq
                } else {
                    events[i].seq <= b.seq
                },
            };
            shown <==> {
                &&& ranged
                &&& field2(ev, "content"@, "m.relates_to"@) matches Some(rel) && field(
                    rel,
                    "event_id"@,
                ) == Some(JsonV::Str(target)) && (rel_type matches Some(r) ==> field(
                    rel,
                    "rel_type"@,
                ) == Some(JsonV::Str(r)))
                &&& event_type matches Some(t) ==> field(ev, "type"@) == Some(JsonV::Str(t))
            }
        }),
{
    law_relations_are_the_related(q, target, rel_type, event_type, events, i);
}

/// A page of relations is the first of them, as many as the limit allows; there
/// is a token for the next exactly where there are more, and it stands at the
/// last that is shown.
pub proof fn law_pages_of_relations_are_filled(
    q: RelationsQuery,
    target: Seq<char>,
    rel_type: Option<Seq<char>>,
    event_type: Option<Seq<char>>,
    events: Seq<TimelineEvent>,
    k: int,
)
    ensures
        ({
            let all = relations_of(q, target, rel_type, event_type, events);
            let j = relations_answer(q, target, rel_type, event_type, events);
            &&& field(j, "chunk"@) matches Some(JsonV::Array(chunk)) && chunk.len() == (if all.len()
                > q.limit {
                q.limit as int
            } else {
                all.len() as int
            }) && (0 <= k < chunk.len() ==> chunk[k] == events[all[k]].event@)
            &&& field(j, "next_batch"@) is Some <==> all.len() > q.limit
            &&& all.len() > q.limit && q.limit > 0 ==> field(j, "next_batch"@) == Some(
                JsonV::Str(seq!['t'] + decimal(events[all[q.limit - 1]].seq as nat)),
            )
        }),
{
    reveal_strlit("chunk");
    reveal_strlit("next_batch");
    assert("chunk"@.len() == 5 && "next_batch"@.len() == 10);
    let all = relations_of(q, target, rel_type, event_type, events);
    let page = first_places(all, q.limit as int);
    if all.len() > q.limit {
        assert(page == all.take(q.limit as int));
        if q.limit > 0 {
            assert(page.last() == all[q.limit - 1]);
        }
    }
}

/// A question for relations means what it says: without a limit it asks for ten
/// and never for more than a hundred or fewer than one; it pages back unless it
/// says forward; and it starts at its token.
pub proof fn law_questions_for_relations_mean_what_they_say(q: Seq<(String, String)>)
    ensures
        relations_query(q) matches Ok(r) ==> {
            &&& 1 <= r.limit <= 100
            &&& query_value(q, "limit"@) is None ==> r.limit == 10
            &&& query_value(q, "limit"@) matches Some(l)
                ==> (read_number(l, usize::MAX as nat) matches Some(
                n,
            ) && (1 <= n <= 100 ==> r.limit == n) && (n > 100 ==> r.limit == 100))
            &&& r.backward <==> query_value(q, "dir"@) != Some("f"@)
            &&& query_value(q, "from"@) is None ==> r.from is None
            &&& query_value(q, "from"@) matches Some(t) ==> (read_topo(t) matches Ok(b) && r.from
                == Some(b))
        },
        relations_query(q) is Ok <==> {
            &&& query_value(q, "limit"@) matches Some(l)
                ==> read_number(l, usize::MAX as nat) is Some
            &&& query_value(q, "dir"@) is None || query_value(q, "dir"@) == Some("b"@)
                || query_value(q, "dir"@) == Some("f"@)
            &&& query_value(q, "from"@) matches Some(t) ==> read_topo(t) is Ok
        },
{
}

/// An event is in a thread exactly where it relates to the root by a thread
/// relation.
pub proof fn law_thread_relations_make_threads(
    events: Seq<TimelineEvent>,
    root: Seq<char>,
    i: int,
)
    ensures
        in_thread(events, root, i) <==> (field2(events[i].event@, "content"@,
            "m.relates_to"@) matches Some(
            rel,
        ) && field(rel, "event_id"@) == Some(JsonV::Str(root)) && field(rel, "rel_type"@) == Some(
            JsonV::Str("m.thread"@),
        )),
{
}

/// A thread is counted by its events: each adds one, and no other event does.
pub proof fn law_threads_count_their_events(
    events: Seq<TimelineEvent>,
    root: Seq<char>,
    n: int,
)
    requires
        0 <= n < events.len(),
    ensures
        thread_count(events, root, 0) == 0,
        thread_count(events, root, n + 1) == thread_count(events, root, n) + (if field2(
            events[n].event@,
            "content"@,
            "m.relates_to"@,
        ) matches Some(rel) && field(rel, "event_id"@) == Some(JsonV::Str(root)) && field(
            rel,
            "rel_type"@,
        ) == Some(JsonV::Str("m.thread"@)) {
            1int
        } else {
            0int
        }),
{
}

/// The threads that are listed are summed up on their roots: every listed
/// thread whose root is known is there, as the root with everything it holds,
/// and with the latest event, the count, and whether the user took part.
pub proof fn law_threads_are_summed_up(
    events: Seq<TimelineEvent>,
    threads: Seq<Thread>,
    order: Seq<usize>,
    user: Seq<char>,
    n: int,
    k: int,
    i: int,
) -> (item: JsonV)
    requires
        covers(threads, events, user, events.len() as int),
        by_recency(order, threads),
        0 <= k < n <= order.len(),
        0 <= i < events.len(),
        ({
            let root = root_of(events, threads[order[k] as int]);
            &&& field(events[i].event@, "event_id"@) == Some(JsonV::Str(root))
            &&& forall|j: int|
                i < j < events.len() ==> field((#[trigger] events[j]).event@, "event_id"@) != Some(
                    JsonV::Str(root),
                )
        }),
    ensures
        thread_chunk(events, threads, order, n).contains(item),
        ({
            let t = threads[order[k] as int];
            let root = root_of(events, t);
            let told = field2(item, "unsigned"@, "m.relations"@);
            &&& forall|key: Seq<char>|
                key != "unsigned"@ ==> #[trigger] field(item, key) == field(events[i].event@, key)
            &&& told is Some
            &&& field2(told->0, "m.thread"@, "latest_event"@) == Some(
                events[t.latest as int].event@,
            )
            &&& field2(told->0, "m.thread"@, "count"@) == Some(
                JsonV::Int(thread_count(events, root, events.len() as int) as int),
            )
            &&& field2(told->0, "m.thread"@, "current_user_participated"@) == Some(
                JsonV::Bool(has_sent(events, root, user, events.len() as int)),
            )
        }),
{
    let t = threads[order[k] as int];
    let root = root_of(events, t);
    lemma_last_of_id(events, root, events.len() as int, i);
    assert(tells(t, events, root, user, events.len() as int));
    let m = events[i].event@->Object_0;
    let item = with_summary(
        m,
        thread_summary(events[t.latest as int].event@, t.count as int, t.participated),
    );
    lemma_chunk_holds(events, threads, order, n, k, item);
    reveal_strlit("latest_event");
    reveal_strlit("count");
    reveal_strlit("current_user_participated");
    assert("latest_event"@.len() == 12 && "count"@.len() == 5
        && "current_user_participated"@.len() == 25);
    item
}

proof fn lemma_last_of_id(events: Seq<TimelineEvent>, id: Seq<char>, n: int, i: int)
    requires
        0 <= i < n <= events.len(),
        field(events[i].event@, "event_id"@) == Some(JsonV::Str(id)),
        forall|j: int|
            i < j < n ==> field((#[trigger] events[j]).event@, "event_id"@) != Some(
                JsonV::Str(id),
            ),
    ensures
        find_event(events, id, n) == Some(i),
    decreases n,
{
    if i < n - 1 {
        assert(field(events[n - 1].event@, "event_id"@) != Some(JsonV::Str(id)));
        lemma_last_of_id(events, id, n - 1, i);
    }
}

proof fn lemma_chunk_holds(
    events: Seq<TimelineEvent>,
    threads: Seq<Thread>,
    order: Seq<usize>,
    n: int,
    k: int,
    item: JsonV,
)
    requires
        0 <= k < n <= order.len(),
        ({
            let t = threads[order[k] as int];
            &&& find_event(events, root_of(events, t), events.len() as int) matches Some(i)
            &&& events[i].event@ matches JsonV::Object(m)
            &&& item == with_summary(
                m,
                thread_summary(events[t.latest as int].event@, t.count as int, t.participated),
            )
        }),
    ensures
        thread_chunk(events, threads, order, n).contains(item),
    decreases n,
{
    let init = thread_chunk(events, threads, order, n - 1);
    let all = thread_chunk(events, threads, order, n);
    if k == n - 1 {
        assert(all[init.len() as int] == item);
    } else {
        lemma_chunk_holds(events, threads, order, n - 1, k, item);
        let q = choose|q: int| 0 <= q < init.len() && init[q] == item;
        assert(all[q] == item);
    }
}

/// An unknown room is answered as one that the user is not in; any other
/// refusal stands.
pub proof fn law_unknown_rooms_are_hidden(
    e: ApiError,
    r: ApiError,
)
    requires
        call_ensures(hide_unknown_room, (e,), r),
    ensures
        e@.status == 404 ==> r@.status == 403,
        e@.status != 404 ==> r@ == e@,
{
}

/// A list of threads holds ten unless it says otherwise, at least one and at
/// most a hundred.
pub proof fn law_thread_lists_are_limited(
    q: &Vec<(String, String)>,
    n: nat,
    r: usize,
)
    requires
        call_ensures(threads_limit, (q,), r),
    ensures
        1 <= r <= 100,
        query_value(q@, "limit"@) is None ==> r == 10,
        query_value(q@, "limit"@) is Some && read_number(query_value(q@, "limit"@)->0,
            usize::MAX as nat) == Some(n) && 1 <= n <= 100 ==> r == n,
{
}

/// A root can carry a summary exactly where it is an object, and where what
/// would hold the summary is an object, is `null` or is missing.
pub proof fn law_objects_carry_summaries(m: Map<Seq<char>, JsonV>, u: Map<Seq<char>, JsonV>)
    ensures
        !m.dom().contains("unsigned"@) || m["unsigned"@] == JsonV::Null ==> can_annotate(
            JsonV::Object(m),
        ),
        m.dom().contains("unsigned"@) && m["unsigned"@] == JsonV::Object(u) ==> (can_annotate(
            JsonV::Object(m),
        ) <==> !u.dom().contains("m.relations"@) || u["m.relations"@] == JsonV::Null
            || u["m.relations"@] is Object),
        m.dom().contains("unsigned"@) && m["unsigned"@] is Str ==> !can_annotate(JsonV::Object(m)),
        can_annotate(JsonV::Object(m)) && m.dom().contains("unsigned"@) ==> m["unsigned"@] is Object
            || m["unsigned"@] is Null,
        !can_annotate(JsonV::Null),
{
}

} // verus!

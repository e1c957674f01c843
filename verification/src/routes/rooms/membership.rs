//! Joining, leaving, inviting, kicking and banning.
use crate::error::{api_error, forbidden, invalid_param, not_found, ApiError, ApiErrorV};
use crate::ids::{check_room_id, check_room_or_alias, check_user_id, is_room_alias, is_room_id, is_room_or_alias, is_user_id, room_id_fault,
    room_or_alias_fault, server_in, server_part};
use crate::json::{as_text, canonical, entry, field, field2, fields_view, get, is_canonical, items_view, no_fields, put_str, read_strings_in, remove,
    strings_in, text_json, Json, JsonV};
use crate::percent::{decode, has_whole_escapes, percent_decoded, percent_encoded, whole_escapes};
use crate::room_util::{membership, membership_in, served_state, state_event_in, stripped, stripped_event, StateEvent};
use crate::routes::rooms::encode_segment;
use crate::text::{
    chars_of, cut_at, ends_with, has_suffix, join_texts, list_has, opt_text, same_text, split,
    split_on, split_once, texts,
};
use vstd::prelude::*;
use vstd::string::StringExecFns;

verus! {

/// Decodes one query value.
pub fn percent_decode(s: &str) -> (r: String)
    requires
        whole_escapes(s@),
    ensures
        r@ == percent_decoded(s@),
{
    decode(s)
}

/// The server that one `key=value` pair of a query names, if it names one.
pub open spec fn hint_of(pair: Seq<char>) -> Option<Seq<char>> {
    match cut_at(pair, '=') {
        Some((k, v)) => if (k == "server_name"@ || k == "via"@) && percent_decoded(v).len() > 0 {
            Some(percent_decoded(v))
        } else {
            None
        },
        None => None,
    }
}

/// The servers that the pairs name, each once, in the order of first mention.
pub open spec fn hints_of(pairs: Seq<Seq<char>>) -> Seq<Seq<char>>
    decreases pairs.len(),
{
    if pairs.len() == 0 {
        Seq::empty()
    } else {
        let init = hints_of(pairs.drop_last());
        match hint_of(pairs.last()) {
            Some(server) => if init.contains(server) {
                init
            } else {
                init.push(server)
            },
            None => init,
        }
    }
}

/// The servers named in a query string.
pub open spec fn query_hints(query: Option<Seq<char>>) -> Seq<Seq<char>> {
    match query {
        Some(q) => hints_of(split_on(q, '&')),
        None => Seq::empty(),
    }
}

/// No server is named twice, and none is empty.
pub proof fn law_hints_are_distinct(pairs: Seq<Seq<char>>)
    ensures
        hints_of(pairs).no_duplicates(),
        forall|i: int| 0 <= i < hints_of(pairs).len() ==> (#[trigger] hints_of(pairs)[i]).len() > 0,
    decreases pairs.len(),
{
    if pairs.len() > 0 {
        law_hints_are_distinct(pairs.drop_last());
        let init = hints_of(pairs.drop_last());
        match hint_of(pairs.last()) {
            Some(server) => {
                if !init.contains(server) {
                    assert forall|i: int, j: int|
                        0 <= i < j < init.push(server).len() implies init.push(server)[i]
                        != init.push(server)[j] by {
                        if j == init.len() {
                            assert(init.contains(init[i]));
                        }
                    }
                }
            },
            None => {},
        }
    }
}

/// Can the server that one pair of a query names be decoded without cutting a
/// character in two?
pub open spec fn readable_hint(pair: Seq<char>) -> bool {
    match cut_at(pair, '=') {
        Some((k, v)) => (k == "server_name"@ || k == "via"@) ==> whole_escapes(v),
        None => true,
    }
}

/// Can every server that a query names be decoded?
pub open spec fn readable_hints(query: Seq<char>) -> bool {
    let pairs = split_on(query, '&');
    forall|i: int| 0 <= i < pairs.len() ==> readable_hint(#[trigger] pairs[i])
}

/// Can every server that a query names be decoded?
pub fn has_readable_hints(query: &str) -> (r: bool)
    ensures
        r == readable_hints(query@),
{
    let pairs = split(query, '&');
    let ghost views = texts(pairs@);
    let mut i: usize = 0;
    while i < pairs.len()
        invariant
            i <= pairs.len(),
            views == texts(pairs@),
            views == split_on(query@, '&'),
            forall|j: int| 0 <= j < i ==> readable_hint(#[trigger] views[j]),
        decreases pairs.len() - i,
    {
        proof {
            assert(views[i as int] == pairs@[i as int]@);
        }
        match split_once(pairs[i].as_str(), '=') {
            Some((k, v)) => {
                let named = same_text(k.as_str(), "server_name") || same_text(k.as_str(), "via");
                if named && !has_whole_escapes(v.as_str()) {
                    return false;
                }
            },
            None => {},
        }
        i += 1;
    }
    true
}

/// The server that one `key=value` pair of a query names.
fn hint_in(pair: &str) -> (r: Option<String>)
    requires
        readable_hint(pair@),
    ensures
        opt_text(r) == hint_of(pair@),
{
    match split_once(pair, '=') {
        Some((k, v)) => {
            if !same_text(k.as_str(), "server_name") && !same_text(k.as_str(), "via") {
                return None;
            }
            let server = percent_decode(v.as_str());
            if server.as_str().is_empty() {
                None
            } else {
                Some(server)
            }
        },
        None => None,
    }
}

/// The servers a join request suggests: the `server_name` and `via` parameters
/// of its query, decoded, without empty values and repeats.
pub fn join_via_hints(query: Option<&str>) -> (r: Vec<String>)
    requires
        query matches Some(q) ==> readable_hints(q@),
    ensures
        texts(r@) == query_hints(
            match query {
                Some(q) => Some(q@),
                None => None,
            },
        ),
{
    let mut out: Vec<String> = Vec::new();
    let q = match query {
        Some(q) => q,
        None => {
            proof {
                assert(texts(out@) =~= Seq::<Seq<char>>::empty());
            }
            return out;
        },
    };
    let pairs = split(q, '&');
    let ghost views = texts(pairs@);
    let mut i: usize = 0;
    proof {
        assert(views.take(0) =~= Seq::<Seq<char>>::empty());
        assert(texts(out@) =~= hints_of(views.take(0)));
    }
    while i < pairs.len()
        invariant
            i <= pairs.len(),
            views == texts(pairs@),
            forall|j: int| 0 <= j < views.len() ==> readable_hint(#[trigger] views[j]),
            texts(out@) == hints_of(views.take(i as int)),
        decreases pairs.len() - i,
    {
        proof {
            assert(views.take(i + 1).drop_last() =~= views.take(i as int));
            assert(views.take(i + 1).last() == views[i as int]);
            assert(views[i as int] == pairs@[i as int]@);
        }
        match hint_in(pairs[i].as_str()) {
            Some(server) => {
                if !list_has(&out, server.as_str()) {
                    proof {
                        assert(texts(out@.push(server)) =~= texts(out@).push(server@));
                    }
                    out.push(server);
                }
            },
            None => {},
        }
        i += 1;
    }
    proof {
        assert(views.take(views.len() as int) =~= views);
    }
    out
}

// -- where a room lives -------------------------------------------------------

/// What decides whether our own copy of a room can serve a membership change.
#[derive(Debug)]
pub struct HostingFacts {
    pub meta_exists: bool,
    pub joined: Vec<String>,
    pub federation: bool,
    /// The server that the room ID names.
    pub resident: Option<String>,
    /// The other servers in the room, where they could be listed.
    pub remote_servers: Option<Vec<String>>,
}

/// `:server`, the end of every identifier of a server.
pub open spec fn server_suffix(server: Seq<char>) -> Seq<char> {
    seq![':'] + server
}

/// Is one of the users ours?
pub open spec fn any_local(users: Seq<Seq<char>>, our_name: Seq<char>) -> bool {
    exists|i: int| 0 <= i < users.len() && ends_with(#[trigger] users[i], server_suffix(our_name))
}

/// Can we serve a room from our own copy? Only while we participate in it, or
/// where there is no other way: no federation, a room of ours, or no other
/// server to go through.
pub open spec fn is_hosted(f: HostingFacts, our_name: Seq<char>) -> bool {
    f.meta_exists && (any_local(texts(f.joined@), our_name) || !f.federation || opt_text(f.resident)
        == Some(our_name) || (f.remote_servers matches Some(v) ==> v@.len() == 0))
}

/// Whether we can service a membership change from our own copy of the room
/// (vs. having to go through a resident over federation), and whether we know
/// the room. Once every local user has left, our copy is stale and a
/// rejoin/knock must go through a resident.
pub fn room_hosted_locally(f: &HostingFacts, our_name: &str) -> (r: (bool, bool))
    ensures
        r.0 == is_hosted(*f, our_name@),
        r.1 == f.meta_exists,
{
    if !f.meta_exists {
        return (false, false);
    }
    let mut suffix = String::new();
    suffix.push(':');
    suffix.append(our_name);
    proof {
        assert(suffix@ =~= server_suffix(our_name@));
    }
    let ghost names = texts(f.joined@);
    let mut i: usize = 0;
    while i < f.joined.len()
        invariant
            i <= f.joined.len(),
            names == texts(f.joined@),
            suffix@ == server_suffix(our_name@),
            f.meta_exists,
            forall|j: int| 0 <= j < i ==> !ends_with(#[trigger] names[j], suffix@),
        decreases f.joined.len() - i,
    {
        if has_suffix(f.joined[i].as_str(), suffix.as_str()) {
            proof {
                assert(ends_with(names[i as int], suffix@));
            }
            return (true, true);
        }
        i += 1;
    }
    let ours = match &f.resident {
        Some(r) => same_text(r.as_str(), our_name),
        None => false,
    };
    let no_route = match &f.remote_servers {
        Some(v) => v.len() == 0,
        None => true,
    };
    (!f.federation || ours || no_route, true)
}

// -- which servers to go through ----------------------------------------------

/// `list` with the names of `more` that are new, without our own.
pub open spec fn with_others(
    list: Seq<Seq<char>>,
    more: Seq<Seq<char>>,
    our_name: Seq<char>,
) -> Seq<Seq<char>>
    decreases more.len(),
{
    if more.len() == 0 {
        list
    } else {
        let init = with_others(list, more.drop_last(), our_name);
        if more.last() == our_name || init.contains(more.last()) {
            init
        } else {
            init.push(more.last())
        }
    }
}

pub open spec fn opt_seq(o: Option<Seq<char>>) -> Seq<Seq<char>> {
    match o {
        Some(x) => seq![x],
        None => Seq::empty(),
    }
}

/// The servers to join or knock through. Remote servers that the client names
/// are the whole list; only without any is it the server in the room ID, then
/// those in our copy of the room.
pub open spec fn candidates(
    hints: Seq<Seq<char>>,
    resident: Option<Seq<char>>,
    in_room: Seq<Seq<char>>,
    our_name: Seq<char>,
) -> Seq<Seq<char>> {
    let named = with_others(Seq::empty(), hints, our_name);
    if named.len() > 0 {
        named
    } else {
        with_others(with_others(Seq::empty(), opt_seq(resident), our_name), in_room, our_name)
    }
}

fn add_others(list: Vec<String>, more: &Vec<String>, our_name: &str) -> (r: Vec<String>)
    ensures
        texts(r@) == with_others(texts(list@), texts(more@), our_name@),
{
    let ghost base = texts(list@);
    let ghost names = texts(more@);
    let mut out = list;
    let mut i: usize = 0;
    proof {
        assert(names.take(0) =~= Seq::<Seq<char>>::empty());
    }
    while i < more.len()
        invariant
            i <= more.len(),
            names == texts(more@),
            texts(out@) == with_others(base, names.take(i as int), our_name@),
        decreases more.len() - i,
    {
        proof {
            assert(names.take(i + 1).drop_last() =~= names.take(i as int));
            assert(names.take(i + 1).last() == more@[i as int]@);
        }
        if !same_text(more[i].as_str(), our_name) && !list_has(&out, more[i].as_str()) {
            let s = more[i].as_str().to_owned();
            proof {
                assert(texts(out@.push(s)) =~= texts(out@).push(s@));
            }
            out.push(s);
        }
        i += 1;
    }
    proof {
        assert(names.take(names.len() as int) =~= names);
    }
    out
}

/// The servers to join or knock through, best first.
pub fn join_candidates(
    hints: &Vec<String>,
    resident: Option<String>,
    in_room: &Vec<String>,
    our_name: &str,
) -> (r: Vec<String>)
    ensures
        texts(r@) == candidates(texts(hints@), opt_text(resident), texts(in_room@), our_name@),
{
    let none: Vec<String> = Vec::new();
    proof {
        assert(texts(none@) =~= Seq::<Seq<char>>::empty());
    }
    let named = add_others(none, hints, our_name);
    proof {
        assert(texts(named@).len() == named@.len());
    }
    if named.len() > 0 {
        return named;
    }
    let mut first: Vec<String> = Vec::new();
    match resident {
        Some(r) => {
            let ghost rv = r@;
            first.push(r);
            proof {
                assert(texts(first@) =~= seq![rv]);
            }
        },
        None => {
            proof {
                assert(texts(first@) =~= Seq::<Seq<char>>::empty());
            }
        },
    }
    let none: Vec<String> = Vec::new();
    proof {
        assert(texts(none@) =~= Seq::<Seq<char>>::empty());
    }
    let list = add_others(none, &first, our_name);
    add_others(list, in_room, our_name)
}

proof fn lemma_with_others(list: Seq<Seq<char>>, more: Seq<Seq<char>>, our_name: Seq<char>)
    requires
        list.no_duplicates(),
        !list.contains(our_name),
    ensures
        with_others(list, more, our_name).no_duplicates(),
        !with_others(list, more, our_name).contains(our_name),
        forall|i: int|
            #![trigger with_others(list, more, our_name)[i]]
            0 <= i < with_others(list, more, our_name).len() ==> list.contains(
                with_others(list, more, our_name)[i],
            ) || more.contains(with_others(list, more, our_name)[i]),
    decreases more.len(),
{
    let all = with_others(list, more, our_name);
    if more.len() > 0 {
        let t = more.drop_last();
        lemma_with_others(list, t, our_name);
        let init = with_others(list, t, our_name);
        let last = more.last();
        assert(more[more.len() - 1] == last);
        assert forall|i: int| #![trigger all[i]] 0 <= i < all.len() implies list.contains(all[i])
            || more.contains(all[i]) by {
            if i < init.len() {
                assert(all[i] == init[i]);
                if t.contains(init[i]) {
                    let k = choose|k: int| 0 <= k < t.len() && t[k] == init[i];
                    assert(more[k] == init[i]);
                }
            } else {
                assert(all[i] == last);
            }
        }
        if !(last == our_name || init.contains(last)) {
            assert forall|i: int, j: int| 0 <= i < j < all.len() implies all[i] != all[j] by {
                if j == init.len() {
                    assert(init.contains(init[i]));
                }
            }
            if all.contains(our_name) {
                let k = choose|k: int| 0 <= k < all.len() && all[k] == our_name;
                if k < init.len() {
                    assert(init.contains(init[k]));
                }
            }
        }
    } else {
        assert forall|i: int| #![trigger all[i]] 0 <= i < all.len() implies list.contains(all[i]) by {
            assert(list[i] == all[i]);
        }
    }
}

/// We never go through ourselves, nor through a server twice.
pub proof fn law_candidates_are_others(
    hints: Seq<Seq<char>>,
    resident: Option<Seq<char>>,
    in_room: Seq<Seq<char>>,
    our_name: Seq<char>,
)
    ensures
        candidates(hints, resident, in_room, our_name).no_duplicates(),
        !candidates(hints, resident, in_room, our_name).contains(our_name),
{
    lemma_with_others(Seq::empty(), hints, our_name);
    lemma_with_others(Seq::empty(), opt_seq(resident), our_name);
    lemma_with_others(
        with_others(Seq::empty(), opt_seq(resident), our_name),
        in_room,
        our_name,
    );
}

/// Once the client names a remote server, no server is asked that it did not
/// name.
pub proof fn law_named_servers_are_the_whole_list(
    hints: Seq<Seq<char>>,
    resident: Option<Seq<char>>,
    in_room: Seq<Seq<char>>,
    our_name: Seq<char>,
    hint: int,
    i: int,
)
    requires
        0 <= hint < hints.len(),
        hints[hint] != our_name,
        0 <= i < candidates(hints, resident, in_room, our_name).len(),
    ensures
        hints.contains(candidates(hints, resident, in_room, our_name)[i]),
{
    lemma_with_others(Seq::empty(), hints, our_name);
    lemma_hint_is_kept(hints, our_name, hint);
    let named = with_others(Seq::empty(), hints, our_name);
    assert(named[i] == candidates(hints, resident, in_room, our_name)[i]);
}

proof fn lemma_hint_is_kept(hints: Seq<Seq<char>>, our_name: Seq<char>, hint: int)
    requires
        0 <= hint < hints.len(),
        hints[hint] != our_name,
    ensures
        with_others(Seq::empty(), hints, our_name).len() > 0,
    decreases hints.len(),
{
    let t = hints.drop_last();
    if hint < t.len() {
        assert(t[hint] == hints[hint]);
        lemma_hint_is_kept(t, our_name, hint);
    } else {
        let init = with_others(Seq::empty(), t, our_name);
        if init.contains(hints.last()) {
            assert(init.len() > 0);
        }
    }
}

// -- the handshake ------------------------------------------------------------

/// What came of asking one server.
#[derive(Debug)]
pub enum Attempt {
    Accepted,
    Refused { status: Option<u16>, text: String },
}

/// What to do next.
#[derive(Debug)]
pub enum NextAttempt {
    /// Ask the server at this index of the list.
    Ask { index: usize },
    /// The handshake succeeded.
    Accepted,
    Fail(ApiError),
}

/// Is the next thing to do what it should be?
pub open spec fn next_is(n: NextAttempt, ask: Option<int>, fail: ApiErrorV) -> bool {
    match ask {
        Some(i) => n matches NextAttempt::Ask { index } && index == i,
        None => n matches NextAttempt::Fail(e) && e@ == fail,
    }
}

fn first_attempt(federation: bool, candidates: usize, stuck: &str) -> (r: NextAttempt)
    ensures
        !federation ==> next_is(r, None, not_found("Unknown room"@)),
        federation && candidates == 0 ==> next_is(r, None, not_found(stuck@)),
        federation && candidates > 0 ==> next_is(r, Some(0), not_found(stuck@)),
{
    if !federation {
        NextAttempt::Fail(ApiError::not_found("Unknown room"))
    } else if candidates == 0 {
        NextAttempt::Fail(ApiError::not_found(stuck))
    } else {
        NextAttempt::Ask { index: 0 }
    }
}

/// How a remote join begins.
pub fn begin_join(federation: bool, candidates: &Vec<String>) -> (r: NextAttempt)
    ensures
        !federation ==> next_is(r, None, not_found("Unknown room"@)),
        federation && candidates@.len() == 0 ==> next_is(
            r,
            None,
            not_found("Cannot determine a server to join through"@),
        ),
        federation && candidates@.len() > 0 ==> next_is(
            r,
            Some(0),
            not_found("Cannot determine a server to join through"@),
        ),
{
    first_attempt(federation, candidates.len(), "Cannot determine a server to join through")
}

/// How a remote knock begins.
pub fn begin_knock(federation: bool, candidates: &Vec<String>) -> (r: NextAttempt)
    ensures
        !federation ==> next_is(r, None, not_found("Unknown room"@)),
        federation && candidates@.len() == 0 ==> next_is(
            r,
            None,
            not_found("Cannot determine a server to knock through"@),
        ),
        federation && candidates@.len() > 0 ==> next_is(
            r,
            Some(0),
            not_found("Cannot determine a server to knock through"@),
        ),
{
    first_attempt(federation, candidates.len(), "Cannot determine a server to knock through")
}

pub open spec fn bad_gateway(message: Seq<char>) -> ApiErrorV {
    api_error(502, "M_UNKNOWN"@, message)
}

/// What follows an attempt to join through the server at `index` of
/// `candidates` servers. A 403 is the resident's definitive verdict and ends
/// the search: an unrelated server that answers 404 must not mask it.
pub open spec fn after_join_attempt(
    index: int,
    candidates: int,
    attempt: Attempt,
) -> Result<Option<int>, ApiErrorV> {
    match attempt {
        Attempt::Accepted => Ok(None),
        Attempt::Refused { status, text } => if status == Some(403u16) {
            Err(forbidden(text@))
        } else if index + 1 < candidates {
            Ok(Some(index + 1))
        } else {
            Err(bad_gateway("remote join failed: "@ + text@))
        },
    }
}

/// What follows an attempt to knock. The resident's own verdict is passed on
/// where a client acts on it.
pub open spec fn after_knock_attempt(
    index: int,
    candidates: int,
    attempt: Attempt,
) -> Result<Option<int>, ApiErrorV> {
    match attempt {
        Attempt::Accepted => Ok(None),
        Attempt::Refused { status, text } => if status == Some(403u16) {
            Err(forbidden("knock rejected: "@ + text@))
        } else if index + 1 < candidates {
            Ok(Some(index + 1))
        } else if status == Some(404u16) {
            Err(not_found("Unknown room"@))
        } else {
            Err(bad_gateway("remote knock failed: "@ + text@))
        },
    }
}

/// `n` says what `want` says.
pub open spec fn follows(n: NextAttempt, want: Result<Option<int>, ApiErrorV>) -> bool {
    match want {
        Ok(None) => n is Accepted,
        Ok(Some(i)) => n matches NextAttempt::Ask { index } && index == i,
        Err(e) => n matches NextAttempt::Fail(x) && x@ == e,
    }
}

/// Takes the answer of the server at `index` to a join.
pub fn join_remote(candidates: &Vec<String>, index: usize, attempt: Attempt) -> (r: NextAttempt)
    requires
        index < candidates.len(),
    ensures
        follows(r, after_join_attempt(index as int, candidates@.len() as int, attempt)),
{
    match attempt {
        Attempt::Accepted => NextAttempt::Accepted,
        Attempt::Refused { status, text } => {
            let denied = match status {
                Some(s) => s == 403,
                None => false,
            };
            if denied {
                NextAttempt::Fail(ApiError::forbidden(text.as_str()))
            } else if index + 1 < candidates.len() {
                NextAttempt::Ask { index: index + 1 }
            } else {
                let message = join_texts("remote join failed: ", text.as_str());
                NextAttempt::Fail(ApiError::new(502, "M_UNKNOWN", message.as_str()))
            }
        },
    }
}

/// Takes the answer of the server at `index` to a knock.
pub fn knock_remote(candidates: &Vec<String>, index: usize, attempt: Attempt) -> (r: NextAttempt)
    requires
        index < candidates.len(),
    ensures
        follows(r, after_knock_attempt(index as int, candidates@.len() as int, attempt)),
{
    match attempt {
        Attempt::Accepted => NextAttempt::Accepted,
        Attempt::Refused { status, text } => {
            let code: u16 = match status {
                Some(s) => s,
                None => 0,
            };
            if code == 403 {
                let message = join_texts("knock rejected: ", text.as_str());
                NextAttempt::Fail(ApiError::forbidden(message.as_str()))
            } else if index + 1 < candidates.len() {
                NextAttempt::Ask { index: index + 1 }
            } else if code == 404 {
                NextAttempt::Fail(ApiError::not_found("Unknown room"))
            } else {
                let message = join_texts("remote knock failed: ", text.as_str());
                NextAttempt::Fail(ApiError::new(502, "M_UNKNOWN", message.as_str()))
            }
        },
    }
}

/// The stripped member event of a user who knocks.
pub open spec fn knock_member(user: Seq<char>, content: Option<JsonV>) -> JsonV {
    JsonV::Object(
        no_fields().insert("type"@, JsonV::Str("m.room.member"@)).insert(
            "state_key"@,
            JsonV::Str(user),
        ).insert("sender"@, JsonV::Str(user)).insert(
            "content"@,
            match content {
                Some(c) => c,
                None => JsonV::Null,
            },
        ),
    )
}

/// The knocker's own stripped member event: it is kept beside what the
/// resident sent, which may lack it.
pub fn knock_member_event(user_id: &str, event: &Json) -> (r: Json)
    ensures
        r@ == knock_member(user_id@, field(event@, "content"@)),
{
    let mut m: Vec<(String, Json)> = Vec::new();
    put_str(&mut m, "type", text_json("m.room.member"));
    put_str(&mut m, "state_key", text_json(user_id));
    put_str(&mut m, "sender", text_json(user_id));
    let content = match event.get("content") {
        Some(c) => c.copy(),
        None => Json::Null,
    };
    put_str(&mut m, "content", content);
    Json::Object(m)
}

// -- what a resident hands over -----------------------------------------------

/// Event IDs referenced under an event's `auth_events`.
pub fn auth_event_ids(ev: &Json) -> (r: Vec<String>)
    ensures
        texts(r@) == strings_in(field(ev@, "auth_events"@)),
{
    read_strings_in(ev.get("auth_events"))
}

/// An event that a resident handed over: its ID where it has one, itself, and
/// whether its signatures verify.
#[derive(Debug)]
pub struct HandedEvent {
    pub event_id: Option<String>,
    pub event: Json,
    pub verified: bool,
}

/// The events that an event is authorised by, where it was handed over. Of two
/// events with one ID the later counts.
pub open spec fn parents_of(events: Seq<HandedEvent>, id: Seq<char>) -> Seq<Seq<char>>
    decreases events.len(),
{
    if events.len() == 0 {
        Seq::empty()
    } else if opt_text(events.last().event_id) == Some(id) {
        strings_in(field(events.last().event@, "auth_events"@))
    } else {
        parents_of(events.drop_last(), id)
    }
}

pub open spec fn auth_roots(join: JsonV) -> Seq<Seq<char>> {
    strings_in(field(join, "auth_events"@))
}

/// Everything that authorises a member of the set is in the set.
pub open spec fn is_closed(events: Seq<HandedEvent>, s: Set<Seq<char>>) -> bool {
    forall|id: Seq<char>, i: int|
        #![trigger s.contains(id), parents_of(events, id)[i]]
        s.contains(id) && 0 <= i < parents_of(events, id).len() ==> s.contains(
            parents_of(events, id)[i],
        )
}

/// The set holds all of the names.
pub open spec fn holds_all(s: Set<Seq<char>>, names: Seq<Seq<char>>) -> bool {
    forall|i: int| 0 <= i < names.len() ==> s.contains(#[trigger] names[i])
}

/// `s` is the auth closure of a join: it holds what authorises the join and
/// whatever authorises its own members, and nothing more.
pub open spec fn is_auth_closure(join: JsonV, events: Seq<HandedEvent>, s: Set<Seq<char>>) -> bool {
    &&& holds_all(s, auth_roots(join))
    &&& is_closed(events, s)
    &&& forall|t: Set<Seq<char>>|
        #![trigger is_closed(events, t)]
        holds_all(t, auth_roots(join)) && is_closed(events, t) ==> s.subset_of(t)
}

fn parents_in(events: &Vec<HandedEvent>, id: &str) -> (r: Vec<String>)
    ensures
        texts(r@) == parents_of(events@, id@),
{
    let mut i: usize = events.len();
    proof {
        assert(events@.take(i as int) =~= events@);
    }
    while i > 0
        invariant
            i <= events.len(),
            parents_of(events@, id@) == parents_of(events@.take(i as int), id@),
        decreases i,
    {
        i -= 1;
        proof {
            assert(events@.take(i + 1).drop_last() =~= events@.take(i as int));
            assert(events@.take(i + 1).last() == events@[i as int]);
        }
        let same = match &events[i].event_id {
            Some(x) => same_text(x.as_str(), id),
            None => false,
        };
        if same {
            return auth_event_ids(&events[i].event);
        }
    }
    let none: Vec<String> = Vec::new();
    proof {
        assert(events@.take(0) =~= Seq::<HandedEvent>::empty());
        assert(texts(none@) =~= Seq::<Seq<char>>::empty());
    }
    none
}

/// Every ID that some event names.
spec fn named_ids(events: Seq<HandedEvent>) -> Set<Seq<char>>
    decreases events.len(),
{
    if events.len() == 0 {
        Set::empty()
    } else {
        named_ids(events.drop_last()).union(
            strings_in(field(events.last().event@, "auth_events"@)).to_set(),
        )
    }
}

proof fn lemma_named_ids(events: Seq<HandedEvent>, id: Seq<char>)
    ensures
        named_ids(events).finite(),
        forall|i: int|
            0 <= i < parents_of(events, id).len() ==> named_ids(events).contains(
                #[trigger] parents_of(events, id)[i],
            ),
    decreases events.len(),
{
    if events.len() > 0 {
        lemma_named_ids(events.drop_last(), id);
        let here = strings_in(field(events.last().event@, "auth_events"@));
        vstd::seq_lib::seq_to_set_is_finite(here);
        assert forall|i: int| 0 <= i < parents_of(events, id).len() implies named_ids(
            events,
        ).contains(#[trigger] parents_of(events, id)[i]) by {
            if opt_text(events.last().event_id) == Some(id) {
                assert(here.contains(here[i]));
            } else {
                assert(parents_of(events, id)[i] == parents_of(events.drop_last(), id)[i]);
            }
        }
    }
}

/// The transitive `auth_events` closure of `join` over `events` — the set
/// that must verify for the join to be trustworthy. Events reachable only
/// from *other* returned events (not from the join) are not in it, so an
/// unverifiable event dragged into the resident's auth chain by an unrelated
/// membership doesn't block the join.
pub fn join_auth_closure(join: &Json, events: &Vec<HandedEvent>) -> (r: Vec<String>)
    ensures
        is_auth_closure(join@, events@, texts(r@).to_set()),
        texts(r@).no_duplicates(),
{
    let mut closure: Vec<String> = Vec::new();
    let mut stack = auth_event_ids(join);
    let ghost roots = texts(stack@);
    let ghost universe = roots.to_set().union(named_ids(events@));
    proof {
        lemma_named_ids(events@, Seq::empty());
        vstd::seq_lib::seq_to_set_is_finite(roots);
        assert(texts(closure@) =~= Seq::<Seq<char>>::empty());
        assert forall|i: int| 0 <= i < roots.len() implies roots.contains(#[trigger] roots[i]) by {}
        assert(texts(closure@).to_set() =~= Set::empty());
    }
    while stack.len() > 0
        invariant
            roots == auth_roots(join@),
            universe == roots.to_set().union(named_ids(events@)),
            universe.finite(),
            texts(closure@).no_duplicates(),
            forall|i: int|
                0 <= i < texts(closure@).len() ==> universe.contains(#[trigger] texts(closure@)[i]),
            forall|i: int|
                0 <= i < texts(stack@).len() ==> universe.contains(#[trigger] texts(stack@)[i]),
            forall|i: int|
                0 <= i < roots.len() ==> texts(closure@).contains(#[trigger] roots[i]) || texts(
                    stack@,
                ).contains(roots[i]),
            forall|id: Seq<char>, i: int|
                #![trigger texts(closure@).contains(id), parents_of(events@, id)[i]]
                texts(closure@).contains(id) && 0 <= i < parents_of(events@, id).len() ==> texts(
                    closure@,
                ).contains(parents_of(events@, id)[i]) || texts(stack@).contains(
                    parents_of(events@, id)[i],
                ),
            forall|t: Set<Seq<char>>|
                #![trigger is_closed(events@, t)]
                holds_all(t, roots) && is_closed(events@, t) ==> holds_all(t, texts(closure@))
                    && holds_all(t, texts(stack@)),
        decreases universe.len() - closure.len(), stack.len(),
    {
        let ghost old_stack = texts(stack@);
        let ghost old_closure = texts(closure@);
        let id = stack.pop().unwrap();
        let ghost popped = texts(stack@);
        proof {
            assert(old_stack =~= popped.push(id@));
            assert(old_stack[old_stack.len() - 1] == id@);
            assert forall|x: Seq<char>| old_stack.contains(x) implies popped.contains(x) || x
                == id@ by {
                let i = choose|i: int| 0 <= i < old_stack.len() && old_stack[i] == x;
                if i < popped.len() {
                    assert(popped[i] == x);
                }
            }
            lemma_within_universe(old_closure, universe);
        }
        if !list_has(&closure, id.as_str()) {
            let parents = parents_in(events, id.as_str());
            let ghost idv = id@;
            let ghost pv = texts(parents@);
            closure.push(id);
            proof {
                assert(texts(closure@) =~= old_closure.push(idv));
                assert(old_closure.push(idv)[old_closure.len() as int] == idv);
                lemma_named_ids(events@, idv);
            }
            let mut more = parents;
            stack.append(&mut more);
            proof {
                let now = texts(stack@);
                let all = texts(closure@);
                assert(now =~= popped + pv);
                assert(all == old_closure.push(idv));
                assert forall|i: int, j: int| 0 <= i < j < all.len() implies all[i] != all[j] by {
                    if j == old_closure.len() {
                        assert(old_closure.contains(old_closure[i]));
                    }
                }
                assert forall|x: Seq<char>| old_closure.contains(x) implies all.contains(x) by {
                    let i = choose|i: int| 0 <= i < old_closure.len() && old_closure[i] == x;
                    assert(all[i] == x);
                }
                assert(all.contains(idv));
                assert forall|x: Seq<char>| popped.contains(x) implies now.contains(x) by {
                    let i = choose|i: int| 0 <= i < popped.len() && popped[i] == x;
                    assert(now[i] == x);
                }
                assert forall|i: int| 0 <= i < pv.len() implies now.contains(#[trigger] pv[i]) by {
                    assert(now[popped.len() + i] == pv[i]);
                }
                assert forall|x: Seq<char>| all.contains(x) implies old_closure.contains(x) || x
                    == idv by {
                    let i = choose|i: int| 0 <= i < all.len() && all[i] == x;
                    if i < old_closure.len() {
                        assert(old_closure[i] == x);
                    }
                }
                assert forall|i: int| 0 <= i < now.len() implies universe.contains(
                    #[trigger] now[i],
                ) by {
                    if i < popped.len() {
                        assert(now[i] == old_stack[i]);
                    } else {
                        assert(now[i] == parents_of(events@, idv)[i - popped.len()]);
                    }
                }
                assert forall|i: int| 0 <= i < all.len() implies universe.contains(
                    #[trigger] all[i],
                ) by {
                    if i < old_closure.len() {
                        assert(all[i] == old_closure[i]);
                    } else {
                        assert(all[i] == old_stack[old_stack.len() - 1]);
                    }
                }
                assert forall|i: int| 0 <= i < roots.len() implies all.contains(
                    #[trigger] roots[i],
                ) || now.contains(roots[i]) by {
                    assert(old_closure.contains(roots[i]) || old_stack.contains(roots[i]));
                }
                assert forall|x: Seq<char>, i: int|
                    #![trigger all.contains(x), parents_of(events@, x)[i]]
                    all.contains(x) && 0 <= i < parents_of(events@, x).len() implies all.contains(
                    parents_of(events@, x)[i],
                ) || now.contains(parents_of(events@, x)[i]) by {
                    if x == idv {
                        assert(now.contains(pv[i]));
                    } else {
                        assert(old_closure.contains(x));
                        let y = parents_of(events@, x)[i];
                        assert(old_closure.contains(y) || old_stack.contains(y));
                    }
                }
                assert forall|t: Set<Seq<char>>|
                    #![trigger is_closed(events@, t)]
                    holds_all(t, roots) && is_closed(events@, t) implies holds_all(t, all)
                    && holds_all(t, now) by {
                    assert(holds_all(t, old_closure) && holds_all(t, old_stack));
                    assert(t.contains(old_stack[old_stack.len() - 1]));
                    assert forall|i: int| 0 <= i < all.len() implies t.contains(#[trigger] all[i]) by {
                        if i < old_closure.len() {
                            assert(all[i] == old_closure[i]);
                        }
                    }
                    assert forall|i: int| 0 <= i < now.len() implies t.contains(#[trigger] now[i]) by {
                        if i < popped.len() {
                            assert(now[i] == old_stack[i]);
                        } else {
                            assert(t.contains(idv));
                            assert(now[i] == parents_of(events@, idv)[i - popped.len()]);
                        }
                    }
                }
                lemma_within_universe(all, universe);
            }
        } else {
            proof {
                let all = texts(closure@);
                assert(all == old_closure);
                assert(all.contains(id@));
                assert forall|i: int| 0 <= i < popped.len() implies universe.contains(
                    #[trigger] popped[i],
                ) by {
                    assert(popped[i] == old_stack[i]);
                }
                assert forall|t: Set<Seq<char>>|
                    #![trigger is_closed(events@, t)]
                    holds_all(t, roots) && is_closed(events@, t) implies holds_all(t, all)
                    && holds_all(t, popped) by {
                    assert(holds_all(t, old_stack));
                    assert forall|i: int| 0 <= i < popped.len() implies t.contains(
                        #[trigger] popped[i],
                    ) by {
                        assert(popped[i] == old_stack[i]);
                    }
                }
            }
        }
    }
    proof {
        let all = texts(closure@);
        let s = all.to_set();
        assert(texts(stack@) =~= Seq::<Seq<char>>::empty());
        assert forall|i: int| 0 <= i < auth_roots(join@).len() implies s.contains(
            #[trigger] auth_roots(join@)[i],
        ) by {
            assert(all.contains(roots[i]));
        }
        assert forall|id: Seq<char>, i: int|
            #![trigger s.contains(id), parents_of(events@, id)[i]]
            s.contains(id) && 0 <= i < parents_of(events@, id).len() implies s.contains(
            parents_of(events@, id)[i],
        ) by {
            assert(all.contains(id));
        }
        assert forall|t: Set<Seq<char>>|
            #![trigger is_closed(events@, t)]
            holds_all(t, auth_roots(join@)) && is_closed(events@, t) implies s.subset_of(t) by {
            assert(holds_all(t, all));
            assert forall|x: Seq<char>| s.contains(x) implies t.contains(x) by {
                let i = choose|i: int| 0 <= i < all.len() && all[i] == x;
                assert(t.contains(all[i]));
            }
        }
    }
    closure
}

proof fn lemma_within_universe(list: Seq<Seq<char>>, universe: Set<Seq<char>>)
    requires
        list.no_duplicates(),
        universe.finite(),
        forall|i: int| 0 <= i < list.len() ==> universe.contains(#[trigger] list[i]),
    ensures
        list.len() <= universe.len(),
{
    list.unique_seq_to_set();
    assert(list.to_set().subset_of(universe)) by {
        assert forall|x: Seq<char>| list.to_set().contains(x) implies universe.contains(x) by {
            let i = choose|i: int| 0 <= i < list.len() && list[i] == x;
            assert(universe.contains(list[i]));
        }
    }
    vstd::set_lib::lemma_len_subset(list.to_set(), universe);
}

/// Does every event that authorises the join verify? An event without an ID
/// counts under the empty ID.
pub open spec fn critical_verify(critical: Seq<Seq<char>>, events: Seq<HandedEvent>) -> bool {
    forall|i: int|
        0 <= i < events.len() && critical.contains(
            match (#[trigger] events[i]).event_id {
                Some(id) => id@,
                None => Seq::empty(),
            },
        ) ==> events[i].verified
}

/// A resident's state is not trusted for authenticity: the events that
/// authorise our join must verify, or a lying resident could seed forged
/// state.
pub fn check_critical(critical: &Vec<String>, events: &Vec<HandedEvent>) -> (r: Result<
    (),
    ApiError,
>)
    ensures
        critical_verify(texts(critical@), events@) ==> r is Ok,
        !critical_verify(texts(critical@), events@) ==> (r matches Err(e) && e@ == bad_gateway(
            "remote join returned auth-chain state that failed signature verification"@,
        )),
{
    let mut i: usize = 0;
    proof {
        reveal_strlit("");
        assert(""@ =~= Seq::empty());
    }
    while i < events.len()
        invariant
            i <= events.len(),
            ""@ == Seq::<char>::empty(),
            forall|j: int|
                0 <= j < i && texts(critical@).contains(
                    match (#[trigger] events@[j]).event_id {
                        Some(id) => id@,
                        None => Seq::empty(),
                    },
                ) ==> events@[j].verified,
        decreases events.len() - i,
    {
        let needed = match &events[i].event_id {
            Some(id) => list_has(critical, id.as_str()),
            None => list_has(critical, ""),
        };
        if needed && !events[i].verified {
            proof {
                assert(!events@[i as int].verified);
            }
            return Err(
                ApiError::new(
                    502,
                    "M_UNKNOWN",
                    "remote join returned auth-chain state that failed signature verification",
                ),
            );
        }
        i += 1;
    }
    Ok(())
}

/// The events that are kept: those that verify, in order.
pub open spec fn verified_events(events: Seq<HandedEvent>) -> Seq<JsonV>
    decreases events.len(),
{
    if events.len() == 0 {
        Seq::empty()
    } else {
        let init = verified_events(events.drop_last());
        if events.last().verified {
            init.push(events.last().event@)
        } else {
            init
        }
    }
}

/// The events that verify among those from place `from` up to `to`.
fn keep_between(events: &Vec<HandedEvent>, from: usize, to: usize) -> (r: Vec<Json>)
    requires
        from <= to <= events.len(),
    ensures
        items_view(r@) == verified_events(events@.subrange(from as int, to as int)),
{
    let mut out: Vec<Json> = Vec::new();
    let mut i: usize = from;
    while i < to
        invariant
            from <= i <= to <= events.len(),
            items_view(out@) == verified_events(events@.subrange(from as int, i as int)),
        decreases to - i,
    {
        proof {
            let next = events@.subrange(from as int, i + 1);
            assert(next.drop_last() =~= events@.subrange(from as int, i as int));
            assert(next.last() == events@[i as int]);
        }
        if events[i].verified {
            let j = events[i].event.copy();
            proof {
                assert(out@.push(j).drop_last() =~= out@);
            }
            out.push(j);
        }
        i += 1;
    }
    out
}

/// Keeps the events that verify. The others — a room name, an unrelated
/// membership signed by a key we cannot fetch — are dropped, not grounds to
/// refuse the join.
pub fn keep_verified(events: &Vec<HandedEvent>) -> (r: Vec<Json>)
    ensures
        items_view(r@) == verified_events(events@),
{
    proof {
        assert(events@.subrange(0, events@.len() as int) =~= events@);
    }
    keep_between(events, 0, events.len())
}

/// Is the event with this ID among those that authorise the join? Those are the
/// ones in every set that holds what the join names, and with an event all that
/// it names.
pub open spec fn authorises(join: JsonV, events: Seq<HandedEvent>, id: Seq<char>) -> bool {
    forall|t: Set<Seq<char>>|
        #![trigger is_closed(events, t)]
        holds_all(t, auth_roots(join)) && is_closed(events, t) ==> t.contains(id)
}

/// The ID under which a handed event counts: an event without one has the empty
/// ID.
pub open spec fn handed_id(e: HandedEvent) -> Seq<char> {
    match e.event_id {
        Some(id) => id@,
        None => Seq::empty(),
    }
}

/// Does every handed event that authorises the join verify?
pub open spec fn join_is_authentic(join: JsonV, events: Seq<HandedEvent>) -> bool {
    forall|i: int|
        0 <= i < events.len() && authorises(join, events, handed_id(#[trigger] events[i]))
            ==> events[i].verified
}

/// What is imported of a room that we join through a resident.
#[derive(Debug)]
pub struct KeptEvents {
    pub state: Vec<Json>,
    pub auth_chain: Vec<Json>,
}

/// What is imported of the state and the auth chain with which a resident answered
/// our join. The events of either that authorise the join must verify: where one
/// does not, the join fails and nothing is imported. Of the others those that do
/// not verify are dropped, and the rest is kept in order, each where it was.
pub fn accept_handed(
    join: &Json,
    state: Vec<HandedEvent>,
    auth_chain: Vec<HandedEvent>,
) -> (r: Result<KeptEvents, ApiError>)
    ensures
        join_is_authentic(join@, state@ + auth_chain@) ==> {
            &&& r matches Ok(kept)
            &&& items_view(kept.state@) == verified_events(state@)
            &&& items_view(kept.auth_chain@) == verified_events(auth_chain@)
        },
        !join_is_authentic(join@, state@ + auth_chain@) ==> (r matches Err(e) && e@ == bad_gateway(
            "remote join returned auth-chain state that failed signature verification"@,
        )),
{
    let ghost (first, second) = (state@, auth_chain@);
    let n = state.len();
    let mut events = state;
    let mut rest = auth_chain;
    events.append(&mut rest);
    proof {
        assert(events@ =~= first + second);
    }
    let critical = join_auth_closure(join, &events);
    proof {
        let all = texts(critical@);
        assert forall|id: Seq<char>| all.contains(id) <==> #[trigger] authorises(
            join@,
            events@,
            id,
        ) by {
            lemma_closure_authorises(join@, events@, all.to_set(), id);
            assert(all.contains(id) == all.to_set().contains(id));
        }
        assert forall|i: int| 0 <= i < events@.len() implies all.contains(
            match (#[trigger] events@[i]).event_id {
                Some(id) => id@,
                None => Seq::empty(),
            },
        ) == authorises(join@, events@, handed_id(events@[i])) by {}
        if critical_verify(all, events@) {
            assert(join_is_authentic(join@, events@));
        } else {
            assert(!join_is_authentic(join@, events@));
        }
        assert(events@.subrange(0, n as int) =~= first);
        assert(events@.subrange(n as int, events@.len() as int) =~= second);
    }
    match check_critical(&critical, &events) {
        Ok(()) => Ok(
            KeptEvents {
                state: keep_between(&events, 0, n),
                auth_chain: keep_between(&events, n, events.len()),
            },
        ),
        Err(e) => Err(e),
    }
}

proof fn lemma_closure_authorises(
    join: JsonV,
    events: Seq<HandedEvent>,
    s: Set<Seq<char>>,
    id: Seq<char>,
)
    requires
        is_auth_closure(join, events, s),
    ensures
        s.contains(id) <==> authorises(join, events, id),
{
    if authorises(join, events, id) {
        assert(holds_all(s, auth_roots(join)));
        assert(is_closed(events, s));
    }
}

// -- joining ------------------------------------------------------------------

/// What a restricted join rule says of a join through our own copy of a room.
#[derive(Debug)]
pub enum RestrictedAuth {
    NotNeeded,
    /// A local member who authorises the join.
    Authorised(String),
    FailsConditions,
    CannotValidate,
    CannotGrant,
}

/// How a join is made.
#[derive(Debug)]
pub enum JoinRoute {
    /// Through our own copy of the room, stamped with the authoriser.
    Local { authoriser: Option<String> },
    /// Through another server.
    Remote,
    Refuse(ApiError),
}

/// `JoinRoute` as a value.
pub enum JoinRouteV {
    Local { authoriser: Option<Seq<char>> },
    Remote,
    Refuse(ApiErrorV),
}

impl View for JoinRoute {
    type V = JoinRouteV;

    open spec fn view(&self) -> JoinRouteV {
        match self {
            JoinRoute::Local { authoriser } => JoinRouteV::Local {
                authoriser: opt_text(*authoriser),
            },
            JoinRoute::Remote => JoinRouteV::Remote,
            JoinRoute::Refuse(e) => JoinRouteV::Refuse(e@),
        }
    }
}

/// How a join is made: a room that we host and can authorise locally, any
/// other through a resident.
pub open spec fn join_route(hosted: bool, verdict: RestrictedAuth) -> JoinRouteV {
    if hosted {
        match verdict {
            RestrictedAuth::NotNeeded => JoinRouteV::Local { authoriser: None },
            RestrictedAuth::Authorised(u) => JoinRouteV::Local { authoriser: Some(u@) },
            RestrictedAuth::FailsConditions => JoinRouteV::Refuse(
                forbidden("You are not permitted to join this room"@),
            ),
            _ => JoinRouteV::Remote,
        }
    } else {
        JoinRouteV::Remote
    }
}

/// How a join is made.
pub fn join_with_body(hosted: bool, verdict: RestrictedAuth) -> (r: JoinRoute)
    ensures
        r@ == join_route(hosted, verdict),
{
    if !hosted {
        return JoinRoute::Remote;
    }
    match verdict {
        RestrictedAuth::NotNeeded => JoinRoute::Local { authoriser: None },
        RestrictedAuth::Authorised(u) => JoinRoute::Local { authoriser: Some(u) },
        RestrictedAuth::FailsConditions => JoinRoute::Refuse(
            ApiError::forbidden("You are not permitted to join this room"),
        ),
        RestrictedAuth::CannotValidate => JoinRoute::Remote,
        RestrictedAuth::CannotGrant => JoinRoute::Remote,
    }
}

/// What follows a failed remote join: with no route to a resident, a room that
/// we know but do not host is rejoined through our own copy.
pub fn after_remote_join(hosted: bool, meta_exists: bool, e: ApiError) -> (r: JoinRoute)
    ensures
        r@ == (if !hosted && meta_exists && e.status == 404 {
            JoinRouteV::Local { authoriser: None }
        } else {
            JoinRouteV::Refuse(e@)
        }),
{
    if !hosted && meta_exists && e.status == 404 {
        JoinRoute::Local { authoriser: None }
    } else {
        JoinRoute::Refuse(e)
    }
}

/// Splits a join body: the reason, and the custom member-event content.
pub fn join_body(body: Vec<(String, Json)>) -> (r: (Option<String>, Vec<(String, Json)>))
    ensures
        opt_text(r.0) == as_text(entry(fields_view(body@), "reason"@)),
        fields_view(r.1@) == fields_view(body@).remove("reason"@).remove("third_party_signed"@),
{
    let reason: Option<String> = match get(&body, "reason") {
        Some(j) => match j.as_str() {
            Some(s) => Some(s.to_owned()),
            None => None,
        },
        None => None,
    };
    (reason, remove(remove(body, "reason"), "third_party_signed"))
}

/// Joining twice is a no-op: the existing membership event stands.
pub fn local_pipeline_join(state: &Vec<StateEvent>, user_id: &str) -> (send: bool)
    ensures
        send == (membership(state@, user_id@) != "join"@),
{
    let m = membership_in(state, user_id);
    !same_text(m.as_str(), "join")
}

/// What a path names: a room, or an alias of ours or of another server.
#[derive(Debug)]
pub enum RoomRef {
    Room,
    LocalAlias,
    RemoteAlias,
}

/// What a path names. A remote alias is resolved through the aliasing server's
/// directory; a local alias from our own table.
pub fn join_by_id_or_alias(id_or_alias: &str, our_name: &str) -> (r: Result<RoomRef, ApiError>)
    ensures
        !is_room_or_alias(id_or_alias@) ==> (r matches Err(e) && e@ == invalid_param(
            "room_id_or_alias: "@ + room_or_alias_fault(id_or_alias@),
        )),
        is_room_or_alias(id_or_alias@) ==> match r {
            Ok(RoomRef::Room) => id_or_alias@[0] == '!',
            Ok(RoomRef::LocalAlias) => id_or_alias@[0] == '#' && server_in(id_or_alias@) == Some(
                our_name@,
            ),
            Ok(RoomRef::RemoteAlias) => id_or_alias@[0] == '#' && server_in(id_or_alias@) != Some(
                our_name@,
            ),
            Err(_) => false,
        },
{
    match check_room_or_alias(id_or_alias) {
        Ok(()) => {},
        Err(t) => {
            let message = join_texts("room_id_or_alias: ", t.as_str());
            return Err(ApiError::invalid_param(message.as_str()));
        },
    }
    let chars = chars_of(id_or_alias);
    if chars.len() > 0 && chars[0] == '!' {
        return Ok(RoomRef::Room);
    }
    let ours = match server_part(id_or_alias) {
        Some(s) => same_text(s.as_str(), our_name),
        None => false,
    };
    if ours {
        Ok(RoomRef::LocalAlias)
    } else {
        Ok(RoomRef::RemoteAlias)
    }
}

/// The room ID of a `/join` path.
pub fn join_room(room_id: &str) -> (r: Result<(), ApiError>)
    ensures
        is_room_id(room_id@) ==> r is Ok,
        !is_room_id(room_id@) ==> (r matches Err(e) && e@ == invalid_param(
            "room_id: "@ + room_id_fault(room_id@),
        )),
{
    match check_room_id(room_id) {
        Ok(()) => Ok(()),
        Err(t) => Err(ApiError::invalid_param(join_texts("room_id: ", t.as_str()).as_str())),
    }
}

// -- leaving, kicking, inviting -----------------------------------------------

/// Is a leave the rejection of an invite to a room that we do not host?
pub fn leave_room(hosted: bool, pending: &Option<String>) -> (remote: bool)
    ensures
        remote == (!hosted && opt_text(*pending) == Some("invite"@)),
{
    if hosted {
        return false;
    }
    match pending {
        Some(m) => same_text(m.as_str(), "invite"),
        None => false,
    }
}

/// The server to leave through: the inviting user's, else the one in the room
/// ID.
pub open spec fn leave_server(sender: Seq<char>, resident: Option<Seq<char>>) -> Option<Seq<char>> {
    if is_user_id(sender) {
        server_in(sender)
    } else {
        resident
    }
}

/// The server through which an invite is rejected.
pub fn leave_remote(federation: bool, invite_sender: &str, resident: Option<String>) -> (r: Result<
    String,
    ApiError,
>)
    ensures
        !federation ==> (r matches Err(e) && e@ == forbidden("Federation is not configured"@)),
        federation ==> match leave_server(invite_sender@, opt_text(resident)) {
            Some(s) => r matches Ok(d) && d@ == s,
            None => r matches Err(e) && e@ == not_found(
                "Cannot determine a server to leave through"@,
            ),
        },
{
    if !federation {
        return Err(ApiError::forbidden("Federation is not configured"));
    }
    let destination: Option<String> = if check_user_id(invite_sender).is_ok() {
        server_part(invite_sender)
    } else {
        resident
    };
    match destination {
        Some(d) => Ok(d),
        None => Err(ApiError::not_found("Cannot determine a server to leave through")),
    }
}

/// A room can only be forgotten by someone who is not in it.
pub fn forget_room(current: &Option<String>) -> (r: Result<(), ApiError>)
    ensures
        opt_text(*current) != Some("join"@) ==> r is Ok,
        opt_text(*current) == Some("join"@) ==> (r matches Err(e) && e@ == api_error(
            400,
            "M_UNKNOWN"@,
            "You must leave the room before forgetting it"@,
        )),
{
    let joined = match current {
        Some(m) => same_text(m.as_str(), "join"),
        None => false,
    };
    if joined {
        Err(ApiError::new(400, "M_UNKNOWN", "You must leave the room before forgetting it"))
    } else {
        Ok(())
    }
}

/// Is a membership one that a kick can end?
pub open spec fn can_be_kicked(m: Seq<char>) -> bool {
    m == "join"@ || m == "invite"@ || m == "knock"@
}

/// Auth rules alone would accept a redundant leave; kicking someone who is not
/// in the room (never present, or already left) is forbidden.
pub fn kick_user(state: &Vec<StateEvent>, target: &str) -> (r: Result<(), ApiError>)
    ensures
        can_be_kicked(membership(state@, target@)) ==> r is Ok,
        !can_be_kicked(membership(state@, target@)) ==> (r matches Err(e) && e@ == forbidden(
            "Cannot kick a user who is not in the room"@,
        )),
{
    let m = membership_in(state, target);
    if same_text(m.as_str(), "join") || same_text(m.as_str(), "invite") || same_text(
        m.as_str(),
        "knock",
    ) {
        Ok(())
    } else {
        Err(ApiError::forbidden("Cannot kick a user who is not in the room"))
    }
}

/// Must an invite be co-signed by another server? A user on another server
/// must, before we can put it in the room.
pub fn invite_user(invitee: &str, our_name: &str) -> (remote: bool)
    ensures
        remote == (server_in(invitee@) != Some(our_name@)),
{
    match server_part(invitee) {
        Some(s) => !same_text(s.as_str(), our_name),
        None => true,
    }
}

/// The kinds of state that go with a federated invite.
pub open spec fn invite_state_types() -> Seq<Seq<char>> {
    seq![
        "m.room.create"@,
        "m.room.join_rules"@,
        "m.room.canonical_alias"@,
        "m.room.name"@,
        "m.room.avatar"@,
        "m.room.topic"@,
        "m.room.encryption"@,
    ]
}

/// The stripped state for the first `n` kinds.
pub open spec fn invite_state(state: Seq<StateEvent>, n: int) -> Seq<JsonV>
    decreases n,
{
    if n <= 0 {
        Seq::empty()
    } else {
        let init = invite_state(state, n - 1);
        match served_state(state, invite_state_types()[n - 1]) {
            Some(JsonV::Object(raw)) => init.push(JsonV::Object(stripped(raw))),
            _ => init,
        }
    }
}

/// Stripped current-room state to accompany a federated invite: the create
/// event plus the identifying state clients render on an invite.
pub fn invite_room_state(state: &Vec<StateEvent>) -> (r: Vec<Json>)
    ensures
        items_view(r@) == invite_state(state@, invite_state_types().len() as int),
{
    let mut types: Vec<String> = Vec::new();
    types.push("m.room.create".to_owned());
    types.push("m.room.join_rules".to_owned());
    types.push("m.room.canonical_alias".to_owned());
    types.push("m.room.name".to_owned());
    types.push("m.room.avatar".to_owned());
    types.push("m.room.topic".to_owned());
    types.push("m.room.encryption".to_owned());
    proof {
        assert(texts(types@) =~= invite_state_types());
    }
    let mut out: Vec<Json> = Vec::new();
    let mut i: usize = 0;
    while i < types.len()
        invariant
            i <= types.len(),
            texts(types@) == invite_state_types(),
            items_view(out@) == invite_state(state@, i as int),
        decreases types.len() - i,
    {
        proof {
            assert(texts(types@)[i as int] == types@[i as int]@);
            assert(texts(types@).len() == types@.len());
            assert(invite_state_types()[i as int] == types@[i as int]@);
        }
        let ghost init = invite_state(state@, i as int);
        match state_event_in(state, types[i].as_str()) {
            Some(j) => match j.as_object() {
                Some(raw) => {
                    let s = Json::Object(stripped_event(raw));
                    let ghost sv = s@;
                    proof {
                        assert(out@.push(s).drop_last() =~= out@);
                        assert(items_view(out@.push(s)) == init.push(sv));
                        assert(sv == JsonV::Object(stripped(fields_view(raw@))));
                        assert(invite_state(state@, i + 1) == init.push(sv));
                    }
                    out.push(s);
                },
                None => {
                    proof {
                        assert(invite_state(state@, i + 1) == init);
                    }
                },
            },
            None => {
                proof {
                    assert(invite_state(state@, i + 1) == init);
                }
            },
        }
        i += 1;
    }
    proof {
        assert(texts(types@).len() == types@.len());
    }
    out
}

/// The path of a federated invite.
pub open spec fn invite_path_text(room_id: Seq<char>, event_id: Seq<char>) -> Seq<char> {
    "/_matrix/federation/v2/invite/"@ + percent_encoded(room_id).push('/') + percent_encoded(
        event_id,
    )
}

/// The path of a federated invite.
pub fn invite_path(room_id: &str, event_id: &str) -> (r: String)
    ensures
        r@ == invite_path_text(room_id@, event_id@),
{
    let mut out = "/_matrix/federation/v2/invite/".to_owned();
    out.append(encode_segment(room_id).as_str());
    out.push('/');
    out.append(encode_segment(event_id).as_str());
    proof {
        assert(out@ =~= invite_path_text(room_id@, event_id@));
    }
    out
}

/// The body of a federated invite.
pub fn invite_body(version: &str, event: Json, room_state: Vec<Json>) -> (r: Json)
    ensures
        r@ == JsonV::Object(
            no_fields().insert("room_version"@, JsonV::Str(version@)).insert(
                "event"@,
                event@,
            ).insert("invite_room_state"@, JsonV::Array(items_view(room_state@))),
        ),
{
    let mut m: Vec<(String, Json)> = Vec::new();
    put_str(&mut m, "room_version", text_json(version));
    put_str(&mut m, "event", event);
    put_str(&mut m, "invite_room_state", Json::Array(room_state));
    Json::Object(m)
}

/// The co-signed event in the answer to a federated invite: an object that
/// canonical JSON can hold.
pub fn invite_remote(response: &Json) -> (r: Result<Json, ApiError>)
    ensures
        match field(response@, "event"@) {
            Some(e) => if e is Object && is_canonical(e) {
                r matches Ok(j) && j@ == e
            } else {
                r matches Err(x) && x@ == bad_gateway("invite response missing signed event"@)
            },
            None => r matches Err(x) && x@ == bad_gateway(
                "invite response missing signed event"@,
            ),
        },
{
    match response.get("event") {
        Some(j) => if j.as_object().is_some() && canonical(j) {
            Ok(j.copy())
        } else {
            Err(ApiError::new(502, "M_UNKNOWN", "invite response missing signed event"))
        },
        None => Err(ApiError::new(502, "M_UNKNOWN", "invite response missing signed event")),
    }
}

// -- membership lists ---------------------------------------------------------

/// A membership that an imported room brings.
#[derive(Debug)]
pub struct MembershipChange {
    pub user_id: String,
    pub membership: String,
    pub event_id: String,
    pub sender: String,
}

/// `MembershipChange` as a value.
pub struct MembershipChangeV {
    pub user_id: Seq<char>,
    pub membership: Seq<char>,
    pub event_id: Seq<char>,
    pub sender: Seq<char>,
}

impl View for MembershipChange {
    type V = MembershipChangeV;

    open spec fn view(&self) -> MembershipChangeV {
        MembershipChangeV {
            user_id: self.user_id@,
            membership: self.membership@,
            event_id: self.event_id@,
            sender: self.sender@,
        }
    }
}

/// The change that a state entry stands for: member events with a readable
/// membership.
pub open spec fn change_of(e: StateEvent) -> Option<MembershipChangeV> {
    if e.event_type@ == "m.room.member"@ && !e.rejected && e.event is Some {
        match as_text(field2(e.event->0@, "content"@, "membership"@)) {
            Some(m) => Some(
                MembershipChangeV {
                    user_id: e.state_key@,
                    membership: m,
                    event_id: e.event_id@,
                    sender: match as_text(field(e.event->0@, "sender"@)) {
                        Some(s) => s,
                        None => Seq::empty(),
                    },
                },
            ),
            None => None,
        }
    } else {
        None
    }
}

/// The changes that a state stands for.
pub open spec fn changes_of(state: Seq<StateEvent>) -> Seq<MembershipChangeV>
    decreases state.len(),
{
    if state.len() == 0 {
        Seq::empty()
    } else {
        let init = changes_of(state.drop_last());
        match change_of(state.last()) {
            Some(c) => init.push(c),
            None => init,
        }
    }
}

fn change_in(e: &StateEvent) -> (r: Option<MembershipChange>)
    ensures
        match change_of(*e) {
            Some(c) => r matches Some(x) && x@ == c,
            None => r is None,
        },
{
    if !same_text(e.event_type.as_str(), "m.room.member") || e.rejected {
        return None;
    }
    match &e.event {
        Some(j) => match j.get2("content", "membership") {
            Some(m) => match m.as_str() {
                Some(m) => {
                    let sender = match j.get_str("sender") {
                        Some(s) => s.to_owned(),
                        None => String::new(),
                    };
                    Some(
                        MembershipChange {
                            user_id: e.state_key.as_str().to_owned(),
                            membership: m.to_owned(),
                            event_id: e.event_id.as_str().to_owned(),
                            sender,
                        },
                    )
                },
                None => None,
            },
            None => None,
        },
        None => None,
    }
}

/// The memberships of an imported room's current members: the import stores
/// them off-timeline, where the change stream never sees them.
pub fn project_imported_members(state: &Vec<StateEvent>) -> (r: Vec<MembershipChange>)
    ensures
        r@.map_values(|c: MembershipChange| c@) == changes_of(state@),
{
    let mut out: Vec<MembershipChange> = Vec::new();
    let mut i: usize = 0;
    proof {
        assert(out@.map_values(|c: MembershipChange| c@) =~= changes_of(state@.take(0)));
    }
    while i < state.len()
        invariant
            i <= state.len(),
            out@.map_values(|c: MembershipChange| c@) == changes_of(state@.take(i as int)),
        decreases state.len() - i,
    {
        proof {
            assert(state@.take(i + 1).drop_last() =~= state@.take(i as int));
            assert(state@.take(i + 1).last() == state@[i as int]);
        }
        match change_in(&state[i]) {
            Some(c) => {
                proof {
                    assert(out@.push(c).map_values(|c: MembershipChange| c@) =~= out@.map_values(
                        |c: MembershipChange| c@,
                    ).push(c@));
                }
                out.push(c);
            },
            None => {},
        }
        i += 1;
    }
    proof {
        assert(state@.take(state@.len() as int) =~= state@);
    }
    out
}

/// The rooms a user is joined to, of rooms and memberships.
pub open spec fn joined_of(list: Seq<(String, String)>) -> Seq<Seq<char>>
    decreases list.len(),
{
    if list.len() == 0 {
        Seq::empty()
    } else {
        let init = joined_of(list.drop_last());
        if list.last().1@ == "join"@ && is_room_id(list.last().0@) {
            init.push(list.last().0@)
        } else {
            init
        }
    }
}

/// The rooms a user is joined to, of rooms and memberships.
pub fn joined_rooms(memberships: &Vec<(String, String)>) -> (r: Vec<String>)
    ensures
        texts(r@) == joined_of(memberships@),
{
    let mut out: Vec<String> = Vec::new();
    let mut i: usize = 0;
    proof {
        assert(texts(out@) =~= joined_of(memberships@.take(0)));
    }
    while i < memberships.len()
        invariant
            i <= memberships.len(),
            texts(out@) == joined_of(memberships@.take(i as int)),
        decreases memberships.len() - i,
    {
        proof {
            assert(memberships@.take(i + 1).drop_last() =~= memberships@.take(i as int));
            assert(memberships@.take(i + 1).last() == memberships@[i as int]);
        }
        if same_text(memberships[i].1.as_str(), "join") && check_room_id(
            memberships[i].0.as_str(),
        ).is_ok() {
            let s = memberships[i].0.as_str().to_owned();
            proof {
                assert(texts(out@.push(s)) =~= texts(out@).push(s@));
            }
            out.push(s);
        }
        i += 1;
    }
    proof {
        assert(memberships@.take(memberships@.len() as int) =~= memberships@);
    }
    out
}

/// What a knock is sent with: the reason in its body.
pub fn knock_room(body: &Vec<(String, Json)>) -> (reason: Option<String>)
    ensures
        opt_text(reason) == as_text(entry(fields_view(body@), "reason"@)),
{
    match get(body, "reason") {
        Some(j) => match j.as_str() {
            Some(s) => Some(s.to_owned()),
            None => None,
        },
        None => None,
    }
}

// -- what joins, leaves and invites come to ------------------------------------

/// A query names the servers that its pairs name, and no others: `server_name`
/// and `via`, where what they name is not empty.
pub proof fn law_a_query_names_its_servers(query: Seq<char>, server: Seq<char>)
    ensures
        query_hints(Some(query)).contains(server) <==> server.len() > 0 && exists|i: int|
            #![trigger split_on(query, '&')[i]]
            0 <= i < split_on(query, '&').len() && (cut_at(split_on(query, '&')[i],
                '=') matches Some(
                p,
            ) && (p.0 == "server_name"@ || p.0 == "via"@) && percent_decoded(p.1) == server),
        query_hints(None).len() == 0,
{
    lemma_hints_named(split_on(query, '&'), server);
}

proof fn lemma_hints_named(pairs: Seq<Seq<char>>, server: Seq<char>)
    ensures
        hints_of(pairs).contains(server) <==> exists|i: int|
            #![trigger pairs[i]]
            0 <= i < pairs.len() && hint_of(pairs[i]) == Some(server),
    decreases pairs.len(),
{
    if pairs.len() > 0 {
        let init = hints_of(pairs.drop_last());
        let all = hints_of(pairs);
        lemma_hints_named(pairs.drop_last(), server);
        if init.contains(server) {
            let k = choose|k: int| 0 <= k < init.len() && init[k] == server;
            assert(all[k] == server);
            let i = choose|i: int|
                #![trigger pairs.drop_last()[i]]
                0 <= i < pairs.drop_last().len() && hint_of(pairs.drop_last()[i]) == Some(server);
            assert(pairs[i] == pairs.drop_last()[i]);
        }
        if hint_of(pairs.last()) == Some(server) {
            assert(pairs[pairs.len() - 1] == pairs.last());
            if !init.contains(server) {
                assert(all.last() == server);
            }
        }
        if exists|i: int|
            #![trigger pairs[i]]
            0 <= i < pairs.len() && hint_of(pairs[i]) == Some(server) {
            let i = choose|i: int|
                #![trigger pairs[i]]
                0 <= i < pairs.len() && hint_of(pairs[i]) == Some(server);
            if i < pairs.len() - 1 {
                assert(pairs.drop_last()[i] == pairs[i]);
            }
        }
    }
}

/// Whom a join asks: the servers that the client names, where it names another
/// than ours; else the one in the room ID, then those in the room. Nobody else
/// is asked, and none of them is left out.
pub proof fn law_joins_ask_everybody_who_may_help(
    hints: Seq<Seq<char>>,
    resident: Option<Seq<char>>,
    in_room: Seq<Seq<char>>,
    our_name: Seq<char>,
    x: Seq<char>,
)
    ensures
        ({
            let asked = candidates(hints, resident, in_room, our_name);
            if exists|i: int| 0 <= i < hints.len() && #[trigger] hints[i] != our_name {
                asked.contains(x) <==> x != our_name && hints.contains(x)
            } else {
                &&& asked.contains(x) <==> x != our_name && (resident == Some(x)
                    || in_room.contains(x))
                &&& resident is Some && resident->0 != our_name ==> asked.len() > 0 && asked[0]
                    == resident->0
            }
        }),
{
    let none = Seq::<Seq<char>>::empty();
    let named = with_others(none, hints, our_name);
    lemma_who_is_added(none, hints, our_name, x);
    if exists|i: int| 0 <= i < hints.len() && #[trigger] hints[i] != our_name {
        let i = choose|i: int| 0 <= i < hints.len() && #[trigger] hints[i] != our_name;
        lemma_who_is_added(none, hints, our_name, hints[i]);
        assert(hints.contains(hints[i]));
        assert(named.contains(hints[i]));
    } else {
        if named.len() > 0 {
            lemma_who_is_added(none, hints, our_name, named[0]);
            assert(named.contains(named[0]));
            let k = choose|k: int| 0 <= k < hints.len() && hints[k] == named[0];
            assert(hints[k] == our_name);
        }
        let first = with_others(none, opt_seq(resident), our_name);
        lemma_who_is_added(none, opt_seq(resident), our_name, x);
        lemma_who_is_added(first, in_room, our_name, x);
        if resident is Some {
            assert(opt_seq(resident)[0] == resident->0);
            assert(opt_seq(resident).contains(resident->0));
            if resident->0 != our_name {
                reveal_with_fuel(with_others, 2);
                assert(opt_seq(resident).drop_last() =~= none);
                assert(first =~= seq![resident->0]);
                lemma_order_is_kept(first, in_room, our_name);
            }
        }
    }
}

proof fn lemma_who_is_added(
    list: Seq<Seq<char>>,
    more: Seq<Seq<char>>,
    our_name: Seq<char>,
    x: Seq<char>,
)
    ensures
        with_others(list, more, our_name).contains(x) <==> list.contains(x) || (x != our_name
            && more.contains(x)),
    decreases more.len(),
{
    if more.len() > 0 {
        let init = with_others(list, more.drop_last(), our_name);
        let all = with_others(list, more, our_name);
        lemma_who_is_added(list, more.drop_last(), our_name, x);
        if init.contains(x) {
            let k = choose|k: int| 0 <= k < init.len() && init[k] == x;
            assert(all[k] == x);
        }
        if more.drop_last().contains(x) {
            let k = choose|k: int| 0 <= k < more.drop_last().len() && more.drop_last()[k] == x;
            assert(more[k] == x);
        }
        if more.contains(x) && more.last() != x {
            let k = choose|k: int| 0 <= k < more.len() && more[k] == x;
            assert(more.drop_last()[k] == x);
        }
        if more.last() == x {
            assert(more[more.len() - 1] == x);
            if x != our_name && !init.contains(x) {
                assert(all[all.len() - 1] == x);
            }
        }
        if all.contains(x) && !init.contains(x) {
            let k = choose|k: int| 0 <= k < all.len() && all[k] == x;
            assert(k >= init.len() || init[k] == x);
        }
    }
}

proof fn lemma_order_is_kept(list: Seq<Seq<char>>, more: Seq<Seq<char>>, our_name: Seq<char>)
    ensures
        with_others(list, more, our_name).len() >= list.len(),
        forall|i: int|
            0 <= i < list.len() ==> #[trigger] with_others(list, more, our_name)[i] == list[i],
    decreases more.len(),
{
    if more.len() > 0 {
        lemma_order_is_kept(list, more.drop_last(), our_name);
    }
}

/// A room is ours to serve only where we know it; and then where one of our
/// users is in it, where there is no federation, where its ID is ours, or where
/// no other server is known to be in it.
pub proof fn law_known_rooms_are_served(f: HostingFacts, our_name: Seq<char>, i: int)
    ensures
        !f.meta_exists ==> !is_hosted(f, our_name),
        f.meta_exists && 0 <= i < f.joined@.len() && ends_with(
            f.joined@[i]@,
            seq![':'] + our_name,
        ) ==> is_hosted(f, our_name),
        f.meta_exists && !f.federation ==> is_hosted(f, our_name),
        f.meta_exists && (f.resident matches Some(s) && s@ == our_name) ==> is_hosted(f, our_name),
        f.meta_exists && (f.remote_servers matches Some(v) ==> v@.len() == 0) ==> is_hosted(
            f,
            our_name,
        ),
        is_hosted(f, our_name) && f.federation && (f.remote_servers matches Some(v) && v@.len()
            > 0) && !(f.resident matches Some(s) && s@ == our_name) ==> exists|k: int|
            #![trigger f.joined@[k]]
            0 <= k < f.joined@.len() && ends_with(f.joined@[k]@, seq![':'] + our_name),
{
    if 0 <= i < f.joined@.len() && ends_with(f.joined@[i]@, seq![':'] + our_name) {
        assert(texts(f.joined@)[i] == f.joined@[i]@);
    }
    if any_local(texts(f.joined@), our_name) {
        let k = choose|k: int|
            0 <= k < texts(f.joined@).len() && ends_with(
                #[trigger] texts(f.joined@)[k],
                server_suffix(our_name),
            );
        assert(f.joined@[k]@ == texts(f.joined@)[k]);
    }
}

/// A handshake is tried with one server after another until one accepts. Where
/// a server says that it is forbidden, that is the answer; any other failure
/// moves on to the next, and the last failure is the answer.
pub proof fn law_servers_are_tried_in_turn(
    index: int,
    candidates: int,
    status: Option<u16>,
    text: String,
)
    ensures
        after_join_attempt(index, candidates, Attempt::Accepted) == Ok::<Option<int>, ApiErrorV>(
            None,
        ),
        after_knock_attempt(index, candidates, Attempt::Accepted) == Ok::<Option<int>, ApiErrorV>(
            None,
        ),
        ({
            let refused = Attempt::Refused { status, text };
            let join = after_join_attempt(index, candidates, refused);
            let knock = after_knock_attempt(index, candidates, refused);
            &&& status == Some(403u16) ==> (join matches Err(e) && e.status == 403 && e.message
                == text@)
            &&& status == Some(403u16) ==> (knock matches Err(e) && e.status == 403)
            &&& status != Some(403u16) && index + 1 < candidates ==> join == Ok::<
                Option<int>,
                ApiErrorV,
            >(Some(index + 1)) && knock == Ok::<Option<int>, ApiErrorV>(Some(index + 1))
            &&& status != Some(403u16) && index + 1 >= candidates ==> (join matches Err(e)
                && e.status == 502)
            &&& status != Some(403u16) && index + 1 >= candidates ==> (knock matches Err(e)
                && e.status == (if status == Some(404u16) {
                404u16
            } else {
                502u16
            }))
        }),
{
}

/// The event that stands for a handed-over ID is the last that has it, and its
/// authorising events are those that it lists.
pub proof fn law_the_last_event_of_an_id_counts(events: Seq<HandedEvent>, id: Seq<char>, k: int)
    requires
        0 <= k < events.len(),
        events[k].event_id matches Some(x) && x@ == id,
        forall|j: int|
            k < j < events.len() ==> !((#[trigger] events[j]).event_id matches Some(x) && x@
                == id),
    ensures
        parents_of(events, id) == strings_in(field(events[k].event@, "auth_events"@)),
    decreases events.len(),
{
    if k < events.len() - 1 {
        assert(!(events[events.len() - 1].event_id matches Some(x) && x@ == id));
        let init = events.drop_last();
        assert forall|j: int| k < j < init.len() implies !((#[trigger] init[j]).event_id matches Some(
            x,
        ) && x@ == id) by {
            assert(init[j] == events[j]);
        }
        law_the_last_event_of_an_id_counts(init, id, k);
    }
}

/// What is kept of handed-over events is those that verify, as they are and in
/// their order.
pub proof fn law_only_verified_events_are_kept(
    a: Seq<HandedEvent>,
    b: Seq<HandedEvent>,
    x: HandedEvent,
)
    ensures
        verified_events(a + b) == verified_events(a) + verified_events(b),
        verified_events(seq![x]) == (if x.verified {
            seq![x.event@]
        } else {
            Seq::empty()
        }),
    decreases b.len(),
{
    reveal_with_fuel(verified_events, 2);
    assert(seq![x].drop_last() =~= Seq::<HandedEvent>::empty());
    if b.len() == 0 {
        assert(a + b =~= a);
    } else {
        law_only_verified_events_are_kept(a, b.drop_last(), x);
        assert((a + b).drop_last() =~= a + b.drop_last());
        assert((a + b).last() == b.last());
    }

    assert(verified_events(a + b) =~= verified_events(a) + verified_events(b));
}

/// A join goes through our own copy of the room exactly where we serve the room
/// and may let the user in; it is refused exactly where we serve the room and
/// the user fails its conditions.
pub proof fn law_joins_go_where_they_can(hosted: bool, verdict: RestrictedAuth)
    ensures
        join_route(hosted, verdict) is Local <==> hosted && (verdict is NotNeeded
            || verdict is Authorised),
        join_route(hosted, verdict) is Refuse <==> hosted && verdict is FailsConditions,
        join_route(hosted, verdict) matches JoinRouteV::Refuse(e) ==> e.status == 403,
        hosted && verdict is NotNeeded ==> join_route(hosted, verdict) == (JoinRouteV::Local {
            authoriser: None,
        }),
        verdict matches RestrictedAuth::Authorised(u) ==> hosted ==> join_route(hosted, verdict)
            == (JoinRouteV::Local { authoriser: Some(u@) }),
{
}

/// A kick takes out whoever is in the room, is invited or has knocked, and
/// nobody else.
pub proof fn law_who_is_there_can_be_kicked(m: Seq<char>)
    ensures
        can_be_kicked("join"@),
        can_be_kicked("invite"@),
        can_be_kicked("knock"@),
        !can_be_kicked("leave"@),
        !can_be_kicked("ban"@),
        can_be_kicked(m) ==> m == "join"@ || m == "invite"@ || m == "knock"@,
{
    reveal_strlit("leave");
    reveal_strlit("ban");
    reveal_strlit("join");
    reveal_strlit("invite");
    reveal_strlit("knock");
    assert("leave"@.len() == 5 && "ban"@.len() == 3 && "join"@.len() == 4 && "invite"@.len() == 6
        && "knock"@.len() == 5);
    assert("leave"@[0] == 'l' && "knock"@[0] == 'k');
}

/// An invite is left through the inviter's server; where who invited is not
/// known, through the one in the room ID.
pub proof fn law_invites_are_left_through_the_inviter(
    sender: Seq<char>,
    resident: Option<Seq<char>>,
)
    ensures
        is_user_id(sender) ==> leave_server(sender, resident) == server_in(sender),
        !is_user_id(sender) ==> leave_server(sender, resident) == resident,
{
}

/// An invited user is told what the room is: of its creation, join rule, alias,
/// name, avatar, topic and encryption, each that the room has, stripped; and
/// nothing else.
pub proof fn law_invites_tell_what_the_room_is(state: Seq<StateEvent>, kind: Seq<char>, i: int)
    ensures
        ({
            let told = invite_state(state, invite_state_types().len() as int);
            &&& (kind == "m.room.create"@ || kind == "m.room.join_rules"@ || kind
                == "m.room.canonical_alias"@ || kind == "m.room.name"@ || kind == "m.room.avatar"@
                || kind == "m.room.topic"@ || kind == "m.room.encryption"@) && (served_state(
                state,
                kind,
            ) is Some && served_state(state, kind)->0 is Object) ==> told.contains(
                JsonV::Object(stripped(served_state(state, kind)->0->Object_0)),
            )
            &&& 0 <= i < told.len() ==> exists|k: int|
                #![trigger invite_state_types()[k]]
                0 <= k < invite_state_types().len() && (served_state(state,
                    invite_state_types()[k]) matches Some(
                    JsonV::Object(raw),
                ) && told[i] == JsonV::Object(stripped(raw)))
        }),
        invite_state_types().len() == 7,
{
    let all = invite_state_types();
    assert(all[0] == "m.room.create"@ && all[1] == "m.room.join_rules"@ && all[2]
        == "m.room.canonical_alias"@ && all[3] == "m.room.name"@ && all[4] == "m.room.avatar"@
        && all[5] == "m.room.topic"@ && all[6] == "m.room.encryption"@);
    assert forall|k: int| 0 <= k < all.len() && (served_state(state, #[trigger] all[k]) is Some
        && served_state(state, all[k])->0 is Object) implies invite_state(
        state,
        all.len() as int,
    ).contains(JsonV::Object(stripped(served_state(state, all[k])->0->Object_0))) by {
        lemma_invite_state(state, all.len() as int, k, 0);
    }
    if 0 <= i < invite_state(state, all.len() as int).len() {
        lemma_invite_state(state, all.len() as int, 0, i);
    }
}

proof fn lemma_invite_state(state: Seq<StateEvent>, n: int, k: int, i: int)
    requires
        0 <= n <= invite_state_types().len(),
    ensures
        0 <= k < n && (served_state(state, invite_state_types()[k]) is Some && served_state(
            state,
            invite_state_types()[k],
        )->0 is Object) ==> invite_state(state, n).contains(
            JsonV::Object(
                stripped(served_state(state, invite_state_types()[k])->0->Object_0),
            ),
        ),
        0 <= i < invite_state(state, n).len() ==> exists|q: int|
            #![trigger invite_state_types()[q]]
            0 <= q < n && (served_state(state, invite_state_types()[q]) matches Some(
                JsonV::Object(raw),
            ) && invite_state(state, n)[i] == JsonV::Object(stripped(raw))),
    decreases n,
{
    if n > 0 {
        let init = invite_state(state, n - 1);
        let all = invite_state(state, n);
        lemma_invite_state(state, n - 1, k, i);
        if 0 <= k < n - 1 && (served_state(state, invite_state_types()[k]) is Some && served_state(
            state,
            invite_state_types()[k],
        )->0 is Object) {
            let x = JsonV::Object(
                stripped(served_state(state, invite_state_types()[k])->0->Object_0),
            );
            let q = choose|q: int| 0 <= q < init.len() && init[q] == x;
            assert(all[q] == x);
        }
        if all.len() > init.len() {
            assert(all[all.len() - 1] == JsonV::Object(
                stripped(served_state(state, invite_state_types()[n - 1])->0->Object_0),
            ));
        }
        if 0 <= i < init.len() {
            let q = choose|q: int|
                #![trigger invite_state_types()[q]]
                0 <= q < n - 1 && (served_state(state, invite_state_types()[q]) matches Some(
                    JsonV::Object(raw),
                ) && init[i] == JsonV::Object(stripped(raw)));
            assert(all[i] == init[i]);
            assert(invite_state_types()[q].len() >= 0);
        } else if i == init.len() && all.len() > init.len() {
            assert(invite_state_types()[n - 1].len() >= 0);
        }
    }
}

/// A knock shows up as a member event of the user's own, with the content that
/// was sent.
pub proof fn law_knocks_are_the_users_own(user: Seq<char>, content: Option<JsonV>)
    ensures
        ({
            let e = knock_member(user, content);
            &&& field(e, "type"@) == Some(JsonV::Str("m.room.member"@))
            &&& field(e, "state_key"@) == Some(JsonV::Str(user))
            &&& field(e, "sender"@) == Some(JsonV::Str(user))
            &&& content is Some ==> field(e, "content"@) == content
        }),
{
    reveal_strlit("type");
    reveal_strlit("state_key");
    reveal_strlit("sender");
    reveal_strlit("content");
    assert("type"@.len() == 4 && "state_key"@.len() == 9 && "sender"@.len() == 6
        && "content"@.len() == 7);
}

/// Of an imported room every member event that is not rejected and says a
/// membership is recorded: who it is about, what it says, which event it is and
/// who sent it.
pub proof fn law_imported_members_are_recorded(
    a: Seq<StateEvent>,
    b: Seq<StateEvent>,
    x: StateEvent,
)
    ensures
        changes_of(a + b) == changes_of(a) + changes_of(b),
        changes_of(seq![x]) == (if x.event_type@ == "m.room.member"@ && !x.rejected
            && (x.event matches Some(ev) && (field2(
            ev@,
            "content"@,
            "membership"@,
        ) matches Some(JsonV::Str(_)))) {
            seq![
                MembershipChangeV {
                    user_id: x.state_key@,
                    membership: field2(x.event->0@, "content"@, "membership"@)->0->Str_0,
                    event_id: x.event_id@,
                    sender: match field(x.event->0@, "sender"@) {
                        Some(JsonV::Str(s)) => s,
                        _ => Seq::empty(),
                    },
                },
            ]
        } else {
            Seq::empty()
        }),
    decreases b.len(),
{
    reveal_with_fuel(changes_of, 2);
    assert(seq![x].drop_last() =~= Seq::<StateEvent>::empty());
    if b.len() == 0 {
        assert(a + b =~= a);
    } else {
        law_imported_members_are_recorded(a, b.drop_last(), x);
        assert((a + b).drop_last() =~= a + b.drop_last());
        assert((a + b).last() == b.last());
    }

    assert(changes_of(a + b) =~= changes_of(a) + changes_of(b));
}

/// The rooms of a user that are listed are those that they have joined.
pub proof fn law_rooms_that_are_joined_are_listed(
    a: Seq<(String, String)>,
    b: Seq<(String, String)>,
    x: (String, String),
)
    ensures
        joined_of(a + b) == joined_of(a) + joined_of(b),
        joined_of(seq![x]) == (if x.1@ == "join"@ && is_room_id(x.0@) {
            seq![x.0@]
        } else {
            Seq::empty()
        }),
    decreases b.len(),
{
    reveal_with_fuel(joined_of, 2);
    assert(seq![x].drop_last() =~= Seq::<(String, String)>::empty());
    if b.len() == 0 {
        assert(a + b =~= a);
    } else {
        law_rooms_that_are_joined_are_listed(a, b.drop_last(), x);
        assert((a + b).drop_last() =~= a + b.drop_last());
        assert((a + b).last() == b.last());
    }

    assert(joined_of(a + b) =~= joined_of(a) + joined_of(b));
}

/// What a server hands over for a join is taken exactly where every event that
/// authorises the join verifies; of the rest what verifies is kept.
pub proof fn law_forged_joins_are_refused(
    join: &Json,
    state: Vec<HandedEvent>,
    auth_chain: Vec<HandedEvent>,
    i: int,
    r: Result<KeptEvents, ApiError>,
)
    requires
        call_ensures(accept_handed, (join, state, auth_chain), r),
    ensures
        r is Ok && 0 <= i < (state@ + auth_chain@).len() && auth_roots_name(
            join@,
            handed_id((state@ + auth_chain@)[i]),
        ) ==> (state@ + auth_chain@)[i].verified,
        (forall|k: int| 0 <= k < (state@ + auth_chain@).len()
            ==> (#[trigger] (state@ + auth_chain@)[k]).verified) ==> r is Ok,
        r matches Ok(kept) ==> items_view(kept.state@) == verified_events(state@)
            && items_view(kept.auth_chain@) == verified_events(auth_chain@),
        r matches Err(e) ==> e@.status == 502,
{
    let all = state@ + auth_chain@;
    if r is Ok && 0 <= i < all.len() && auth_roots_name(join@, handed_id(all[i])) {
        let id = handed_id(all[i]);
        assert(authorises(join@, all, id)) by {
            assert forall|t: Set<Seq<char>>|
                #![trigger is_closed(all, t)]
                holds_all(t, auth_roots(join@)) && is_closed(all, t) implies t.contains(id) by {
                let k = choose|k: int|
                    0 <= k < auth_roots(join@).len() && auth_roots(join@)[k] == id;
                assert(t.contains(auth_roots(join@)[k]));
            }
        }
        assert(all[i].verified);
    }
}

/// Does a join name an event as one that authorises it?
pub open spec fn auth_roots_name(join: JsonV, id: Seq<char>) -> bool {
    strings_in(field(join, "auth_events"@)).contains(id)
}

/// Where no other server knows a room of which we have a copy, the join goes
/// through the copy; any other failure is the answer.
pub proof fn law_lost_copies_are_joined_locally(
    hosted: bool,
    meta_exists: bool,
    e: ApiError,
    r: JoinRoute,
)
    requires
        call_ensures(after_remote_join, (hosted, meta_exists, e), r),
    ensures
        r is Local <==> !hosted && meta_exists && e.status == 404,
        !(r is Local) ==> (r matches JoinRoute::Refuse(x) && x@ == e@),
{
}

/// The reason of a join is taken from its body, and the rest of the body goes
/// into the event.
pub proof fn law_join_bodies_give_a_reason(
    body: Vec<(String, Json)>,
    k: Seq<char>,
    r: (Option<String>, Vec<(String, Json)>),
)
    requires
        call_ensures(join_body, (body,), r),
    ensures
        entry(fields_view(body@), "reason"@) matches Some(JsonV::Str(s))
            ==> (r.0 matches Some(t) && t@ == s),
        !(entry(fields_view(body@), "reason"@) matches Some(JsonV::Str(_))) ==> r.0 is None,
        k != "reason"@ && k != "third_party_signed"@ ==> entry(fields_view(r.1@), k)
            == entry(fields_view(body@), k),
        entry(fields_view(r.1@), "reason"@) is None,
        entry(fields_view(r.1@), "third_party_signed"@) is None,
{
    reveal_strlit("reason");
    reveal_strlit("third_party_signed");
    assert("reason"@.len() == 6 && "third_party_signed"@.len() == 18);
}

/// A join is sent exactly where the user is not in the room.
pub proof fn law_members_do_not_join_again(
    state: &Vec<StateEvent>,
    user_id: &str,
    r: bool,
)
    requires
        call_ensures(local_pipeline_join, (state, user_id), r),
    ensures
        r <==> membership(state@, user_id@) != "join"@,
{
}

/// What is joined is a room, by its ID, or an alias, ours or another server's;
/// anything else is refused.
pub proof fn law_rooms_are_named_by_id_or_alias(
    id_or_alias: &str,
    our_name: &str,
    r: Result<RoomRef, ApiError>,
)
    requires
        call_ensures(join_by_id_or_alias, (id_or_alias, our_name), r),
    ensures
        r is Ok <==> is_room_id(id_or_alias@) || is_room_alias(id_or_alias@),
        r matches Ok(RoomRef::Room) ==> id_or_alias@[0] == '!',
        r matches Ok(RoomRef::LocalAlias) ==> server_in(id_or_alias@) == Some(our_name@),
        r matches Ok(RoomRef::RemoteAlias) ==> server_in(id_or_alias@) != Some(our_name@),
        is_room_id(id_or_alias@) ==> (r matches Ok(RoomRef::Room)),
        r matches Err(e) ==> e@.status == 400,
{
}

/// A room is left through another server exactly where it is not ours and the
/// user is only invited.
pub proof fn law_remote_invites_are_left_remotely(
    hosted: bool,
    pending: &Option<String>,
    r: bool,
)
    requires
        call_ensures(leave_room, (hosted, pending), r),
    ensures
        r <==> !hosted && (*pending matches Some(m) && m@ == "invite"@),
{
}

/// A room can be forgotten exactly where the user is not in it.
pub proof fn law_rooms_are_left_before_they_are_forgotten(
    current: &Option<String>,
    r: Result<(), ApiError>,
)
    requires
        call_ensures(forget_room, (current,), r),
    ensures
        r is Err <==> (*current matches Some(m) && m@ == "join"@),
        r matches Err(e) ==> e@.status == 400,
{
}

/// A kick goes through exactly where the target is in the room, is invited or
/// has knocked.
pub proof fn law_kicks_are_of_who_is_there(
    state: &Vec<StateEvent>,
    target: &str,
    r: Result<(), ApiError>,
)
    requires
        call_ensures(kick_user, (state, target), r),
    ensures
        r is Ok <==> membership(state@, target@) == "join"@
            || membership(state@, target@) == "invite"@ || membership(state@, target@) == "knock"@,
        r matches Err(e) ==> e@.status == 403,
{
}

/// An invite goes to another server exactly where the invited user lives there.
pub proof fn law_others_are_invited_through_their_server(
    invitee: &str,
    our_name: &str,
    r: bool,
)
    requires
        call_ensures(invite_user, (invitee, our_name), r),
    ensures
        r <==> server_in(invitee@) != Some(our_name@),
{
}

/// An invite to another server brings the room's version, the event, and what
/// the room is.
pub proof fn law_invites_bring_the_event_and_the_room(
    version: &str,
    event: Json,
    room_state: Vec<Json>,
    r: Json,
)
    requires
        call_ensures(invite_body, (version, event, room_state), r),
    ensures
        field(r@, "room_version"@) == Some(JsonV::Str(version@)),
        field(r@, "event"@) == Some(event@),
        field(r@, "invite_room_state"@) == Some(JsonV::Array(items_view(room_state@))),
{
    reveal_strlit("room_version");
    reveal_strlit("event");
    reveal_strlit("invite_room_state");
    assert("room_version"@.len() == 12 && "event"@.len() == 5 && "invite_room_state"@.len() == 17);
}

/// The answer to an invite is the signed event; an answer without one is
/// refused.
pub proof fn law_answered_invites_bring_the_event(
    response: &Json,
    r: Result<Json, ApiError>,
)
    requires
        call_ensures(invite_remote, (response,), r),
    ensures
        r matches Ok(j) ==> field(response@, "event"@) == Some(j@) && j@ is Object
            && is_canonical(j@),
        field(response@, "event"@) matches Some(e) ==> (e is Object && is_canonical(e) ==> r is Ok),
        r matches Err(e) ==> e@.status == 502,
{
}

/// A remote invite is left through the inviter's server; without federation it
/// cannot be.
pub proof fn law_remote_leaves_need_a_server(
    federation: bool,
    invite_sender: &str,
    resident: Option<String>,
    r: Result<String, ApiError>,
)
    requires
        call_ensures(leave_remote, (federation, invite_sender, resident), r),
    ensures
        !federation ==> (r matches Err(e) && e@.status == 403),
        federation && is_user_id(invite_sender@) && server_in(invite_sender@) is Some
            ==> (r matches Ok(d) && Some(d@) == server_in(invite_sender@)),
        federation && !is_user_id(invite_sender@) && resident is Some
            ==> (r matches Ok(d) && d@ == resident->0@),
{
}

/// A remote join begins with the first server; without federation, or without a
/// server, it fails.
pub proof fn law_joins_begin_with_the_first_server(
    federation: bool,
    servers: &Vec<String>,
    r: NextAttempt,
)
    requires
        call_ensures(begin_join, (federation, servers), r),
    ensures
        federation && servers@.len() > 0 ==> (r matches NextAttempt::Ask { index } && index == 0),
        !federation || servers@.len() == 0 ==> (r matches NextAttempt::Fail(e) && e@.status == 404),
{
}

/// A remote knock begins with the first server; without federation, or without
/// a server, it fails.
pub proof fn law_knocks_begin_with_the_first_server(
    federation: bool,
    servers: &Vec<String>,
    r: NextAttempt,
)
    requires
        call_ensures(begin_knock, (federation, servers), r),
    ensures
        federation && servers@.len() > 0 ==> (r matches NextAttempt::Ask { index } && index == 0),
        !federation || servers@.len() == 0 ==> (r matches NextAttempt::Fail(e) && e@.status == 404),
{
}

/// A join that one server refuses goes on with the next, unless it is
/// forbidden; the last refusal is the answer.
pub proof fn law_joins_go_on_with_the_next_server(
    servers: &Vec<String>,
    index: usize,
    attempt: Attempt,
    r: NextAttempt,
)
    requires
        call_ensures(join_remote, (servers, index, attempt), r),
        index < servers.len(),
    ensures
        attempt is Accepted <==> r is Accepted,
        attempt matches Attempt::Refused { status, .. } ==> (status == Some(403u16)
            ==> (r matches NextAttempt::Fail(e) && e@.status == 403)),
        attempt matches Attempt::Refused { status, .. }
            ==> (status != Some(403u16) && index + 1 < servers@.len()
            ==> (r matches NextAttempt::Ask { index: n } && n == index + 1)),
        attempt matches Attempt::Refused { status, .. }
            ==> (status != Some(403u16) && index + 1 >= servers@.len()
            ==> (r matches NextAttempt::Fail(e) && e@.status == 502)),
{
}

/// What authorises an event that authorises a join authorises the join.
pub proof fn law_authority_is_handed_down(
    join: JsonV,
    events: Seq<HandedEvent>,
    id: Seq<char>,
    parent: Seq<char>,
)
    ensures
        strings_in(field(join, "auth_events"@)).contains(id) ==> authorises(join, events, id),
        authorises(join, events, id) && parents_of(events, id).contains(parent) ==> authorises(
            join,
            events,
            parent,
        ),
{
    if strings_in(field(join, "auth_events"@)).contains(id) {
        assert forall|t: Set<Seq<char>>|
            #![trigger is_closed(events, t)]
            holds_all(t, auth_roots(join)) && is_closed(events, t) implies t.contains(id) by {
            let k = choose|k: int| 0 <= k < auth_roots(join).len() && auth_roots(join)[k] == id;
            assert(t.contains(auth_roots(join)[k]));
        }
    }
    if authorises(join, events, id) && parents_of(events, id).contains(parent) {
        assert forall|t: Set<Seq<char>>|
            #![trigger is_closed(events, t)]
            holds_all(t, auth_roots(join)) && is_closed(events, t) implies t.contains(parent) by {
            assert(t.contains(id));
            let k = choose|k: int|
                0 <= k < parents_of(events, id).len() && parents_of(events, id)[k] == parent;
            assert(t.contains(parents_of(events, id)[k]));
        }
    }
}

/// A join is authentic exactly where each event that authorises it verifies.
pub proof fn law_authentic_joins_verify(join: JsonV, events: Seq<HandedEvent>)
    ensures
        join_is_authentic(join, events) <==> forall|i: int|
            0 <= i < events.len() && authorises(
                join,
                events,
                match (#[trigger] events[i]).event_id {
                    Some(id) => id@,
                    None => Seq::empty(),
                },
            ) ==> events[i].verified,
{
    if join_is_authentic(join, events) {
        assert forall|i: int|
            0 <= i < events.len() && authorises(
                join,
                events,
                match (#[trigger] events[i]).event_id {
                    Some(id) => id@,
                    None => Seq::empty(),
                },
            ) implies events[i].verified by {
            assert(authorises(join, events, handed_id(events[i])));
        }
    }
}

} // verus!

//! Aliases, the public-rooms directory, and room visibility.
use crate::error::{api_error, forbidden, internal, invalid_param, not_found, ApiError, ApiErrorV};
use crate::ids::{check_room_alias, check_room_id, is_room_alias, is_room_id, is_server_name, room_id_fault, server_in,
    server_name_ok, server_part};
use crate::json::{as_text, copy_fields, entry, field, fields_view, get, items_view, lemma_items, put_str,
    read_strings_in, remove, strings_in, Json, JsonV};
use crate::percent::percent_encoded;
use crate::room_util::{joined_member_ids, joined_members, state_text, state_text_in, StateEvent};
use crate::routes::rooms::encode_segment;
use crate::routes::search::{lowercase, to_lowercase};
use crate::text::{has_text, join_texts, occurs_in, opt_str, opt_text, same_text, texts};
use vstd::prelude::*;

verus! {

// -- resolving aliases --------------------------------------------------------

/// What the resolution of a local alias does next.
#[derive(Debug)]
pub enum AliasStep {
    Found(String),
    /// An appservice may create the room while we wait.
    AskAppservice,
    Fail(ApiError),
}

/// What a local entry resolves to.
pub open spec fn entry_room(room: Seq<char>) -> Result<Seq<char>, ApiErrorV> {
    if is_room_id(room) {
        Ok(room)
    } else {
        Err(internal(room_id_fault(room)))
    }
}

/// Is an alias resolved by another server's directory?
pub fn get_alias(alias: &str, our_name: &str) -> (remote: bool)
    ensures
        remote == (server_in(alias@) != Some(our_name@)),
{
    match server_part(alias) {
        Some(s) => !same_text(s.as_str(), our_name),
        None => true,
    }
}

/// Resolves a local alias from its entry in the directory. A miss is a question
/// for the appservice whose namespace the alias is in, once.
pub fn resolve_alias(room: Option<String>, asked: bool) -> (r: AliasStep)
    ensures
        match room {
            Some(id) => match entry_room(id@) {
                Ok(x) => r matches AliasStep::Found(s) && s@ == x,
                Err(x) => r matches AliasStep::Fail(e) && e@ == x,
            },
            None => if asked {
                r matches AliasStep::Fail(e) && e@ == not_found("Unknown room alias"@)
            } else {
                r is AskAppservice
            },
        },
{
    match room {
        Some(id) => match check_room_id(id.as_str()) {
            Ok(()) => AliasStep::Found(id),
            Err(fault) => AliasStep::Fail(ApiError::internal(fault.as_str())),
        },
        None => if asked {
            AliasStep::Fail(ApiError::not_found("Unknown room alias"))
        } else {
            AliasStep::AskAppservice
        },
    }
}

/// The request that resolves an alias of another server: the server, and the
/// path to ask.
pub fn remote_alias_request(alias: &str, federation: bool) -> (r: Result<
    (String, String),
    ApiError,
>)
    ensures
        if !is_room_alias(alias@) || server_in(alias@) is None {
            r matches Err(e) && e@ == invalid_param("bad room alias"@)
        } else if !federation {
            r matches Err(e) && e@ == not_found("Unknown room alias"@)
        } else {
            r matches Ok(p) && Some(p.0@) == server_in(alias@) && p.1@
                == "/_matrix/federation/v1/query/directory?room_alias="@ + percent_encoded(alias@)
        },
{
    if check_room_alias(alias).is_err() {
        return Err(ApiError::invalid_param("bad room alias"));
    }
    let server = match server_part(alias) {
        Some(s) => s,
        None => {
            return Err(ApiError::invalid_param("bad room alias"));
        },
    };
    if !federation {
        return Err(ApiError::not_found("Unknown room alias"));
    }
    let path = join_texts(
        "/_matrix/federation/v1/query/directory?room_alias=",
        encode_segment(alias).as_str(),
    );
    Ok((server, path))
}

/// The error of a server that could not be asked.
pub fn remote_alias_failed(fault: &str) -> (r: ApiError)
    ensures
        r@ == api_error(502, "M_UNKNOWN"@, "remote directory query failed: "@ + fault@),
{
    let message = join_texts("remote directory query failed: ", fault);
    ApiError::new(502, "M_UNKNOWN", message.as_str())
}

/// The server names among some texts.
pub open spec fn names_among(list: Seq<Seq<char>>) -> Seq<Seq<char>>
    decreases list.len(),
{
    if list.len() == 0 {
        Seq::empty()
    } else {
        let init = names_among(list.drop_last());
        if is_server_name(list.last()) {
            init.push(list.last())
        } else {
            init
        }
    }
}

fn keep_names(list: &Vec<String>) -> (r: Vec<String>)
    ensures
        texts(r@) == names_among(texts(list@)),
{
    let mut out: Vec<String> = Vec::new();
    let ghost all = texts(list@);
    proof {
        assert(texts(out@) =~= names_among(all.take(0)));
    }
    let mut i: usize = 0;
    while i < list.len()
        invariant
            i <= list.len(),
            all == texts(list@),
            texts(out@) == names_among(all.take(i as int)),
        decreases list.len() - i,
    {
        proof {
            assert(all.take(i + 1).drop_last() =~= all.take(i as int));
            assert(all.take(i + 1).last() == list@[i as int]@);
        }
        if server_name_ok(list[i].as_str()) {
            let s = list[i].as_str().to_owned();
            proof {
                assert(texts(out@.push(s)) =~= texts(out@).push(s@));
            }
            out.push(s);
        }
        i += 1;
    }
    proof {
        assert(all.take(all.len() as int) =~= all);
    }
    out
}

/// The servers that an answer lists for a room; the one that was asked where it
/// lists none.
pub open spec fn listed_servers(answer: JsonV, asked: Seq<char>) -> Seq<Seq<char>> {
    match field(answer, "servers"@) {
        Some(JsonV::Array(items)) => names_among(strings_in(field(answer, "servers"@))),
        _ => seq![asked],
    }
}

/// Reads the answer of the server of an alias: the room, and the servers to
/// join it through.
pub fn resolve_remote_alias(answer: &Json, asked: &str) -> (r: Result<
    (String, Vec<String>),
    ApiError,
>)
    ensures
        match as_text(field(answer@, "room_id"@)) {
            Some(id) => if is_room_id(id) {
                r matches Ok(p) && p.0@ == id && texts(p.1@) == listed_servers(answer@, asked@)
            } else {
                r matches Err(e) && e@ == not_found("Unknown room alias"@)
            },
            None => r matches Err(e) && e@ == not_found("Unknown room alias"@),
        },
{
    let id = match answer.get_str("room_id") {
        Some(s) => s,
        None => {
            return Err(ApiError::not_found("Unknown room alias"));
        },
    };
    if check_room_id(id).is_err() {
        return Err(ApiError::not_found("Unknown room alias"));
    }
    let listed = match answer.get("servers") {
        Some(j) => j.as_array().is_some(),
        None => false,
    };
    let servers = if listed {
        keep_names(&read_strings_in(answer.get("servers")))
    } else {
        let mut one: Vec<String> = Vec::new();
        one.push(asked.to_owned());
        proof {
            assert(texts(one@) =~= seq![asked@]);
        }
        one
    };
    Ok((id.to_owned(), servers))
}

// -- who may change aliases ---------------------------------------------------

/// Namespace ownership for aliases, both directions: an appservice may not
/// touch aliases outside its own namespaces when some namespace claims them;
/// everyone else is barred from the exclusive namespaces of appservices.
pub open spec fn ownership_fault(appservice: bool, own: bool, claimable: bool) -> Option<ApiErrorV> {
    if claimable || (appservice && own) {
        None
    } else if appservice {
        Some(
            api_error(400, "M_EXCLUSIVE"@, "Alias is reserved by another application service"@),
        )
    } else {
        Some(api_error(400, "M_EXCLUSIVE"@, "Alias is reserved by an application service"@))
    }
}

pub open spec fn fault_of(r: Result<(), ApiError>) -> Option<ApiErrorV> {
    match r {
        Ok(_) => None,
        Err(e) => Some(e@),
    }
}

/// May the caller touch an alias, as far as namespaces go?
pub fn check_alias_ownership(appservice: bool, own: bool, claimable: bool) -> (r: Result<
    (),
    ApiError,
>)
    ensures
        fault_of(r) == ownership_fault(appservice, own, claimable),
{
    if claimable || (appservice && own) {
        return Ok(());
    }
    if appservice {
        Err(ApiError::new(400, "M_EXCLUSIVE", "Alias is reserved by another application service"))
    } else {
        Err(ApiError::new(400, "M_EXCLUSIVE", "Alias is reserved by an application service"))
    }
}

/// May the caller create an alias? It must be on this server, the room must be
/// there, the caller must be in it — otherwise anyone could squat aliases that
/// point at rooms they can't see — and the namespace must be theirs to use.
pub fn create_alias(
    alias: &str,
    our_name: &str,
    room: Result<(), ApiError>,
    joined: Result<(), ApiError>,
    ownership: Result<(), ApiError>,
) -> (r: Result<(), ApiError>)
    ensures
        fault_of(r) == (if server_in(alias@) != Some(our_name@) {
            Some(forbidden("Alias must be on this server"@))
        } else if room is Err {
            fault_of(room)
        } else if joined is Err {
            fault_of(joined)
        } else {
            fault_of(ownership)
        }),
{
    let ours = match server_part(alias) {
        Some(s) => same_text(s.as_str(), our_name),
        None => false,
    };
    if !ours {
        return Err(ApiError::forbidden("Alias must be on this server"));
    }
    if room.is_err() {
        return room;
    }
    if joined.is_err() {
        return joined;
    }
    ownership
}

/// May the caller delete an alias? The one who made it may; anyone else needs
/// the power to administer aliases.
pub fn delete_alias(
    creator: Option<&str>,
    ownership: Result<(), ApiError>,
    user_id: &str,
    may_administer: bool,
) -> (r: Result<(), ApiError>)
    ensures
        fault_of(r) == (match creator {
            None => Some(not_found("Unknown room alias"@)),
            Some(c) => if ownership is Err {
                fault_of(ownership)
            } else if c@ != user_id@ && !may_administer {
                Some(forbidden("Not allowed to delete this alias"@))
            } else {
                None
            },
        }),
{
    let made_by = match creator {
        Some(c) => c,
        None => {
            return Err(ApiError::not_found("Unknown room alias"));
        },
    };
    if ownership.is_err() {
        return ownership;
    }
    if !same_text(made_by, user_id) && !may_administer {
        return Err(ApiError::forbidden("Not allowed to delete this alias"));
    }
    Ok(())
}

/// The items that are not the string `s`.
pub open spec fn items_without(items: Seq<JsonV>, s: Seq<char>) -> Seq<JsonV>
    decreases items.len(),
{
    if items.len() == 0 {
        Seq::empty()
    } else {
        let init = items_without(items.drop_last(), s);
        if items.last() == JsonV::Str(s) {
            init
        } else {
            init.push(items.last())
        }
    }
}

pub open spec fn without_main(m: Map<Seq<char>, JsonV>, alias: Seq<char>) -> Map<
    Seq<char>,
    JsonV,
> {
    if as_text(entry(m, "alias"@)) == Some(alias) {
        m.remove("alias"@)
    } else {
        m
    }
}

/// The content of a canonical-alias event without an alias.
pub open spec fn without_alias(m: Map<Seq<char>, JsonV>, alias: Seq<char>) -> Map<
    Seq<char>,
    JsonV,
> {
    let n = without_main(m, alias);
    match entry(n, "alt_aliases"@) {
        Some(JsonV::Array(items)) => n.insert(
            "alt_aliases"@,
            JsonV::Array(items_without(items, alias)),
        ),
        _ => n,
    }
}

/// Does a canonical-alias event name an alias?
pub open spec fn names_alias(m: Map<Seq<char>, JsonV>, alias: Seq<char>) -> bool {
    ||| as_text(entry(m, "alias"@)) == Some(alias)
    ||| entry(m, "alt_aliases"@) matches Some(JsonV::Array(items)) && items.contains(
        JsonV::Str(alias),
    )
}

proof fn lemma_without(items: Seq<JsonV>, s: Seq<char>)
    ensures
        items_without(items, s).len() <= items.len(),
        items_without(items, s).len() == items.len() <==> !items.contains(JsonV::Str(s)),
        !items_without(items, s).contains(JsonV::Str(s)),
    decreases items.len(),
{
    if items.len() > 0 {
        let init = items.drop_last();
        lemma_without(init, s);
        if items.last() == JsonV::Str(s) {
            assert(items[items.len() - 1] == JsonV::Str(s));
            assert(items.contains(JsonV::Str(s)));
        } else {
            if items.contains(JsonV::Str(s)) {
                let i = choose|i: int| 0 <= i < items.len() && items[i] == JsonV::Str(s);
                assert(init[i] == JsonV::Str(s));
            }
            if init.contains(JsonV::Str(s)) {
                let i = choose|i: int| 0 <= i < init.len() && init[i] == JsonV::Str(s);
                assert(items[i] == JsonV::Str(s));
            }
        }
    }
}

fn drop_items(items: &Vec<Json>, s: &str) -> (r: Vec<Json>)
    ensures
        items_view(r@) == items_without(items_view(items@), s@),
        r@.len() == items@.len() <==> !items_view(items@).contains(JsonV::Str(s@)),
{
    let mut out: Vec<Json> = Vec::new();
    let ghost all = items_view(items@);
    proof {
        lemma_items(items@);
        assert(items_view(out@) =~= items_without(all.take(0), s@));
    }
    let mut i: usize = 0;
    while i < items.len()
        invariant
            i <= items.len(),
            all == items_view(items@),
            all == items@.map_values(|j: Json| j@),
            items_view(out@) == items_without(all.take(i as int), s@),
        decreases items.len() - i,
    {
        proof {
            assert(all.take(i + 1).drop_last() =~= all.take(i as int));
            assert(all.take(i + 1).last() == items@[i as int]@);
        }
        let drop = match items[i].as_str() {
            Some(t) => same_text(t, s),
            None => false,
        };
        if !drop {
            let j = items[i].copy();
            proof {
                assert(out@.push(j).drop_last() =~= out@);
            }
            out.push(j);
        }
        i += 1;
    }
    proof {
        assert(all.take(all.len() as int) =~= all);
        lemma_items(out@);
        lemma_without(all, s@);
    }
    out
}

/// Deleting an alias also clears it from the room's canonical-alias event, so
/// that clients render no dangling alias: the new content, where it changes.
pub fn cleared_canonical(content: &Json, alias: &str) -> (r: Option<Json>)
    ensures
        match content@ {
            JsonV::Object(m) => if names_alias(m, alias@) {
                r matches Some(j) && j@ == JsonV::Object(without_alias(m, alias@))
            } else {
                r is None
            },
            _ => r is None,
        },
{
    let fields = match content.as_object() {
        Some(m) => m,
        None => {
            return None;
        },
    };
    let ghost m = fields_view(fields@);
    proof {
        reveal_strlit("alias");
        reveal_strlit("alt_aliases");
        assert("alias"@.len() != "alt_aliases"@.len());
    }
    let was_main = match get(fields, "alias") {
        Some(j) => match j.as_str() {
            Some(s) => same_text(s, alias),
            None => false,
        },
        None => false,
    };
    let mut out = copy_fields(fields);
    if was_main {
        out = remove(out, "alias");
    }
    let mut was_alt = false;
    let ghost n = fields_view(out@);
    proof {
        assert(n =~= without_main(m, alias@));
        assert(entry(n, "alt_aliases"@) == entry(m, "alt_aliases"@));
    }
    match get(fields, "alt_aliases") {
        Some(Json::Array(items)) => {
            let kept = drop_items(items, alias);
            was_alt = kept.len() != items.len();
            put_str(&mut out, "alt_aliases", Json::Array(kept));
        },
        _ => {},
    }
    if was_main || was_alt {
        Some(Json::Object(out))
    } else {
        None
    }
}

/// A cleared canonical-alias event no longer names the alias.
pub proof fn law_cleared_event_drops_the_alias(m: Map<Seq<char>, JsonV>, alias: Seq<char>)
    ensures
        !names_alias(without_alias(m, alias), alias),
{
    reveal_strlit("alias");
    reveal_strlit("alt_aliases");
    assert("alias"@.len() != "alt_aliases"@.len());
    match entry(without_main(m, alias), "alt_aliases"@) {
        Some(JsonV::Array(items)) => {
            lemma_without(items, alias);
        },
        _ => {},
    }
}

/// The valid aliases among some.
pub open spec fn aliases_among(list: Seq<Seq<char>>) -> Seq<Seq<char>>
    decreases list.len(),
{
    if list.len() == 0 {
        Seq::empty()
    } else {
        let init = aliases_among(list.drop_last());
        if is_room_alias(list.last()) {
            init.push(list.last())
        } else {
            init
        }
    }
}

/// The aliases of a room that can be told.
pub fn get_room_aliases(list: &Vec<String>) -> (r: Vec<String>)
    ensures
        texts(r@) == aliases_among(texts(list@)),
{
    let mut out: Vec<String> = Vec::new();
    let ghost all = texts(list@);
    proof {
        assert(texts(out@) =~= aliases_among(all.take(0)));
    }
    let mut i: usize = 0;
    while i < list.len()
        invariant
            i <= list.len(),
            all == texts(list@),
            texts(out@) == aliases_among(all.take(i as int)),
        decreases list.len() - i,
    {
        proof {
            assert(all.take(i + 1).drop_last() =~= all.take(i as int));
            assert(all.take(i + 1).last() == list@[i as int]@);
        }
        if check_room_alias(list[i].as_str()).is_ok() {
            let s = list[i].as_str().to_owned();
            proof {
                assert(texts(out@.push(s)) =~= texts(out@).push(s@));
            }
            out.push(s);
        }
        i += 1;
    }
    proof {
        assert(all.take(all.len() as int) =~= all);
    }
    out
}

// -- the public directory -----------------------------------------------------

/// Directory listing entry for one published room.
#[derive(Debug)]
pub struct PublicRoom {
    pub room_id: String,
    pub num_joined_members: u64,
    pub name: Option<String>,
    pub topic: Option<String>,
    pub canonical_alias: Option<String>,
    pub avatar_url: Option<String>,
    pub world_readable: bool,
    pub guest_can_join: bool,
    pub join_rule: String,
}

pub struct PublicRoomV {
    pub room_id: Seq<char>,
    pub num_joined_members: int,
    pub name: Option<Seq<char>>,
    pub topic: Option<Seq<char>>,
    pub canonical_alias: Option<Seq<char>>,
    pub avatar_url: Option<Seq<char>>,
    pub world_readable: bool,
    pub guest_can_join: bool,
    pub join_rule: Seq<char>,
}

impl View for PublicRoom {
    type V = PublicRoomV;

    open spec fn view(&self) -> PublicRoomV {
        PublicRoomV {
            room_id: self.room_id@,
            num_joined_members: self.num_joined_members as int,
            name: opt_text(self.name),
            topic: opt_text(self.topic),
            canonical_alias: opt_text(self.canonical_alias),
            avatar_url: opt_text(self.avatar_url),
            world_readable: self.world_readable,
            guest_can_join: self.guest_can_join,
            join_rule: self.join_rule@,
        }
    }
}

/// How a published room is listed.
pub open spec fn listing(room_id: Seq<char>, state: Seq<StateEvent>) -> PublicRoomV {
    let alias = state_text(state, "m.room.canonical_alias"@, "alias"@);
    PublicRoomV {
        room_id,
        num_joined_members: joined_members(state, state.len() as int).len() as int,
        name: state_text(state, "m.room.name"@, "name"@),
        topic: state_text(state, "m.room.topic"@, "topic"@),
        canonical_alias: if alias matches Some(a) && is_room_alias(a) {
            alias
        } else {
            None
        },
        avatar_url: state_text(state, "m.room.avatar"@, "url"@),
        world_readable: state_text(state, "m.room.history_visibility"@, "history_visibility"@)
            == Some("world_readable"@),
        guest_can_join: state_text(state, "m.room.guest_access"@, "guest_access"@) == Some(
            "can_join"@,
        ),
        join_rule: match state_text(state, "m.room.join_rules"@, "join_rule"@) {
            Some(s) => s,
            None => "public"@,
        },
    }
}

fn says(text: &Option<String>, what: &str) -> (r: bool)
    ensures
        r == (opt_text(*text) == Some(what@)),
{
    match text {
        Some(s) => same_text(s.as_str(), what),
        None => false,
    }
}

/// Directory listing entry for one published room; none for a room that is not
/// here.
pub fn public_chunk(known: bool, room_id: &str, state: &Vec<StateEvent>) -> (r: Result<
    Option<PublicRoom>,
    ApiError,
>)
    ensures
        if !known {
            r matches Ok(None)
        } else if !is_room_id(room_id@) {
            r matches Err(e) && e@ == internal(room_id_fault(room_id@))
        } else {
            r matches Ok(Some(c)) && c@ == listing(room_id@, state@)
        },
{
    if !known {
        return Ok(None);
    }
    match check_room_id(room_id) {
        Ok(()) => {},
        Err(fault) => {
            return Err(ApiError::internal(fault.as_str()));
        },
    }
    let members = joined_member_ids(state);
    proof {
        assert(texts(members@).len() == members@.len());
    }
    let canonical_alias = match state_text_in(state, "m.room.canonical_alias", "alias") {
        Some(a) => if check_room_alias(a.as_str()).is_ok() {
            Some(a)
        } else {
            None
        },
        None => None,
    };
    let join_rule = match state_text_in(state, "m.room.join_rules", "join_rule") {
        Some(s) => s,
        None => "public".to_owned(),
    };
    Ok(
        Some(
            PublicRoom {
                room_id: room_id.to_owned(),
                num_joined_members: members.len() as u64,
                name: state_text_in(state, "m.room.name", "name"),
                topic: state_text_in(state, "m.room.topic", "topic"),
                canonical_alias,
                avatar_url: state_text_in(state, "m.room.avatar", "url"),
                world_readable: says(
                    &state_text_in(state, "m.room.history_visibility", "history_visibility"),
                    "world_readable",
                ),
                guest_can_join: says(
                    &state_text_in(state, "m.room.guest_access", "guest_access"),
                    "can_join",
                ),
                join_rule,
            },
        ),
    )
}

pub open spec fn text_or_empty(o: Option<Seq<char>>) -> Seq<char> {
    match o {
        Some(s) => s,
        None => ""@,
    }
}

/// Does a room match a search term? By name, topic or alias, whatever the case.
pub open spec fn room_matches(c: PublicRoomV, term: Option<Seq<char>>) -> bool {
    term matches Some(t) ==> {
        ||| occurs_in(lowercase(t), lowercase(text_or_empty(c.name)))
        ||| occurs_in(lowercase(t), lowercase(text_or_empty(c.topic)))
        ||| occurs_in(lowercase(t), lowercase(text_or_empty(c.canonical_alias)))
    }
}

fn field_matches(text: &Option<String>, lowered: &str) -> (r: bool)
    ensures
        r == occurs_in(lowered@, lowercase(text_or_empty(opt_text(*text)))),
{
    let have = match text {
        Some(s) => to_lowercase(s.as_str()),
        None => to_lowercase(""),
    };
    has_text(have.as_str(), lowered)
}

fn is_match(c: &PublicRoom, term: Option<&str>) -> (r: bool)
    ensures
        r == room_matches(
            c@,
            match term {
                Some(t) => Some(t@),
                None => None,
            },
        ),
{
    match term {
        Some(t) => {
            let lowered = to_lowercase(t);
            field_matches(&c.name, lowered.as_str()) || field_matches(&c.topic, lowered.as_str())
                || field_matches(&c.canonical_alias, lowered.as_str())
        },
        None => true,
    }
}

/// The places of the matching rooms among the first `n`, in order.
pub open spec fn matching_rooms(
    rooms: Seq<PublicRoom>,
    term: Option<Seq<char>>,
    n: int,
) -> Seq<int>
    decreases n,
{
    if n <= 0 {
        Seq::empty()
    } else {
        let init = matching_rooms(rooms, term, n - 1);
        if room_matches(rooms[n - 1]@, term) {
            init.push(n - 1)
        } else {
            init
        }
    }
}

/// The rooms of a directory answer, by their places, and how many match in all.
pub fn directory_chunks(
    rooms: &Vec<PublicRoom>,
    search_term: Option<&str>,
    limit: Option<u64>,
) -> (r: (Vec<usize>, u64))
    ensures
        ({
            let term = match search_term {
                Some(t) => Some(t@),
                None => None,
            };
            let all = matching_rooms(rooms@, term, rooms@.len() as int);
            &&& r.1 == all.len()
            &&& r.0@.map_values(|i: usize| i as int) == (if limit matches Some(l) && l
                < all.len() {
                all.take(limit->0 as int)
            } else {
                all
            })
        }),
{
    let ghost term = match search_term {
        Some(t) => Some(t@),
        None => None,
    };
    let mut out: Vec<usize> = Vec::new();
    let mut i: usize = 0;
    while i < rooms.len()
        invariant
            i <= rooms.len(),
            term == (match search_term {
                Some(t) => Some(t@),
                None => None,
            }),
            out@.map_values(|i: usize| i as int) == matching_rooms(rooms@, term, i as int),
        decreases rooms.len() - i,
    {
        if is_match(&rooms[i], search_term) {
            proof {
                assert(out@.push(i).map_values(|i: usize| i as int) =~= out@.map_values(
                    |i: usize| i as int,
                ).push(i as int));
            }
            out.push(i);
        }
        i += 1;
    }
    let total = out.len() as u64;
    match limit {
        Some(l) => {
            if l < total {
                let ghost before = out@;
                out.truncate(l as usize);
                proof {
                    assert(out@.map_values(|i: usize| i as int) =~= before.map_values(
                        |i: usize| i as int,
                    ).take(l as int));
                }
            }
        },
        None => {},
    }
    (out, total)
}

/// How the visibility of a room is told.
pub fn get_visibility(public: bool) -> (r: String)
    ensures
        r@ == (if public {
            "public"@
        } else {
            "private"@
        }),
{
    if public {
        "public".to_owned()
    } else {
        "private".to_owned()
    }
}

/// May a member publish a room? Publishing exposes it to everyone, so it takes
/// the power to administer aliases.
pub fn set_visibility(may_administer: bool) -> (r: Result<(), ApiError>)
    ensures
        fault_of(r) == (if may_administer {
            None
        } else {
            Some(forbidden("Not allowed to change this room's directory visibility"@))
        }),
{
    if may_administer {
        Ok(())
    } else {
        Err(ApiError::forbidden("Not allowed to change this room's directory visibility"))
    }
}

/// A listing says what the room's state says: its name, topic and avatar; its
/// alias, where it is one; who may read and join it; and how many have joined.
pub proof fn law_listings_say_what_the_state_says(room_id: Seq<char>, state: Seq<StateEvent>)
    ensures
        ({
            let l = listing(room_id, state);
            &&& l.room_id == room_id
            &&& l.num_joined_members == joined_members(state, state.len() as int).len()
            &&& l.name == state_text(state, "m.room.name"@, "name"@)
            &&& l.topic == state_text(state, "m.room.topic"@, "topic"@)
            &&& l.avatar_url == state_text(state, "m.room.avatar"@, "url"@)
            &&& forall|a: Seq<char>|
                l.canonical_alias == Some(a) <==> #[trigger] is_room_alias(a) && state_text(
                    state,
                    "m.room.canonical_alias"@,
                    "alias"@,
                ) == Some(a)
            &&& l.world_readable <==> state_text(
                state,
                "m.room.history_visibility"@,
                "history_visibility"@,
            ) == Some("world_readable"@)
            &&& l.guest_can_join <==> state_text(
                state,
                "m.room.guest_access"@,
                "guest_access"@,
            ) == Some("can_join"@)
            &&& state_text(state, "m.room.join_rules"@, "join_rule"@) == Some(l.join_rule) || (
            state_text(state, "m.room.join_rules"@, "join_rule"@) is None && l.join_rule
                == "public"@)
        }),
{
}

/// A search of the directory finds every room whose name, topic or alias holds
/// the term, whatever the case, and no other; without a term it finds all.
pub proof fn law_searches_find_what_matches(rooms: Seq<PublicRoom>, term: Option<Seq<char>>, i: int)
    requires
        0 <= i < rooms.len(),
    ensures
        ({
            let c = rooms[i]@;
            matching_rooms(rooms, term, rooms.len() as int).contains(i) <==> {
                ||| term is None
                ||| occurs_in(lowercase(term->0), lowercase(text_or_empty(c.name)))
                ||| occurs_in(lowercase(term->0), lowercase(text_or_empty(c.topic)))
                ||| occurs_in(lowercase(term->0), lowercase(text_or_empty(c.canonical_alias)))
            }
        }),
        forall|s: Seq<char>| text_or_empty(Some(s)) == s,
        text_or_empty(None).len() == 0,
{
    reveal_strlit("");
    lemma_matching_rooms(rooms, term, rooms.len() as int, i);
}

proof fn lemma_matching_rooms(rooms: Seq<PublicRoom>, term: Option<Seq<char>>, n: int, i: int)
    requires
        0 <= n <= rooms.len(),
    ensures
        matching_rooms(rooms, term, n).contains(i) <==> 0 <= i < n && room_matches(
            rooms[i]@,
            term,
        ),
    decreases n,
{
    if n > 0 {
        let init = matching_rooms(rooms, term, n - 1);
        let all = matching_rooms(rooms, term, n);
        lemma_matching_rooms(rooms, term, n - 1, i);
        if init.contains(i) {
            let k = choose|k: int| 0 <= k < init.len() && init[k] == i;
            assert(all[k] == i);
        }
        if all.contains(i) && !init.contains(i) {
            let k = choose|k: int| 0 <= k < all.len() && all[k] == i;
            assert(k >= init.len() || init[k] == i);
        }
        if i == n - 1 && room_matches(rooms[i]@, term) {
            assert(all[all.len() - 1] == i);
        }
    }
}

/// Taking an alias out of a canonical-alias event takes out that alias,
/// wherever it is named, and nothing else.
pub proof fn law_clearing_takes_out_one_alias(
    m: Map<Seq<char>, JsonV>,
    alias: Seq<char>,
    k: Seq<char>,
    v: JsonV,
)
    ensures
        ({
            let c = without_alias(m, alias);
            &&& k != "alias"@ && k != "alt_aliases"@ ==> field(JsonV::Object(c), k) == field(
                JsonV::Object(m),
                k,
            )
            &&& field(JsonV::Object(c), "alias"@) == (if field(JsonV::Object(m), "alias"@) == Some(
                JsonV::Str(alias),
            ) {
                None
            } else {
                field(JsonV::Object(m), "alias"@)
            })
            &&& match field(JsonV::Object(m), "alt_aliases"@) {
                Some(JsonV::Array(items)) => field(JsonV::Object(c), "alt_aliases"@) matches Some(
                    JsonV::Array(left),
                ) && (left.contains(v) <==> v != JsonV::Str(alias) && items.contains(v)),
                other => field(JsonV::Object(c), "alt_aliases"@) == other,
            }
        }),
{
    reveal_strlit("alias");
    reveal_strlit("alt_aliases");
    assert("alias"@.len() == 5 && "alt_aliases"@.len() == 11);
    match field(JsonV::Object(m), "alt_aliases"@) {
        Some(JsonV::Array(items)) => {
            lemma_items_left(items, alias, v);
        },
        _ => {},
    }
}

proof fn lemma_items_left(items: Seq<JsonV>, s: Seq<char>, v: JsonV)
    ensures
        items_without(items, s).contains(v) <==> v != JsonV::Str(s) && items.contains(v),
    decreases items.len(),
{
    if items.len() > 0 {
        let init = items_without(items.drop_last(), s);
        let all = items_without(items, s);
        lemma_items_left(items.drop_last(), s, v);
        if init.contains(v) {
            let k = choose|k: int| 0 <= k < init.len() && init[k] == v;
            assert(all[k] == v);
        }
        if all.contains(v) && !init.contains(v) {
            let k = choose|k: int| 0 <= k < all.len() && all[k] == v;
            assert(k >= init.len() || init[k] == v);
        }
        if items.drop_last().contains(v) {
            let k = choose|k: int|
                0 <= k < items.drop_last().len() && items.drop_last()[k] == v;
            assert(items[k] == v);
        }
        if items.contains(v) && items.last() != v {
            let k = choose|k: int| 0 <= k < items.len() && items[k] == v;
            assert(items.drop_last()[k] == v);
        }
        if items.last() == v {
            assert(items[items.len() - 1] == v);
            if v != JsonV::Str(s) {
                assert(all[all.len() - 1] == v);
            }
        }
    }
}

/// An alias may be made by whom it is reserved for, and by everybody where it
/// is not reserved.
pub proof fn law_reserved_aliases_are_kept(appservice: bool, own: bool, claimable: bool)
    ensures
        ownership_fault(appservice, own, claimable) is None <==> claimable || (appservice && own),
        ownership_fault(appservice, own, claimable) matches Some(e) ==> e.status == 400
            && e.errcode == "M_EXCLUSIVE"@,
{
}

/// Of the servers that an answer lists, those are kept whose names are server
/// names.
pub proof fn law_server_names_are_kept(
    a: Seq<Seq<char>>,
    b: Seq<Seq<char>>,
    x: Seq<char>,
)
    ensures
        names_among(a + b) == names_among(a) + names_among(b),
        names_among(seq![x]) == (if is_server_name(x) {
            seq![x]
        } else {
            Seq::empty()
        }),
    decreases b.len(),
{
    reveal_with_fuel(names_among, 2);
    assert(seq![x].drop_last() =~= Seq::<Seq<char>>::empty());
    if b.len() == 0 {
        assert(a + b =~= a);
    } else {
        law_server_names_are_kept(a, b.drop_last(), x);
        assert((a + b).drop_last() =~= a + b.drop_last());
        assert((a + b).last() == b.last());
    }

    assert(names_among(a + b) =~= names_among(a) + names_among(b));
}

/// Of the aliases of a room, those are shown that are aliases.
pub proof fn law_aliases_are_kept(
    a: Seq<Seq<char>>,
    b: Seq<Seq<char>>,
    x: Seq<char>,
)
    ensures
        aliases_among(a + b) == aliases_among(a) + aliases_among(b),
        aliases_among(seq![x]) == (if is_room_alias(x) {
            seq![x]
        } else {
            Seq::empty()
        }),
    decreases b.len(),
{
    reveal_with_fuel(aliases_among, 2);
    assert(seq![x].drop_last() =~= Seq::<Seq<char>>::empty());
    if b.len() == 0 {
        assert(a + b =~= a);
    } else {
        law_aliases_are_kept(a, b.drop_last(), x);
        assert((a + b).drop_last() =~= a + b.drop_last());
        assert((a + b).last() == b.last());
    }

    assert(aliases_among(a + b) =~= aliases_among(a) + aliases_among(b));
}

/// An alias that is known leads to its room; one that is not is asked of the
/// appservices, once.
pub proof fn law_aliases_lead_to_their_room(
    room: Option<String>,
    asked: bool,
    r: AliasStep,
)
    requires
        call_ensures(resolve_alias, (room, asked), r),
    ensures
        room matches Some(id) ==> (is_room_id(id@) ==> (r matches AliasStep::Found(s)
            && s@ == id@)),
        room is None && !asked ==> r is AskAppservice,
        room is None && asked ==> (r matches AliasStep::Fail(e) && e@.status == 404),
        r matches AliasStep::Found(s) ==> (room matches Some(id) && s@ == id@),
{
}

/// An alias of another server is asked of that server.
pub proof fn law_remote_aliases_are_asked_of_their_server(
    alias: &str,
    federation: bool,
    r: Result<(String, String), ApiError>,
)
    requires
        call_ensures(remote_alias_request, (alias, federation), r),
    ensures
        r matches Ok(p) ==> federation && is_room_alias(alias@) && server_in(alias@) == Some(p.0@),
        is_room_alias(alias@) && server_in(alias@) is Some && federation ==> r is Ok,
        is_room_alias(alias@) && server_in(alias@) is Some && !federation
            ==> (r matches Err(e) && e@.status == 404),
{
}

/// The answer for an alias names a room, and the servers that are in it; where
/// it lists none it is the one that was asked.
pub proof fn law_remote_aliases_lead_to_a_room(
    answer: &Json,
    asked: &str,
    id: Seq<char>,
    r: Result<(String, Vec<String>), ApiError>,
)
    requires
        call_ensures(resolve_remote_alias, (answer, asked), r),
    ensures
        is_room_id(id) && field(answer@, "room_id"@) == Some(JsonV::Str(id))
            ==> (r matches Ok(p) && p.0@ == id),
        r matches Ok(p) ==> field(answer@, "room_id"@) == Some(JsonV::Str(p.0@))
            && is_room_id(p.0@),
        r matches Ok(p) ==> (!(field(answer@, "servers"@) matches Some(JsonV::Array(_)))
            ==> p.1@.len() == 1 && p.1@[0]@ == asked@),
        r matches Err(e) ==> e@.status == 404,
{
    match r {
        Ok(p) => {
            if !(field(answer@, "servers"@) matches Some(JsonV::Array(_))) {
                assert(texts(p.1@) == seq![asked@]);
                assert(texts(p.1@).len() == p.1@.len());
                assert(texts(p.1@)[0] == p.1@[0]@);
            }
        },
        Err(_) => {},
    }
}

/// An alias is made exactly where it is ours, the room is known, the user is in
/// it, and it is not reserved for somebody else.
pub proof fn law_aliases_are_made_by_members(
    alias: &str,
    our_name: &str,
    room: Result<(), ApiError>,
    joined: Result<(), ApiError>,
    ownership: Result<(), ApiError>,
    r: Result<(), ApiError>,
)
    requires
        call_ensures(create_alias, (alias, our_name, room, joined, ownership), r),
    ensures
        r is Ok <==> server_in(alias@) == Some(our_name@) && room is Ok && joined is Ok
            && ownership is Ok,
{
}

/// An alias is deleted exactly where it is known and not reserved for somebody
/// else, by who made it or who may administer the room.
pub proof fn law_aliases_are_deleted_by_who_may(
    creator: Option<&str>,
    ownership: Result<(), ApiError>,
    user_id: &str,
    may_administer: bool,
    r: Result<(), ApiError>,
)
    requires
        call_ensures(delete_alias, (creator, ownership, user_id, may_administer), r),
    ensures
        r is Ok <==> creator is Some && ownership is Ok && (creator->0@ == user_id@
            || may_administer),
        creator is None ==> (r matches Err(e) && e@.status == 404),
        creator is Some && ownership is Ok && r is Err ==> (r matches Err(e) && e@.status == 403),
{
}

/// Who may administer a room changes whether it is listed, and nobody else.
pub proof fn law_administrators_list_rooms(
    may_administer: bool,
    r: Result<(), ApiError>,
)
    requires
        call_ensures(set_visibility, (may_administer,), r),
    ensures
        r is Ok <==> may_administer,
        r matches Err(e) ==> e@.status == 403,
{
}

/// A directory shows the rooms that match, the first of them up to the limit,
/// and tells how many there are.
pub proof fn law_directories_are_cut_to_the_limit(
    rooms: &Vec<PublicRoom>,
    search_term: Option<&str>,
    limit: Option<u64>,
    i: int,
    r: (Vec<usize>, u64),
)
    requires
        call_ensures(directory_chunks, (rooms, search_term, limit), r),
    ensures
        ({
            let all = matching_rooms(rooms@, opt_str(search_term), rooms@.len() as int);
            &&& r.1 == all.len()
            &&& limit is None ==> r.0@.len() == all.len()
            &&& limit matches Some(l) ==> r.0@.len() == (if l < all.len() {
                l as int
            } else {
                all.len() as int
            })
            &&& 0 <= i < r.0@.len() ==> r.0@[i] == all[i]
        }),
{
    let all = matching_rooms(rooms@, opt_str(search_term), rooms@.len() as int);
    let shown = r.0@.map_values(|i: usize| i as int);
    assert(shown.len() == r.0@.len());
    if 0 <= i < r.0@.len() {
        assert(shown[i] == r.0@[i] as int);
    }
}

/// An event is changed exactly where it names the alias that goes.
pub proof fn law_only_naming_events_are_cleared(
    content: &Json,
    alias: &str,
    m: Map<Seq<char>, JsonV>,
    r: Option<Json>,
)
    requires
        call_ensures(cleared_canonical, (content, alias), r),
        content@ == JsonV::Object(m),
    ensures
        r is Some <==> (field(content@, "alias"@) == Some(JsonV::Str(alias@)) || (field(
            content@,
            "alt_aliases"@,
        ) matches Some(JsonV::Array(items)) && items.contains(JsonV::Str(alias@)))),
{
}

} // verus!

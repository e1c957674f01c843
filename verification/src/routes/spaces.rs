//! Spaces: the room hierarchy and room summaries.
use crate::decimal::{decimal, lemma_decimal_reads_back, parse_u64, parse_usize, read_number, show_u64};
use crate::error::{forbidden, invalid_param, not_found, outcome, ApiError, ApiErrorV};
use crate::json::{as_text, copy_fields, field, field2, fields_view, flag_set, is_true, items_view, no_fields, put_str,
    read_strings_in, remove, strings_in, text_json, Json, JsonV};
use crate::routes::sync::seq_number;
use crate::text::{chars_of, copy_texts, cut_at, lemma_split_join, lemma_split_whole, list_has, query_get, query_value,
    same_text, split, split_on, split_once, texts};
use vstd::prelude::*;
use vstd::string::StringExecFns;

verus! {

/// The server name inside a room ID: what follows its first colon.
pub fn server_of(room_id: &str) -> (r: Vec<String>)
    ensures
        texts(r@) == (match cut_at(room_id@, ':') {
            Some((_, server)) => seq![server],
            None => Seq::empty(),
        }),
{
    let mut out: Vec<String> = Vec::new();
    match split_once(room_id, ':') {
        Some((_, server)) => {
            out.push(server);
            proof {
                assert(texts(out@) =~= seq![server@]);
            }
        },
        None => {
            proof {
                assert(texts(out@) =~= Seq::<Seq<char>>::empty());
            }
        },
    }
    out
}

/// Pagination cursor for `next_batch` / `from`: the flat DFS offset plus the
/// filters that shaped the walk, so a follow-up page reconstructs the same
/// order.
#[derive(Clone, Copy, Debug, PartialEq, Eq, Structural)]
pub struct Cursor {
    pub offset: usize,
    pub suggested_only: bool,
    pub max_depth: Option<u64>,
}

/// How a cursor is written.
pub open spec fn cursor_text(c: Cursor) -> Seq<char> {
    decimal(c.offset as nat).push('.') + seq![
        if c.suggested_only {
            '1'
        } else {
            '0'
        },
    ].push('.') + match c.max_depth {
        Some(d) => decimal(d as nat),
        None => seq!['n'],
    }
}

pub open spec fn bad_cursor() -> ApiErrorV {
    invalid_param("invalid from token"@)
}

/// What a cursor's text means. Parts that are missing count as absent filters,
/// and parts that follow the third are ignored.
pub open spec fn read_cursor(s: Seq<char>) -> Result<Cursor, ApiErrorV> {
    let parts = split_on(s, '.');
    match read_number(parts[0], usize::MAX as nat) {
        Some(offset) => {
            let suggested_only = parts.len() > 1 && parts[1] == "1"@;
            if parts.len() > 2 && parts[2] != "n"@ {
                match seq_number(parts[2]) {
                    Some(d) => Ok(
                        Cursor {
                            offset: offset as usize,
                            suggested_only,
                            max_depth: Some(d as u64),
                        },
                    ),
                    None => Err(bad_cursor()),
                }
            } else {
                Ok(Cursor { offset: offset as usize, suggested_only, max_depth: None })
            }
        },
        None => Err(bad_cursor()),
    }
}

/// A written cursor reads back as itself.
pub proof fn law_cursor_reads_back(c: Cursor)
    ensures
        read_cursor(cursor_text(c)) == Ok::<Cursor, ApiErrorV>(c),
{
    reveal_strlit("1");
    reveal_strlit("n");
    let a = decimal(c.offset as nat);
    let b = seq![
        if c.suggested_only {
            '1'
        } else {
            '0'
        },
    ];
    let d = match c.max_depth {
        Some(d) => decimal(d as nat),
        None => seq!['n'],
    };
    lemma_decimal_reads_back(c.offset as nat, usize::MAX as nat);
    lemma_split_whole(a, '.');
    lemma_split_whole(b, '.');
    match c.max_depth {
        Some(n) => {
            lemma_decimal_reads_back(n as nat, u64::MAX as nat);
            assert(crate::decimal::is_digit(d[0]));
            assert("n"@[0] == 'n');
        },
        None => {
            assert("n"@ =~= d);
        },
    }
    lemma_split_whole(d, '.');
    lemma_split_join(b, '.', d);
    lemma_split_join(a, '.', b.push('.') + d);
    assert(cursor_text(c) =~= a.push('.') + (b.push('.') + d));
    assert(split_on(cursor_text(c), '.') =~= seq![a, b, d]);
    let parts = split_on(cursor_text(c), '.');
    assert(parts[0] == a && parts[1] == b && parts[2] == d);
    if c.suggested_only {
        assert(b =~= "1"@);
    } else {
        assert(b[0] != "1"@[0]);
    }
}

/// Writes a cursor.
pub fn encode_cursor(c: &Cursor) -> (r: String)
    ensures
        r@ == cursor_text(*c),
{
    let mut out = show_u64(c.offset as u64);
    out.push('.');
    out.push(
        if c.suggested_only {
            '1'
        } else {
            '0'
        },
    );
    out.push('.');
    match c.max_depth {
        Some(d) => {
            out.append(show_u64(d).as_str());
        },
        None => {
            out.push('n');
        },
    }
    proof {
        assert(out@ =~= cursor_text(*c));
    }
    out
}

/// Reads a cursor.
pub fn decode_cursor(from: &str) -> (r: Result<Cursor, ApiError>)
    ensures
        outcome(r) == read_cursor(from@),
{
    let parts = split(from, '.');
    let ghost views = texts(parts@);
    proof {
        crate::text::lemma_split_nonempty(from@, '.');
        assert(views[0] == parts@[0]@);
        if views.len() > 1 {
            assert(views[1] == parts@[1]@);
        }
        if views.len() > 2 {
            assert(views[2] == parts@[2]@);
        }
    }
    let offset = match parse_usize(parts[0].as_str()) {
        Some(n) => n,
        None => {
            return Err(ApiError::invalid_param("invalid from token"));
        },
    };
    let suggested_only = parts.len() > 1 && same_text(parts[1].as_str(), "1");
    let max_depth: Option<u64> = if parts.len() > 2 && !same_text(parts[2].as_str(), "n") {
        match parse_u64(parts[2].as_str()) {
            Some(d) => Some(d),
            None => {
                return Err(ApiError::invalid_param("invalid from token"));
            },
        }
    } else {
        None
    };
    Ok(Cursor { offset, suggested_only, max_depth })
}

// -- who sees a room ----------------------------------------------------------

/// Is a room open to look at by its join rule, for one who is (or is not)
/// joined to a room that the rule allows members of?
pub open spec fn open_by_rule(join_rule: Seq<char>, joined_allowed: bool) -> bool {
    ||| join_rule == "public"@
    ||| join_rule == "knock"@
    ||| join_rule == "knock_restricted"@
    ||| join_rule == "restricted"@ && joined_allowed
}

fn rule_is_open(join_rule: &str, joined_allowed: bool) -> (r: bool)
    ensures
        r == open_by_rule(join_rule@, joined_allowed),
{
    same_text(join_rule, "public") || same_text(join_rule, "knock") || same_text(
        join_rule,
        "knock_restricted",
    ) || (same_text(join_rule, "restricted") && joined_allowed)
}

/// Whether the user may see a room in the hierarchy: a member (join/invite), or
/// the room is joinable, knockable or peekable by its join rules and history
/// visibility.
pub fn viewable(
    membership: &str,
    join_rule: &str,
    world_readable: bool,
    joined_allowed: bool,
) -> (r: bool)
    ensures
        r == (membership@ == "join"@ || membership@ == "invite"@ || open_by_rule(
            join_rule@,
            joined_allowed,
        ) || world_readable),
{
    same_text(membership, "join") || same_text(membership, "invite") || rule_is_open(
        join_rule,
        joined_allowed,
    ) || world_readable
}

/// The summary of one room, for one who may have it: a member, one invited or
/// knocking, or anyone where the room can be peeked at. Otherwise the room
/// stays hidden.
pub fn get_room_summary(
    summary: Option<Vec<(String, Json)>>,
    membership: &str,
    join_rule: &str,
    world_readable: bool,
    room_version: &str,
) -> (r: Result<Json, ApiError>)
    ensures
        ({
            let member = membership@ == "join"@ || membership@ == "invite"@ || membership@
                == "knock"@;
            let peekable = open_by_rule(join_rule@, false) || world_readable;
            match summary {
                Some(m) => if member || peekable {
                    r matches Ok(j) && j@ == JsonV::Object(
                        fields_view(m@).insert("membership"@, JsonV::Str(membership@)).insert(
                            "room_version"@,
                            JsonV::Str(room_version@),
                        ),
                    )
                } else {
                    r matches Err(e) && e@ == not_found("Room not found."@)
                },
                None => r matches Err(e) && e@ == not_found("Room not found."@),
            }
        }),
{
    let mut out = match summary {
        Some(m) => m,
        None => {
            return Err(ApiError::not_found("Room not found."));
        },
    };
    let member = same_text(membership, "join") || same_text(membership, "invite") || same_text(
        membership,
        "knock",
    );
    if !member && !rule_is_open(join_rule, false) && !world_readable {
        return Err(ApiError::not_found("Room not found."));
    }
    put_str(&mut out, "membership", text_json(membership));
    put_str(&mut out, "room_version", text_json(room_version));
    Ok(Json::Object(out))
}

// -- rooms of other servers ---------------------------------------------------

/// How a room ID stands in the path of a hierarchy request to another server.
pub open spec fn path_char(c: char) -> Seq<char> {
    if c == '!' {
        "%21"@
    } else if c == ':' {
        "%3A"@
    } else if c == '$' {
        "%24"@
    } else {
        seq![c]
    }
}

pub open spec fn path_text(s: Seq<char>) -> Seq<char>
    decreases s.len(),
{
    if s.len() == 0 {
        Seq::empty()
    } else {
        path_text(s.drop_last()) + path_char(s.last())
    }
}

/// The path of a hierarchy request to another server.
pub fn hierarchy_path(room_id: &str, suggested_only: bool) -> (r: String)
    ensures
        r@ == "/_matrix/federation/v1/hierarchy/"@ + path_text(room_id@) + "?suggested_only="@ + (
        if suggested_only {
            "true"@
        } else {
            "false"@
        }),
{
    let chars = chars_of(room_id);
    let mut out = "/_matrix/federation/v1/hierarchy/".to_owned();
    let mut i: usize = 0;
    while i < chars.len()
        invariant
            i <= chars.len(),
            chars@ == room_id@,
            out@ == "/_matrix/federation/v1/hierarchy/"@ + path_text(chars@.take(i as int)),
        decreases chars.len() - i,
    {
        proof {
            assert(chars@.take(i + 1).drop_last() =~= chars@.take(i as int));
        }
        let c = chars[i];
        if c == '!' {
            out.append("%21");
        } else if c == ':' {
            out.append("%3A");
        } else if c == '$' {
            out.append("%24");
        } else {
            out.push(c);
        }
        proof {
            assert(out@ =~= "/_matrix/federation/v1/hierarchy/"@ + path_text(
                chars@.take(i + 1),
            ));
        }
        i += 1;
    }
    proof {
        assert(chars@.take(chars@.len() as int) =~= chars@);
    }
    out.append("?suggested_only=");
    out.append(
        if suggested_only {
            "true"
        } else {
            "false"
        },
    );
    out
}

/// What another server said of a room.
#[derive(Debug)]
pub struct RemoteRoom {
    /// The summary, without the links to its children.
    pub base: Vec<(String, Json)>,
    pub children_state: Vec<Json>,
    pub is_space: bool,
    pub join_rule: String,
    pub world_readable: bool,
    pub allowed_room_ids: Vec<String>,
}

pub open spec fn items_or_none(j: Option<JsonV>) -> Seq<JsonV> {
    match j {
        Some(JsonV::Array(items)) => items,
        _ => Seq::empty(),
    }
}

/// Reads the answer of another server to a hierarchy request; nothing where it
/// holds no room.
pub fn read_remote_room(answer: &Json) -> (r: Option<RemoteRoom>)
    ensures
        match field(answer@, "room"@) {
            Some(JsonV::Object(m)) => {
                let room = JsonV::Object(m);
                &&& r matches Some(n)
                &&& fields_view(n.base@) == m.remove("children_state"@)
                &&& items_view(n.children_state@) == items_or_none(field(room, "children_state"@))
                &&& n.is_space == (as_text(field(room, "room_type"@)) == Some("m.space"@))
                &&& n.join_rule@ == (match as_text(field(room, "join_rule"@)) {
                    Some(s) => s,
                    None => "invite"@,
                })
                &&& n.world_readable == is_true(field(room, "world_readable"@))
                &&& texts(n.allowed_room_ids@) == strings_in(field(room, "allowed_room_ids"@))
            },
            _ => r is None,
        },
{
    let room = match answer.get("room") {
        Some(j) => j,
        None => {
            return None;
        },
    };
    let fields = match room.as_object() {
        Some(m) => m,
        None => {
            return None;
        },
    };
    let is_space = match room.get_str("room_type") {
        Some(s) => same_text(s, "m.space"),
        None => false,
    };
    let join_rule = match room.get_str("join_rule") {
        Some(s) => s.to_owned(),
        None => "invite".to_owned(),
    };
    let mut children_state: Vec<Json> = Vec::new();
    match room.get("children_state") {
        Some(j) => match j.copy() {
            Json::Array(items) => {
                children_state = items;
            },
            _ => {},
        },
        None => {},
    }
    Some(
        RemoteRoom {
            base: remove(copy_fields(fields), "children_state"),
            children_state,
            is_space,
            join_rule,
            world_readable: flag_set(room.get("world_readable")),
            allowed_room_ids: read_strings_in(room.get("allowed_room_ids")),
        },
    )
}

/// The servers named on a link to a child, for reaching a child this server
/// does not host.
pub fn link_via(stripped: &Json) -> (r: Vec<String>)
    ensures
        texts(r@) == strings_in(field2(stripped@, "content"@, "via"@)),
{
    read_strings_in(stripped.get2("content", "via"))
}

/// The chunk of a room: its summary and the links to its children.
pub fn chunk(base: Vec<(String, Json)>, children_state: Vec<Json>) -> (r: Json)
    ensures
        r@ == JsonV::Object(
            fields_view(base@).insert(
                "children_state"@,
                JsonV::Array(items_view(children_state@)),
            ),
        ),
{
    let mut m = base;
    put_str(&mut m, "children_state", Json::Array(children_state));
    Json::Object(m)
}

// -- the request --------------------------------------------------------------

/// What a hierarchy request asks for.
#[derive(Clone, Copy, Debug, PartialEq, Eq, Structural)]
pub struct HierarchyQuery {
    pub offset: usize,
    pub suggested_only: bool,
    pub max_depth: Option<u64>,
    pub limit: Option<usize>,
}

pub open spec fn query_number(
    q: Seq<(String, String)>,
    key: Seq<char>,
    max: nat,
    fault: Seq<char>,
) -> Result<Option<nat>, ApiErrorV> {
    match query_value(q, key) {
        Some(v) => match read_number(v, max) {
            Some(n) => Ok(Some(n)),
            None => Err(invalid_param(fault)),
        },
        None => Ok(None),
    }
}

pub open spec fn opt_u64(n: Option<nat>) -> Option<u64> {
    match n {
        Some(x) => Some(x as u64),
        None => None,
    }
}

pub open spec fn opt_usize(n: Option<nat>) -> Option<usize> {
    match n {
        Some(x) => Some(x as usize),
        None => None,
    }
}

/// What a hierarchy request means. On a paginated request the cursor is
/// authoritative for the filters that shape the walk; a re-sent value that
/// conflicts with it is refused.
pub open spec fn hierarchy_query(q: Seq<(String, String)>) -> Result<HierarchyQuery, ApiErrorV> {
    let wanted = query_value(q, "suggested_only"@);
    match query_number(q, "max_depth"@, u64::MAX as nat, "max_depth: integer"@) {
        Err(e) => Err(e),
        Ok(depth) => match query_number(q, "limit"@, usize::MAX as nat, "limit: integer"@) {
            Err(e) => Err(e),
            Ok(limit) => match query_value(q, "from"@) {
                None => Ok(
                    HierarchyQuery {
                        offset: 0,
                        suggested_only: wanted == Some("true"@),
                        max_depth: opt_u64(depth),
                        limit: opt_usize(limit),
                    },
                ),
                Some(from) => match read_cursor(from) {
                    Err(e) => Err(e),
                    Ok(c) => if (wanted matches Some(w) && (w == "true"@) != c.suggested_only) || (
                    depth is Some && opt_u64(depth) != c.max_depth) {
                        Err(
                            invalid_param(
                                "suggested_only and max_depth cannot change on paginated requests"@,
                            ),
                        )
                    } else {
                        Ok(
                            HierarchyQuery {
                                offset: c.offset,
                                suggested_only: c.suggested_only,
                                max_depth: c.max_depth,
                                limit: opt_usize(limit),
                            },
                        )
                    },
                },
            },
        },
    }
}

/// Reads a hierarchy request.
pub fn parse_hierarchy_query(q: &Vec<(String, String)>) -> (r: Result<HierarchyQuery, ApiError>)
    ensures
        outcome(r) == hierarchy_query(q@),
{
    let wanted: Option<bool> = match query_get(q, "suggested_only") {
        Some(v) => Some(same_text(v.as_str(), "true")),
        None => None,
    };
    let max_depth: Option<u64> = match query_get(q, "max_depth") {
        Some(v) => match parse_u64(v.as_str()) {
            Some(n) => Some(n),
            None => {
                return Err(ApiError::invalid_param("max_depth: integer"));
            },
        },
        None => None,
    };
    let limit: Option<usize> = match query_get(q, "limit") {
        Some(v) => match parse_usize(v.as_str()) {
            Some(n) => Some(n),
            None => {
                return Err(ApiError::invalid_param("limit: integer"));
            },
        },
        None => None,
    };
    match query_get(q, "from") {
        Some(from) => {
            let c = match decode_cursor(from.as_str()) {
                Ok(c) => c,
                Err(e) => {
                    return Err(e);
                },
            };
            let changed = match wanted {
                Some(w) => w != c.suggested_only,
                None => false,
            };
            if changed || (max_depth.is_some() && max_depth != c.max_depth) {
                return Err(
                    ApiError::invalid_param(
                        "suggested_only and max_depth cannot change on paginated requests",
                    ),
                );
            }
            Ok(
                HierarchyQuery {
                    offset: c.offset,
                    suggested_only: c.suggested_only,
                    max_depth: c.max_depth,
                    limit,
                },
            )
        },
        None => {
            let suggested_only = match wanted {
                Some(w) => w,
                None => false,
            };
            Ok(HierarchyQuery { offset: 0, suggested_only, max_depth, limit })
        },
    }
}

/// The root of the walk must be known and visible.
pub fn check_root(root_viewable: Option<bool>) -> (r: Result<(), ApiError>)
    ensures
        outcome(r) == (match root_viewable {
            Some(true) => Ok::<(), ApiErrorV>(()),
            Some(false) => Err(forbidden("You are not allowed to view this room"@)),
            None => Err(not_found("Unknown room"@)),
        }),
{
    match root_viewable {
        Some(seen) => if seen {
            Ok(())
        } else {
            Err(ApiError::forbidden("You are not allowed to view this room"))
        },
        None => Err(ApiError::not_found("Unknown room")),
    }
}

// -- the walk -----------------------------------------------------------------

/// A room that the walk is to look at, and the servers to ask for it.
#[derive(Debug)]
pub struct Stop {
    pub room_id: String,
    pub depth: u64,
    pub hosts: Vec<String>,
}

pub struct StopV {
    pub room_id: Seq<char>,
    pub depth: int,
    pub hosts: Seq<Seq<char>>,
}

impl View for Stop {
    type V = StopV;

    open spec fn view(&self) -> StopV {
        StopV { room_id: self.room_id@, depth: self.depth as int, hosts: texts(self.hosts@) }
    }
}

/// A link to a child, as it stands in the order of the links.
#[derive(Debug)]
pub struct Link {
    pub target: String,
    pub hosts: Vec<String>,
}

/// What the walk has to know of a room.
#[derive(Debug)]
pub struct SpaceNode {
    pub viewable: bool,
    pub is_space: bool,
    pub links: Vec<Link>,
}

/// A depth-first walk, in pre-order, over the links of a space.
#[derive(Debug)]
pub struct Walk {
    pub pending: Vec<Stop>,
    pub visited: Vec<String>,
    pub ordered: Vec<String>,
    pub at: Option<Stop>,
}

pub struct WalkV {
    pub pending: Seq<StopV>,
    pub visited: Seq<Seq<char>>,
    pub ordered: Seq<Seq<char>>,
    pub at: Option<StopV>,
}

pub open spec fn stops(s: Seq<Stop>) -> Seq<StopV> {
    s.map_values(|x: Stop| x@)
}

impl View for Walk {
    type V = WalkV;

    open spec fn view(&self) -> WalkV {
        WalkV {
            pending: stops(self.pending@),
            visited: texts(self.visited@),
            ordered: texts(self.ordered@),
            at: match self.at {
                Some(s) => Some(s@),
                None => None,
            },
        }
    }
}

/// The walk that starts at a room.
pub open spec fn walk_from(room_id: Seq<char>) -> WalkV {
    WalkV {
        pending: seq![StopV { room_id, depth: 0, hosts: Seq::empty() }],
        visited: Seq::empty(),
        ordered: Seq::empty(),
        at: None,
    }
}

/// The walk at its next room: the latest pending stop that it has not been to.
pub open spec fn advanced(w: WalkV) -> WalkV
    decreases w.pending.len(),
{
    if w.pending.len() == 0 {
        WalkV { at: None, ..w }
    } else {
        let stop = w.pending.last();
        let rest = WalkV { pending: w.pending.drop_last(), ..w };
        if w.visited.contains(stop.room_id) {
            advanced(rest)
        } else {
            WalkV { visited: w.visited.push(stop.room_id), at: Some(stop), ..rest }
        }
    }
}

/// The stops for the children of a room that the walk has not been to, last
/// child first.
pub open spec fn child_stops(links: Seq<Link>, visited: Seq<Seq<char>>, depth: int) -> Seq<StopV>
    decreases links.len(),
{
    if links.len() == 0 {
        Seq::empty()
    } else {
        let rest = child_stops(links.drop_first(), visited, depth);
        if visited.contains(links[0].target@) {
            rest
        } else {
            rest.push(
                StopV { room_id: links[0].target@, depth, hosts: texts(links[0].hosts@) },
            )
        }
    }
}

/// Are the children of a room at this depth looked at?
pub open spec fn descends(is_space: bool, depth: int, max_depth: Option<u64>) -> bool {
    is_space && (max_depth matches Some(m) ==> depth < m)
}

/// The walk once it knows its room: a room that was found and may be seen is
/// listed, and the children of a space become pending.
pub open spec fn settled(w: WalkV, node: Option<SpaceNode>, max_depth: Option<u64>) -> WalkV {
    match (w.at, node) {
        (Some(stop), Some(n)) => if n.viewable {
            WalkV {
                pending: if descends(n.is_space, stop.depth, max_depth) {
                    w.pending + child_stops(n.links@, w.visited, stop.depth + 1)
                } else {
                    w.pending
                },
                ordered: w.ordered.push(stop.room_id),
                at: None,
                ..w
            }
        } else {
            WalkV { at: None, ..w }
        },
        _ => WalkV { at: None, ..w },
    }
}

/// Where the walk stands has no part in where it goes next.
proof fn lemma_advance_forgets(w: WalkV)
    ensures
        advanced(w) == advanced(WalkV { at: None, ..w }),
    decreases w.pending.len(),
{
    if w.pending.len() > 0 {
        lemma_advance_forgets(WalkV { pending: w.pending.drop_last(), ..w });
    }
}

impl Walk {
    /// No stop is deeper than the number of rooms on the way to it.
    pub open spec fn wf(self) -> bool {
        &&& forall|i: int|
            0 <= i < self.pending@.len() ==> (#[trigger] self.pending@[i]).depth
                <= self.visited@.len()
        &&& self.at matches Some(s) ==> s.depth < self.visited@.len()
    }

    /// A walk that starts at a room.
    pub fn start(room_id: &str) -> (r: Walk)
        ensures
            r.wf(),
            r@ == walk_from(room_id@),
    {
        let mut pending: Vec<Stop> = Vec::new();
        let hosts: Vec<String> = Vec::new();
        let first = Stop { room_id: room_id.to_owned(), depth: 0, hosts };
        pending.push(first);
        let r = Walk { pending, visited: Vec::new(), ordered: Vec::new(), at: None };
        proof {
            assert(texts(hosts@) =~= Seq::<Seq<char>>::empty());
            assert(r@.pending =~= walk_from(room_id@).pending);
            assert(r@.visited =~= walk_from(room_id@).visited);
            assert(r@.ordered =~= walk_from(room_id@).ordered);
        }
        r
    }

    /// Goes to the next room; `at` is empty when there is none.
    pub fn advance(&mut self)
        requires
            old(self).wf(),
        ensures
            final(self).wf(),
            final(self)@ == advanced(old(self)@),
    {
        self.at = None;
        let ghost target = advanced(old(self)@);
        proof {
            lemma_advance_forgets(old(self)@);
        }
        while self.pending.len() > 0
            invariant_except_break
                self.wf(),
                self.at is None,
                advanced(self@) == target,
            ensures
                self.wf(),
                self@ == target,
            decreases self.pending.len(),
        {
            let ghost before = self@;
            let ghost was = self.pending@;
            let stop = match self.pending.pop() {
                Some(s) => s,
                None => {
                    break;
                },
            };
            proof {
                assert(self.pending@ =~= was.drop_last());
                assert(self@.pending =~= before.pending.drop_last());
                assert(before.pending.last() == stop@);
            }
            if !list_has(&self.visited, stop.room_id.as_str()) {
                let ghost v = self.visited@;
                self.visited.push(stop.room_id.as_str().to_owned());
                proof {
                    assert(texts(self.visited@) =~= texts(v).push(stop.room_id@));
                }
                self.at = Some(stop);
                break;
            }
        }
    }

    /// Takes in what was found at the room where the walk is: nothing where no
    /// server knows the room.
    pub fn settle(&mut self, node: Option<&SpaceNode>, max_depth: Option<u64>)
        requires
            old(self).wf(),
        ensures
            final(self).wf(),
            final(self)@ == settled(
                old(self)@,
                match node {
                    Some(n) => Some(*n),
                    None => None,
                },
                max_depth,
            ),
    {
        let stop = match self.at.take() {
            Some(s) => s,
            None => {
                return;
            },
        };
        let n = match node {
            Some(n) => n,
            None => {
                return;
            },
        };
        if !n.viewable {
            return;
        }
        let ghost o = self.ordered@;
        self.ordered.push(stop.room_id.as_str().to_owned());
        proof {
            assert(texts(self.ordered@) =~= texts(o).push(stop.room_id@));
        }
        let deeper = match max_depth {
            Some(m) => stop.depth < m,
            None => true,
        };
        if n.is_space && deeper {
            let ghost base = self@;
            let seen: usize = self.visited.len();
            let mut i: usize = n.links.len();
            proof {
                assert(n.links@.skip(i as int) =~= Seq::<Link>::empty());
                assert(base.pending + Seq::<StopV>::empty() =~= base.pending);
            }
            while i > 0
                invariant
                    i <= n.links.len(),
                    self.wf(),
                    stop.depth < seen,
                    seen == self.visited@.len(),
                    self@.visited == base.visited,
                    self@.ordered == base.ordered,
                    self.at is None,
                    self@.pending == base.pending + child_stops(
                        n.links@.skip(i as int),
                        base.visited,
                        stop.depth + 1,
                    ),
                decreases i,
            {
                i -= 1;
                let ghost tail = n.links@.skip(i as int);
                proof {
                    assert(tail.drop_first() =~= n.links@.skip(i + 1));
                    assert(tail[0] == n.links@[i as int]);
                }
                if !list_has(&self.visited, n.links[i].target.as_str()) {
                    let ghost p = self.pending@;
                    let child = Stop {
                        room_id: n.links[i].target.as_str().to_owned(),
                        depth: stop.depth + 1,
                        hosts: copy_texts(&n.links[i].hosts),
                    };
                    self.pending.push(child);
                    proof {
                        assert(stops(self.pending@) =~= stops(p).push(child@));
                        assert(self@.pending =~= base.pending + child_stops(
                            tail,
                            base.visited,
                            stop.depth + 1,
                        ));
                    }
                }
            }
            proof {
                assert(n.links@.skip(0) =~= n.links@);
            }
        }
    }
}

/// Every listed room has been visited, and no room is visited or listed twice.
pub open spec fn lists_once(w: WalkV) -> bool {
    &&& w.visited.no_duplicates()
    &&& w.ordered.no_duplicates()
    &&& forall|i: int|
        0 <= i < w.ordered.len() ==> w.visited.contains(#[trigger] w.ordered[i])
    &&& w.at matches Some(s) ==> w.visited.contains(s.room_id) && !w.ordered.contains(s.room_id)
}

/// A walk lists no room twice, whatever links there are: cycles end.
pub proof fn law_walk_lists_each_room_once(
    room_id: Seq<char>,
    w: WalkV,
    node: Option<SpaceNode>,
    max_depth: Option<u64>,
)
    ensures
        lists_once(walk_from(room_id)),
        lists_once(w) ==> lists_once(advanced(w)),
        lists_once(w) ==> lists_once(settled(w, node, max_depth)),
    decreases w.pending.len(),
{
    if lists_once(w) {
        if w.pending.len() > 0 {
            let stop = w.pending.last();
            let rest = WalkV { pending: w.pending.drop_last(), ..w };
            if w.visited.contains(stop.room_id) {
                law_walk_lists_each_room_once(room_id, rest, node, max_depth);
            } else {
                let a = advanced(w);
                assert(a.visited.no_duplicates());
                assert forall|i: int| 0 <= i < a.ordered.len() implies a.visited.contains(
                    #[trigger] a.ordered[i],
                ) by {
                    let k = choose|k: int| 0 <= k < w.visited.len() && w.visited[k] == w.ordered[i];
                    assert(a.visited[k] == w.visited[k]);
                }
                assert(a.visited[w.visited.len() as int] == stop.room_id);
                if a.ordered.contains(stop.room_id) {
                    let k = choose|k: int|
                        0 <= k < w.ordered.len() && w.ordered[k] == stop.room_id;
                    assert(w.visited.contains(w.ordered[k]));
                }
            }
        }
        let s = settled(w, node, max_depth);
        if w.at is Some && s.ordered.len() > w.ordered.len() {
            let id = w.at->0.room_id;
            assert(s.ordered == w.ordered.push(id));
            assert forall|i: int| 0 <= i < s.ordered.len() implies s.visited.contains(
                #[trigger] s.ordered[i],
            ) by {
                if i < w.ordered.len() {
                    assert(s.ordered[i] == w.ordered[i]);
                }
            }
            assert forall|i: int, j: int|
                0 <= i < s.ordered.len() && 0 <= j < s.ordered.len() && i
                    != j implies s.ordered[i] != s.ordered[j] by {
                if i < w.ordered.len() {
                    assert(w.ordered.contains(w.ordered[i]));
                }
                if j < w.ordered.len() {
                    assert(w.ordered.contains(w.ordered[j]));
                }
            }
        }
    }
}

/// A walk of at most `n` more rooms, where `nodes` says what is found at a stop.
pub open spec fn walked(
    w: WalkV,
    nodes: spec_fn(StopV) -> Option<SpaceNode>,
    max_depth: Option<u64>,
    n: nat,
) -> WalkV
    decreases n,
{
    if n == 0 {
        w
    } else {
        let a = advanced(w);
        match a.at {
            Some(stop) => walked(
                settled(a, nodes(stop), max_depth),
                nodes,
                max_depth,
                (n - 1) as nat,
            ),
            None => a,
        }
    }
}

/// The stops for all children of a room, in the order of the links.
pub open spec fn all_children(links: Seq<Link>, depth: int) -> Seq<StopV> {
    links.map_values(
        |l: Link| StopV { room_id: l.target@, depth, hosts: texts(l.hosts@) },
    )
}

/// The children that are looked at behind a stop.
pub open spec fn children_of(
    stop: StopV,
    node: Option<SpaceNode>,
    max_depth: Option<u64>,
) -> Seq<StopV> {
    match node {
        Some(n) => if n.viewable && descends(n.is_space, stop.depth, max_depth) {
            all_children(n.links@, stop.depth + 1)
        } else {
            Seq::empty()
        },
        None => Seq::empty(),
    }
}

/// What is listed of a stop itself.
pub open spec fn listed_of(stop: StopV, node: Option<SpaceNode>) -> Seq<Seq<char>> {
    if node matches Some(n) && n.viewable {
        seq![stop.room_id]
    } else {
        Seq::empty()
    }
}

pub open spec fn least_nat(a: nat, b: nat) -> nat {
    if a <= b {
        a
    } else {
        b
    }
}

/// Some stops in depth-first pre-order: each room that was not visited, then what
/// is below it, then the stops that follow. At most `n` rooms are visited. Gives
/// what is listed, what has been visited, and how many visits are left.
pub open spec fn preorder(
    list: Seq<StopV>,
    visited: Seq<Seq<char>>,
    nodes: spec_fn(StopV) -> Option<SpaceNode>,
    max_depth: Option<u64>,
    n: nat,
) -> (Seq<Seq<char>>, Seq<Seq<char>>, nat)
    decreases n, list.len(),
{
    if n == 0 || list.len() == 0 {
        (Seq::empty(), visited, n)
    } else {
        let stop = list[0];
        let rest = list.drop_first();
        if visited.contains(stop.room_id) {
            preorder(rest, visited, nodes, max_depth, n)
        } else {
            let node = nodes(stop);
            let left = (n - 1) as nat;
            let below = preorder(
                children_of(stop, node, max_depth),
                visited.push(stop.room_id),
                nodes,
                max_depth,
                left,
            );
            let behind = preorder(rest, below.1, nodes, max_depth, least_nat(below.2, left));
            (listed_of(stop, node) + below.0 + behind.0, behind.1, behind.2)
        }
    }
}

proof fn lemma_preorder_grows(
    list: Seq<StopV>,
    visited: Seq<Seq<char>>,
    nodes: spec_fn(StopV) -> Option<SpaceNode>,
    max_depth: Option<u64>,
    n: nat,
)
    ensures
        preorder(list, visited, nodes, max_depth, n).2 <= n,
        forall|r: Seq<char>|
            visited.contains(r) ==> #[trigger] preorder(
                list,
                visited,
                nodes,
                max_depth,
                n,
            ).1.contains(r),
    decreases n, list.len(),
{
    if n > 0 && list.len() > 0 {
        let stop = list[0];
        let rest = list.drop_first();
        if visited.contains(stop.room_id) {
            lemma_preorder_grows(rest, visited, nodes, max_depth, n);
        } else {
            let v = visited.push(stop.room_id);
            let left = (n - 1) as nat;
            let kids = children_of(stop, nodes(stop), max_depth);
            lemma_preorder_grows(kids, v, nodes, max_depth, left);
            let below = preorder(kids, v, nodes, max_depth, left);
            lemma_preorder_grows(rest, below.1, nodes, max_depth, least_nat(below.2, left));
            assert forall|r: Seq<char>| visited.contains(r) implies #[trigger] preorder(
                list,
                visited,
                nodes,
                max_depth,
                n,
            ).1.contains(r) by {
                let i = choose|i: int| 0 <= i < visited.len() && visited[i] == r;
                assert(v[i] == r);
                assert(below.1.contains(r));
            }
        }
    }
}

/// Stops one behind the other are walked one behind the other.
proof fn lemma_preorder_joins(
    x: Seq<StopV>,
    y: Seq<StopV>,
    visited: Seq<Seq<char>>,
    nodes: spec_fn(StopV) -> Option<SpaceNode>,
    max_depth: Option<u64>,
    n: nat,
)
    ensures
        ({
            let first = preorder(x, visited, nodes, max_depth, n);
            let second = preorder(y, first.1, nodes, max_depth, first.2);
            preorder(x + y, visited, nodes, max_depth, n) == (
                first.0 + second.0,
                second.1,
                second.2,
            )
        }),
    decreases n, x.len(),
{
    let first = preorder(x, visited, nodes, max_depth, n);
    let second = preorder(y, first.1, nodes, max_depth, first.2);
    if n == 0 {
        assert(first.0 + second.0 =~= Seq::<Seq<char>>::empty());
    } else if x.len() == 0 {
        assert(x + y =~= y);
        assert(first.0 + second.0 =~= second.0);
    } else {
        let stop = x[0];
        let rest = x.drop_first();
        assert((x + y).drop_first() =~= rest + y);
        assert((x + y)[0] == stop);
        if visited.contains(stop.room_id) {
            lemma_preorder_joins(rest, y, visited, nodes, max_depth, n);
        } else {
            let v = visited.push(stop.room_id);
            let left = (n - 1) as nat;
            let own = listed_of(stop, nodes(stop));
            let below = preorder(children_of(stop, nodes(stop), max_depth), v, nodes, max_depth, left);
            let m = least_nat(below.2, left);
            lemma_preorder_joins(rest, y, below.1, nodes, max_depth, m);
            let behind = preorder(rest, below.1, nodes, max_depth, m);
            assert(own + below.0 + (behind.0 + second.0) =~= own + below.0 + behind.0 + second.0);
        }
    }
}

/// Children that were visited before need no stop.
proof fn lemma_preorder_skips(
    links: Seq<Link>,
    depth: int,
    known: Seq<Seq<char>>,
    visited: Seq<Seq<char>>,
    nodes: spec_fn(StopV) -> Option<SpaceNode>,
    max_depth: Option<u64>,
    n: nat,
)
    requires
        forall|r: Seq<char>| known.contains(r) ==> #[trigger] visited.contains(r),
    ensures
        preorder(
            child_stops(links, known, depth).reverse(),
            visited,
            nodes,
            max_depth,
            n,
        ) == preorder(all_children(links, depth), visited, nodes, max_depth, n),
    decreases links.len(),
{
    let some = child_stops(links, known, depth).reverse();
    let all = all_children(links, depth);
    if links.len() == 0 {
        assert(some =~= all);
    } else if n > 0 {
        let tail = links.drop_first();
        let first = StopV { room_id: links[0].target@, depth, hosts: texts(links[0].hosts@) };
        assert(all[0] == first);
        assert(all.drop_first() =~= all_children(tail, depth));
        let others = child_stops(tail, known, depth);
        if known.contains(first.room_id) {
            lemma_preorder_skips(tail, depth, known, visited, nodes, max_depth, n);
        } else {
            assert(some =~= seq![first] + others.reverse());
            assert(some.drop_first() =~= others.reverse());
            assert(some[0] == first);
            if visited.contains(first.room_id) {
                lemma_preorder_skips(tail, depth, known, visited, nodes, max_depth, n);
            } else {
                let v = visited.push(first.room_id);
                let left = (n - 1) as nat;
                let kids = children_of(first, nodes(first), max_depth);
                lemma_preorder_grows(kids, v, nodes, max_depth, left);
                let below = preorder(kids, v, nodes, max_depth, left);
                assert forall|r: Seq<char>| known.contains(r) implies #[trigger] below.1.contains(
                    r,
                ) by {
                    assert(visited.contains(r));
                    let i = choose|i: int| 0 <= i < visited.len() && visited[i] == r;
                    assert(v[i] == r);
                }
                lemma_preorder_skips(
                    tail,
                    depth,
                    known,
                    below.1,
                    nodes,
                    max_depth,
                    least_nat(below.2, left),
                );
            }
        }
    }
}

/// The next room of a walk is the next one in pre-order.
proof fn lemma_advance_in_preorder(
    w: WalkV,
    nodes: spec_fn(StopV) -> Option<SpaceNode>,
    max_depth: Option<u64>,
    n: nat,
)
    requires
        n > 0,
    ensures
        ({
            let a = advanced(w);
            let p = preorder(w.pending.reverse(), w.visited, nodes, max_depth, n);
            &&& a.ordered == w.ordered
            &&& match a.at {
                Some(stop) => !w.visited.contains(stop.room_id) && a.visited == w.visited.push(
                    stop.room_id,
                ) && p == preorder(
                    seq![stop] + a.pending.reverse(),
                    w.visited,
                    nodes,
                    max_depth,
                    n,
                ),
                None => a.visited == w.visited && p.0.len() == 0 && p.1 == w.visited,
            }
        }),
    decreases w.pending.len(),
{
    if w.pending.len() > 0 {
        let stop = w.pending.last();
        let rest = WalkV { pending: w.pending.drop_last(), ..w };
        let list = w.pending.reverse();
        assert(list =~= seq![stop] + rest.pending.reverse());
        assert(list.drop_first() =~= rest.pending.reverse());
        if w.visited.contains(stop.room_id) {
            lemma_advance_in_preorder(rest, nodes, max_depth, n);
        }
    }
}

/// The whole walk is depth-first and in pre-order: whatever is pending, what it
/// lists are the pending stops, latest first, each followed by all that is below
/// it before the next one comes.
pub proof fn law_walk_is_in_preorder(
    w: WalkV,
    nodes: spec_fn(StopV) -> Option<SpaceNode>,
    max_depth: Option<u64>,
    n: nat,
)
    requires
        w.at is None,
    ensures
        ({
            let p = preorder(w.pending.reverse(), w.visited, nodes, max_depth, n);
            let end = walked(w, nodes, max_depth, n);
            end.ordered == w.ordered + p.0 && end.visited == p.1
        }),
    decreases n,
{
    let list = w.pending.reverse();
    let p = preorder(list, w.visited, nodes, max_depth, n);
    if n == 0 {
        assert(w.ordered + p.0 =~= w.ordered);
    } else {
        lemma_advance_in_preorder(w, nodes, max_depth, n);
        let a = advanced(w);
        match a.at {
            Some(stop) => {
                let node = nodes(stop);
                let left = (n - 1) as nat;
                let kids = children_of(stop, node, max_depth);
                let next = settled(a, node, max_depth);
                let rest = a.pending.reverse();
                let own = listed_of(stop, node);
                law_walk_is_in_preorder(next, nodes, max_depth, left);
                let whole = seq![stop] + rest;
                assert(whole[0] == stop);
                assert(whole.drop_first() =~= rest);
                lemma_preorder_grows(kids, a.visited, nodes, max_depth, left);
                lemma_preorder_joins(kids, rest, a.visited, nodes, max_depth, left);
                let below = preorder(kids, a.visited, nodes, max_depth, left);
                let behind = preorder(rest, below.1, nodes, max_depth, below.2);
                assert(p == (own + below.0 + behind.0, behind.1, behind.2));
                if kids.len() > 0 || (node matches Some(x) && x.viewable && descends(
                    x.is_space,
                    stop.depth,
                    max_depth,
                )) {
                    let links = node->0.links@;
                    let some = child_stops(links, a.visited, stop.depth + 1);
                    assert(next.pending == a.pending + some);
                    assert(next.pending.reverse() =~= some.reverse() + rest);
                    lemma_preorder_skips(
                        links,
                        stop.depth + 1,
                        a.visited,
                        a.visited,
                        nodes,
                        max_depth,
                        left,
                    );
                    lemma_preorder_joins(some.reverse(), rest, a.visited, nodes, max_depth, left);
                } else {
                    assert(kids =~= Seq::<StopV>::empty());
                    assert(next.pending == a.pending);
                    assert(below.0 =~= Seq::<Seq<char>>::empty());
                    assert(kids + rest =~= rest);
                }
                assert(next.ordered =~= w.ordered + own);
                assert(w.ordered + own + (below.0 + behind.0) =~= w.ordered + (own + below.0
                    + behind.0));
            },
            None => {
                assert(w.ordered + p.0 =~= w.ordered);
            },
        }
    }
}

/// No pending stop is deeper than the bound.
pub open spec fn keeps_depth(w: WalkV, max_depth: u64) -> bool {
    &&& forall|i: int| 0 <= i < w.pending.len() ==> (#[trigger] w.pending[i]).depth <= max_depth
    &&& w.at matches Some(s) ==> s.depth <= max_depth
}

proof fn lemma_child_depth(links: Seq<Link>, visited: Seq<Seq<char>>, depth: int)
    ensures
        forall|i: int|
            0 <= i < child_stops(links, visited, depth).len() ==> (#[trigger] child_stops(
                links,
                visited,
                depth,
            )[i]).depth == depth,
    decreases links.len(),
{
    if links.len() > 0 {
        let rest = child_stops(links.drop_first(), visited, depth);
        lemma_child_depth(links.drop_first(), visited, depth);
        assert forall|i: int|
            0 <= i < child_stops(links, visited, depth).len() implies (#[trigger] child_stops(
            links,
            visited,
            depth,
        )[i]).depth == depth by {
            if i < rest.len() {
                assert(child_stops(links, visited, depth)[i] == rest[i]);
            }
        }
    }
}

/// A walk never goes deeper than it was asked to.
pub proof fn law_walk_keeps_to_its_depth(
    room_id: Seq<char>,
    w: WalkV,
    node: Option<SpaceNode>,
    max_depth: u64,
)
    ensures
        keeps_depth(walk_from(room_id), max_depth),
        keeps_depth(w, max_depth) ==> keeps_depth(advanced(w), max_depth),
        keeps_depth(w, max_depth) ==> keeps_depth(settled(w, node, Some(max_depth)), max_depth),
    decreases w.pending.len(),
{
    if keeps_depth(w, max_depth) {
        if w.pending.len() > 0 {
            let stop = w.pending.last();
            let rest = WalkV { pending: w.pending.drop_last(), ..w };
            assert(keeps_depth(rest, max_depth));
            if w.visited.contains(stop.room_id) {
                law_walk_keeps_to_its_depth(room_id, rest, node, max_depth);
            }
        }
        match (w.at, node) {
            (Some(stop), Some(n)) => {
                lemma_child_depth(n.links@, w.visited, stop.depth + 1);
            },
            _ => {},
        }
    }
}

/// A room is listed only where it was found and the user may see it.
pub proof fn law_walk_lists_only_what_is_seen(
    w: WalkV,
    node: Option<SpaceNode>,
    max_depth: Option<u64>,
)
    requires
        settled(w, node, max_depth).ordered != w.ordered,
    ensures
        node matches Some(n) && n.viewable,
        w.at matches Some(s) && settled(w, node, max_depth).ordered == w.ordered.push(s.room_id),
{
}

// -- paging -------------------------------------------------------------------

/// Where a page ends.
pub open spec fn page_end(total: int, offset: int, limit: Option<usize>) -> int {
    match limit {
        Some(l) => if offset + l < total {
            offset + l
        } else {
            total
        },
        None => total,
    }
}

/// The rooms of a page: those from `offset` to where the page ends.
pub open spec fn hierarchy_page(
    ordered: Seq<Seq<char>>,
    offset: int,
    limit: Option<usize>,
) -> Seq<Seq<char>> {
    if offset < ordered.len() {
        ordered.subrange(offset, page_end(ordered.len() as int, offset, limit))
    } else {
        Seq::empty()
    }
}

/// The rooms of a page, and the cursor of the next one where there are more.
pub fn page_rooms(ordered: &Vec<String>, q: &HierarchyQuery) -> (r: (Vec<String>, Option<Cursor>))
    requires
        q.limit matches Some(l) ==> q.offset + l <= usize::MAX,
    ensures
        ({
            let end = page_end(ordered@.len() as int, q.offset as int, q.limit);
            &&& texts(r.0@) == hierarchy_page(texts(ordered@), q.offset as int, q.limit)
            &&& r.1 == (if end < ordered@.len() {
                Some(
                    Cursor {
                        offset: end as usize,
                        suggested_only: q.suggested_only,
                        max_depth: q.max_depth,
                    },
                )
            } else {
                None
            })
        }),
{
    let total = ordered.len();
    let end: usize = match q.limit {
        Some(l) => if q.offset + l < total {
            q.offset + l
        } else {
            total
        },
        None => total,
    };
    let mut out: Vec<String> = Vec::new();
    if q.offset < total {
        let mut i: usize = q.offset;
        proof {
            assert(texts(out@) =~= texts(ordered@).subrange(i as int, i as int));
        }
        while i < end
            invariant
                q.offset <= i <= end <= ordered.len(),
                texts(out@) == texts(ordered@).subrange(q.offset as int, i as int),
            decreases end - i,
        {
            let s = ordered[i].as_str().to_owned();
            proof {
                assert(texts(out@.push(s)) =~= texts(out@).push(s@));
                assert(texts(ordered@).subrange(q.offset as int, i + 1) =~= texts(
                    ordered@,
                ).subrange(q.offset as int, i as int).push(s@));
            }
            out.push(s);
            i += 1;
        }
    } else {
        proof {
            assert(texts(out@) =~= Seq::<Seq<char>>::empty());
        }
    }
    let next = if end < total {
        Some(Cursor { offset: end, suggested_only: q.suggested_only, max_depth: q.max_depth })
    } else {
        None
    };
    (out, next)
}

/// Following the cursors walks through the whole order without gap or overlap.
pub proof fn law_hierarchy_pages_join_up(ordered: Seq<Seq<char>>, offset: int, limit: usize)
    requires
        0 <= offset,
        page_end(ordered.len() as int, offset, Some(limit)) < ordered.len(),
    ensures
        hierarchy_page(ordered, offset, Some(limit)) + ordered.skip(
            page_end(ordered.len() as int, offset, Some(limit)),
        ) == ordered.skip(offset),
{
    assert(hierarchy_page(ordered, offset, Some(limit)) + ordered.skip(
        page_end(ordered.len() as int, offset, Some(limit)),
    ) =~= ordered.skip(offset));
}

/// The answer to a hierarchy request.
pub fn get_hierarchy(rooms: Vec<Json>, next: Option<Cursor>) -> (r: Json)
    ensures
        ({
            let m = no_fields().insert("rooms"@, JsonV::Array(items_view(rooms@)));
            r@ == JsonV::Object(
                match next {
                    Some(c) => m.insert("next_batch"@, JsonV::Str(cursor_text(c))),
                    None => m,
                },
            )
        }),
{
    let mut m: Vec<(String, Json)> = Vec::new();
    put_str(&mut m, "rooms", Json::Array(rooms));
    match next {
        Some(c) => {
            put_str(&mut m, "next_batch", Json::Str(encode_cursor(&c)));
        },
        None => {},
    }
    Json::Object(m)
}

// -- what a hierarchy comes to -----------------------------------------------------

/// Rooms that anyone can join or knock on are open, restricted rooms are to
/// those who may join; no other is by its join rule.
pub proof fn law_open_rooms_are_seen(join_rule: Seq<char>, joined_allowed: bool)
    ensures
        open_by_rule("public"@, joined_allowed),
        open_by_rule("knock"@, joined_allowed),
        open_by_rule("knock_restricted"@, joined_allowed),
        open_by_rule("restricted"@, joined_allowed) == joined_allowed,
        !open_by_rule("invite"@, joined_allowed),
        !open_by_rule("private"@, joined_allowed),
        open_by_rule(join_rule, joined_allowed) ==> join_rule == "public"@ || join_rule == "knock"@
            || join_rule == "knock_restricted"@ || join_rule == "restricted"@,
{
    reveal_strlit("public");
    reveal_strlit("knock");
    reveal_strlit("knock_restricted");
    reveal_strlit("restricted");
    reveal_strlit("invite");
    reveal_strlit("private");
    assert("public"@.len() == 6 && "knock"@.len() == 5 && "knock_restricted"@.len() == 16
        && "restricted"@.len() == 10 && "invite"@.len() == 6 && "private"@.len() == 7);
    assert("public"@[0] == 'p' && "invite"@[0] == 'i');
}

/// A room ID in a path is written character by character, with the sigils and
/// the colon escaped.
pub proof fn law_paths_are_escaped(
    a: Seq<char>,
    b: Seq<char>,
    x: char,
)
    ensures
        path_text(a + b) == path_text(a) + path_text(b),
        path_text(seq![x]) == (if x == '!' {
            "%21"@
        } else if x == ':' {
            "%3A"@
        } else if x == '$' {
            "%24"@
        } else {
            seq![x]
        }),
    decreases b.len(),
{
    reveal_with_fuel(path_text, 2);
    assert(seq![x].drop_last() =~= Seq::<char>::empty());
    if b.len() == 0 {
        assert(a + b =~= a);
    } else {
        law_paths_are_escaped(a, b.drop_last(), x);
        assert((a + b).drop_last() =~= a + b.drop_last());
        assert((a + b).last() == b.last());
    }

    assert(path_text(a + b) =~= path_text(a) + path_text(b));
}

/// A space that is seen is walked into while the depth allows: each of its
/// links leads to a stop one deeper, with the servers that the link names,
/// unless the room was visited; the first link is taken first. Nothing else is.
pub proof fn law_links_lead_one_deeper(
    links: Seq<Link>,
    visited: Seq<Seq<char>>,
    depth: int,
    l: Link,
)
    ensures
        child_stops(seq![l] + links, visited, depth) == child_stops(links, visited, depth) + (
        if visited.contains(l.target@) {
            Seq::empty()
        } else {
            seq![StopV { room_id: l.target@, depth, hosts: texts(l.hosts@) }]
        }),
        child_stops(Seq::empty(), visited, depth).len() == 0,
{
    assert((seq![l] + links).drop_first() =~= links);
    assert((seq![l] + links)[0] == l);
    assert(child_stops(links, visited, depth) + Seq::<StopV>::empty() =~= child_stops(
        links,
        visited,
        depth,
    ));
}

/// What a stop comes to: a room that is seen is listed, and its links are taken
/// up where it is a space above the greatest depth; a room that is not seen is
/// passed over.
pub proof fn law_seen_rooms_are_listed(
    w: WalkV,
    stop: StopV,
    node: SpaceNode,
    max_depth: Option<u64>,
)
    requires
        w.at == Some(stop),
    ensures
        ({
            let now = settled(w, Some(node), max_depth);
            &&& now.at is None
            &&& now.visited == w.visited
            &&& node.viewable ==> now.ordered == w.ordered.push(stop.room_id)
            &&& !node.viewable ==> now.ordered == w.ordered && now.pending == w.pending
            &&& node.viewable && node.is_space && (max_depth is None || stop.depth < max_depth->0)
                ==> now.pending == w.pending + child_stops(node.links@, w.visited, stop.depth + 1)
            &&& !node.is_space || (max_depth is Some && stop.depth >= max_depth->0)
                ==> now.pending == w.pending
            &&& settled(w, None, max_depth).ordered == w.ordered
            &&& settled(w, None, max_depth).pending == w.pending
        }),
{
}

/// The walk goes on with the last stop that is pending and not yet visited.
pub proof fn law_the_last_stop_comes_next(w: WalkV, stop: StopV)
    requires
        w.pending.len() > 0,
        w.pending.last() == stop,
    ensures
        !w.visited.contains(stop.room_id) ==> {
            let a = advanced(w);
            &&& a.at == Some(stop)
            &&& a.visited == w.visited.push(stop.room_id)
            &&& a.pending == w.pending.drop_last()
            &&& a.ordered == w.ordered
        },
        w.visited.contains(stop.room_id) ==> advanced(w) == advanced(
            WalkV { pending: w.pending.drop_last(), ..w },
        ),
        advanced(WalkV { pending: Seq::empty(), ..w }).at is None,
{
}

/// A walk begins at the room that is asked for.
pub proof fn law_walks_begin_at_the_root(room_id: Seq<char>)
    ensures
        ({
            let a = advanced(walk_from(room_id));
            &&& a.at matches Some(s) && s.room_id == room_id && s.depth == 0
            &&& a.pending.len() == 0
            &&& a.ordered.len() == 0
        }),
{
    let w = walk_from(room_id);
    assert(w.pending.drop_last() =~= Seq::<StopV>::empty());
}

/// A question for a hierarchy means what it says: it asks for suggested rooms
/// alone exactly where it says so, down to the depth that it gives, and no more
/// rooms than its limit. A token brings what it was made with, and a question
/// that says otherwise is refused.
pub proof fn law_questions_for_hierarchies_mean_what_they_say(q: Seq<(String, String)>)
    ensures
        hierarchy_query(q) matches Ok(r) ==> {
            &&& query_value(q, "limit"@) is None ==> r.limit is None
            &&& query_value(q, "limit"@) matches Some(l)
                ==> (read_number(l, usize::MAX as nat) matches Some(
                n,
            ) && r.limit == Some(n as usize))
            &&& query_value(q, "suggested_only"@) matches Some(w) ==> r.suggested_only == (w
                == "true"@)
            &&& query_value(q, "max_depth"@) matches Some(d)
                ==> (read_number(d, u64::MAX as nat) matches Some(
                n,
            ) && r.max_depth == Some(n as u64))
            &&& query_value(q, "from"@) is None ==> {
                &&& r.offset == 0
                &&& query_value(q, "suggested_only"@) is None ==> !r.suggested_only
                &&& query_value(q, "max_depth"@) is None ==> r.max_depth is None
            }
            &&& query_value(q, "from"@) matches Some(t) ==> (read_cursor(t) matches Ok(c)
                && r.offset == c.offset && r.suggested_only == c.suggested_only && r.max_depth
                == c.max_depth)
        },
        query_value(q, "from"@) is None ==> (hierarchy_query(q) is Ok <==> (query_value(
            q,
            "limit"@,
        ) is Some ==> read_number(query_value(q, "limit"@)->0, usize::MAX as nat) is Some) && (
        query_value(q, "max_depth"@) is Some ==> read_number(
            query_value(q, "max_depth"@)->0,
            u64::MAX as nat,
        ) is Some)),
        hierarchy_query(q) matches Err(e) ==> e.status == 400,
{
}

/// A page begins where it is asked to and holds as many rooms as its limit
/// allows, in their order.
pub proof fn law_hierarchy_pages_are_filled(
    ordered: Seq<Seq<char>>,
    offset: int,
    limit: Option<usize>,
    i: int,
)
    requires
        0 <= offset,
    ensures
        ({
            let page = hierarchy_page(ordered, offset, limit);
            &&& 0 <= i < page.len() ==> page[i] == ordered[offset + i]
            &&& offset >= ordered.len() ==> page.len() == 0
            &&& offset < ordered.len() && limit is None ==> page.len() == ordered.len() - offset
            &&& offset < ordered.len() && limit is Some ==> page.len() == (if offset + limit->0
                < ordered.len() {
                limit->0 as int
            } else {
                ordered.len() - offset
            })
        }),
{
}

/// A room is seen by who is in it or invited, by anybody where it is
/// world-readable or open by its join rule, and by nobody else.
pub proof fn law_members_see_rooms(
    membership: &str,
    join_rule: &str,
    world_readable: bool,
    joined_allowed: bool,
    r: bool,
)
    requires
        call_ensures(viewable, (membership, join_rule, world_readable, joined_allowed), r),
    ensures
        r <==> {
            ||| membership@ == "join"@
            ||| membership@ == "invite"@
            ||| world_readable
            ||| join_rule@ == "public"@
            ||| join_rule@ == "knock"@
            ||| join_rule@ == "knock_restricted"@
            ||| join_rule@ == "restricted"@ && joined_allowed
        },
{
}

/// A summary is given exactly where the room is known and the user is in it,
/// invited or knocking, or anybody can see it; it tells the user's membership
/// and the version.
pub proof fn law_summaries_are_for_who_may_see(
    summary: Option<Vec<(String, Json)>>,
    membership: &str,
    join_rule: &str,
    world_readable: bool,
    version: &str,
    r: Result<Json, ApiError>,
)
    requires
        call_ensures(get_room_summary, (summary, membership, join_rule, world_readable, version),
            r),
    ensures
        r is Ok <==> summary is Some && {
            ||| membership@ == "join"@
            ||| membership@ == "invite"@
            ||| membership@ == "knock"@
            ||| world_readable
            ||| join_rule@ == "public"@
            ||| join_rule@ == "knock"@
            ||| join_rule@ == "knock_restricted"@
        },
        r matches Ok(j) ==> field(j@, "membership"@) == Some(JsonV::Str(membership@))
            && field(j@, "room_version"@) == Some(JsonV::Str(version@)),
        r matches Err(e) ==> e@.status == 404,
{
    reveal_strlit("membership");
    reveal_strlit("room_version");
    assert("membership"@.len() == 10 && "room_version"@.len() == 12);
}

/// A hierarchy is shown of a room that the user may see.
pub proof fn law_roots_must_be_seen(
    root_viewable: Option<bool>,
    r: Result<(), ApiError>,
)
    requires
        call_ensures(check_root, (root_viewable,), r),
    ensures
        r is Ok <==> root_viewable == Some(true),
        root_viewable == Some(false) ==> (r matches Err(e) && e@.status == 403),
        root_viewable is None ==> (r matches Err(e) && e@.status == 404),
{
}

/// There is a token exactly where there are more rooms; it goes on behind the
/// page, and keeps what was asked for.
pub proof fn law_pages_go_on_where_they_end(
    ordered: &Vec<String>,
    q: &HierarchyQuery,
    r: (Vec<String>, Option<Cursor>),
)
    requires
        call_ensures(page_rooms, (ordered, q), r),
        q.limit matches Some(l) ==> q.offset + l <= usize::MAX,
    ensures
        q.limit is None ==> r.1 is None,
        q.limit matches Some(l) ==> (r.1 is Some <==> q.offset + l < ordered@.len()),
        r.1 matches Some(c) ==> c.offset == q.offset + q.limit->0
            && c.suggested_only == q.suggested_only && c.max_depth == q.max_depth,
{
}

/// What another server tells of a room is read: whether it is a space, who may
/// join and read it, and its links.
pub proof fn law_remote_rooms_are_read(
    answer: &Json,
    m: Map<Seq<char>, JsonV>,
    k: Seq<char>,
    r: Option<RemoteRoom>,
)
    requires
        call_ensures(read_remote_room, (answer,), r),
        field(answer@, "room"@) == Some(JsonV::Object(m)),
    ensures
        r matches Some(n) && {
            let room = JsonV::Object(m);
            &&& n.is_space <==> field(room, "room_type"@) == Some(JsonV::Str("m.space"@))
            &&& field(room, "join_rule"@) matches Some(JsonV::Str(s)) ==> n.join_rule@ == s
            &&& field(room, "join_rule"@) is None ==> n.join_rule@ == "invite"@
            &&& n.world_readable <==> field(room, "world_readable"@) == Some(JsonV::Bool(true))
            &&& k != "children_state"@ ==> field(JsonV::Object(fields_view(n.base@)), k)
                == field(room, k)
            &&& field(room, "children_state"@) matches Some(JsonV::Array(items)) ==> items_view(
                n.children_state@,
            ) == items
        },
{
}

/// A token may be short: what it leaves out is neither suggested rooms alone
/// nor a depth.
pub proof fn law_tokens_may_be_short(s: Seq<char>)
    ensures
        read_cursor(s) matches Ok(c) ==> {
            let parts = split_on(s, '.');
            &&& Some(c.offset as nat) == read_number(parts[0], usize::MAX as nat)
            &&& c.suggested_only <==> parts.len() >= 2 && parts[1] == "1"@
            &&& parts.len() <= 2 ==> c.max_depth is None
            &&& parts.len() >= 3 && parts[2] == "n"@ ==> c.max_depth is None
        },
        split_on(s, '.').len() <= 2 ==> (read_cursor(s) is Ok <==> read_number(
            split_on(s, '.')[0],
            usize::MAX as nat,
        ) is Some),
{
}

} // verus!

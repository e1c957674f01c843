//! `/sync`: stream positions and their tokens.
use crate::decimal::{decimal, lemma_decimal_reads_back, parse_u64, read_number, show_u64};
use crate::error::{forbidden, internal, invalid_param, not_found, outcome, string_array, strings_json, ApiError, ApiErrorV};
use crate::ids::{check_room_id, check_user_id, is_room_id, is_user_id};
use crate::json::{as_fields, as_text, copy_fields, entry, field, field2, fields_view, get, items_view, lemma_items, no_fields, object_of,
    one_field, put_str, text_json, Json, JsonV};
use crate::presence::{PresenceEntryV, PresenceSnapshot, PresenceSnapshotV};
use crate::push_eval::{counts_for, is_read_receipt, max_of, ReceiptPos};
use crate::room_util::{find_state, state_entry, stripped, stripped_event, StateEvent};
use crate::routes::rooms::opt_json;
use crate::routes::rooms::reads::{clamp_int, format_topo_token, topo_token};
use crate::text::{begins_with, lemma_split_join, lemma_split_whole, list_has, opt_text, same_text, split, split_on, strip_prefix,
    texts};
use vstd::prelude::*;
use vstd::string::StringExecFns;

verus! {

/// A position in the streams that `/sync` reads from.
#[derive(Clone, Copy, Debug, PartialEq, Eq, Structural)]
pub struct SyncPos {
    pub room: u64,
    pub user: u64,
    pub typing: u64,
    pub presence: u64,
}

/// How a position is written: `s`, then its four numbers.
pub open spec fn sync_token(p: SyncPos) -> Seq<char> {
    seq!['s'] + decimal(p.room as nat).push('_') + decimal(p.user as nat).push('_') + decimal(
        p.typing as nat,
    ).push('_') + decimal(p.presence as nat)
}

pub open spec fn seq_number(s: Seq<char>) -> Option<nat> {
    read_number(s, u64::MAX as nat)
}

/// The position that a token stands for. A token of three numbers carries no
/// presence position: its window starts from 0.
pub open spec fn read_token(s: Seq<char>) -> Option<SyncPos> {
    let parts = split_on(s.skip(1), '_');
    let n = |i: int| seq_number(parts[i]);
    if s.len() > 0 && s[0] == 's' && (parts.len() == 3 || parts.len() == 4) && n(0) is Some && n(1)
        is Some && n(2) is Some && (parts.len() == 4 ==> n(3) is Some) {
        Some(
            SyncPos {
                room: n(0)->0 as u64,
                user: n(1)->0 as u64,
                typing: n(2)->0 as u64,
                presence: if parts.len() == 4 {
                    n(3)->0 as u64
                } else {
                    0
                },
            },
        )
    } else {
        None
    }
}

/// A token reads back as the position it was written for.
pub proof fn law_token_reads_back(p: SyncPos)
    ensures
        read_token(sync_token(p)) == Some(p),
{
    let a = decimal(p.room as nat);
    let b = decimal(p.user as nat);
    let c = decimal(p.typing as nat);
    let d = decimal(p.presence as nat);
    let max = u64::MAX as nat;
    lemma_decimal_reads_back(p.room as nat, max);
    lemma_decimal_reads_back(p.user as nat, max);
    lemma_decimal_reads_back(p.typing as nat, max);
    lemma_decimal_reads_back(p.presence as nat, max);
    lemma_split_whole(a, '_');
    lemma_split_whole(b, '_');
    lemma_split_whole(c, '_');
    lemma_split_whole(d, '_');
    lemma_split_join(c, '_', d);
    lemma_split_join(b, '_', c.push('_') + d);
    lemma_split_join(a, '_', b.push('_') + (c.push('_') + d));
    assert(sync_token(p).skip(1) =~= a.push('_') + (b.push('_') + (c.push('_') + d)));
    assert(split_on(sync_token(p).skip(1), '_') =~= seq![a, b, c, d]);
    let parts = split_on(sync_token(p).skip(1), '_');
    assert(parts[0] == a && parts[1] == b && parts[2] == c && parts[3] == d);
}

/// Different positions have different tokens.
pub proof fn law_tokens_differ(p: SyncPos, q: SyncPos)
    requires
        sync_token(p) == sync_token(q),
    ensures
        p == q,
{
    law_token_reads_back(p);
    law_token_reads_back(q);
}

/// Writes a position as a token.
pub fn format_token(p: SyncPos) -> (r: String)
    ensures
        r@ == sync_token(p),
{
    let mut out = String::new();
    out.push('s');
    out.append(show_u64(p.room).as_str());
    out.push('_');
    out.append(show_u64(p.user).as_str());
    out.push('_');
    out.append(show_u64(p.typing).as_str());
    out.push('_');
    out.append(show_u64(p.presence).as_str());
    proof {
        assert(out@ =~= sync_token(p));
    }
    out
}

/// Reads a token.
pub fn parse_token(s: &str) -> (r: Result<SyncPos, ApiError>)
    ensures
        outcome(r) == (match read_token(s@) {
            Some(p) => Ok::<SyncPos, ApiErrorV>(p),
            None => Err(invalid_param("Invalid sync token"@)),
        }),
{
    proof {
        reveal_strlit("s");
        assert("s"@ =~= seq!['s']);
        if s@.len() > 0 {
            assert(s@.take(1) =~= seq![s@[0]]);
        }
        assert(begins_with(s@, "s"@) <==> s@.len() > 0 && s@[0] == 's') by {
            if begins_with(s@, "s"@) {
                assert(s@.take(1)[0] == "s"@[0]);
            }
        }
    }
    let body = match strip_prefix(s, "s") {
        Some(b) => b,
        None => {
            return Err(ApiError::invalid_param("Invalid sync token"));
        },
    };
    let parts = split(body.as_str(), '_');
    let ghost views = texts(parts@);
    if parts.len() != 3 && parts.len() != 4 {
        return Err(ApiError::invalid_param("Invalid sync token"));
    }
    proof {
        assert(views[0] == parts@[0]@ && views[1] == parts@[1]@ && views[2] == parts@[2]@);
        if views.len() == 4 {
            assert(views[3] == parts@[3]@);
        }
    }
    let room = parse_u64(parts[0].as_str());
    let user = parse_u64(parts[1].as_str());
    let typing = parse_u64(parts[2].as_str());
    let presence: Option<u64> = if parts.len() == 4 {
        parse_u64(parts[3].as_str())
    } else {
        Some(0)
    };
    match (room, user, typing, presence) {
        (Some(room), Some(user), Some(typing), Some(presence)) => Ok(
            SyncPos { room, user, typing, presence },
        ),
        _ => Err(ApiError::invalid_param("Invalid sync token")),
    }
}

/// The user-stream position in a token.
pub fn token_user_seq(s: &str) -> (r: Result<u64, ApiError>)
    ensures
        outcome(r) == (match read_token(s@) {
            Some(p) => Ok::<u64, ApiErrorV>(p.user),
            None => Err(invalid_param("Invalid sync token"@)),
        }),
{
    match parse_token(s) {
        Ok(p) => Ok(p.user),
        Err(e) => Err(e),
    }
}

/// The room-stream position in a token.
pub fn token_room_seq(s: &str) -> (r: Result<u64, ApiError>)
    ensures
        outcome(r) == (match read_token(s@) {
            Some(p) => Ok::<u64, ApiErrorV>(p.room),
            None => Err(invalid_param("Invalid sync token"@)),
        }),
{
    match parse_token(s) {
        Ok(p) => Ok(p.room),
        Err(e) => Err(e),
    }
}

// -- filters ------------------------------------------------------------------

/// What a sync filter says of rooms.
#[derive(Clone, Copy, Debug, PartialEq, Eq, Structural)]
pub struct FilterFacts {
    pub timeline_limit: Option<u64>,
    pub lazy_load_members: bool,
}

/// What the filter that a JSON text defines says of rooms, or what `serde_json` says
/// is wrong with the text.
pub uninterp spec fn parsed_filter(json: Seq<char>) -> Result<FilterFacts, Seq<char>>;

/// `serde_json::from_str` into a `ruma::api::client::filter::FilterDefinition`, of
/// which `room.timeline.limit` is taken and whether `room.state` is loaded lazily.
/// Which texts it reads, as what, and the wording of the fault are named and not
/// stated.
#[verifier::external_body]
fn read_filter(json: &str) -> (r: Result<FilterFacts, String>)
    ensures
        match parsed_filter(json@) {
            Ok(f) => r == Ok::<FilterFacts, String>(f),
            Err(t) => r matches Err(e) && e@ == t,
        },
{
    let filter: ruma::api::client::filter::FilterDefinition =
        serde_json::from_str(json).map_err(|e| e.to_string())?;
    Ok(FilterFacts {
        timeline_limit: filter.room.timeline.limit.map(u64::from),
        lazy_load_members: match filter.room.state.lazy_load_options {
            ruma::api::client::filter::LazyLoadOptions::Disabled => false,
            ruma::api::client::filter::LazyLoadOptions::Enabled { .. } => true,
        },
    })
}

/// The filter of a sync: none, one that is written out, or the ID of one that is
/// stored.
#[derive(Debug)]
pub enum FilterParam {
    Absent,
    Definition(FilterFacts),
    Id(String),
}

/// The filter that the parameter of a request names: the text of a filter, or else
/// an ID.
pub fn filter_param(filter: Option<&str>) -> (r: FilterParam)
    ensures
        match filter {
            Some(t) => match parsed_filter(t@) {
                Ok(f) => r == FilterParam::Definition(f),
                Err(_) => r matches FilterParam::Id(id) && id@ == t@,
            },
            None => r is Absent,
        },
{
    match filter {
        Some(t) => match read_filter(t) {
            Ok(f) => FilterParam::Definition(f),
            Err(_) => FilterParam::Id(t.to_owned()),
        },
        None => FilterParam::Absent,
    }
}

/// The timeline limit and whether members are loaded lazily: 10 and not, unless
/// a filter says otherwise; at least 1 and at most 100.
pub open spec fn limits_of(definition: Option<FilterFacts>) -> (int, bool) {
    match definition {
        Some(d) => (
            match d.timeline_limit {
                Some(l) => clamp_int(l as int, 1, 100),
                None => 10,
            },
            d.lazy_load_members,
        ),
        None => (10, false),
    }
}

/// The timeline limit and whether members are loaded lazily, of a filter that was
/// read.
pub fn filter_limits(definition: Option<FilterFacts>) -> (r: (usize, bool))
    ensures
        (r.0 as int, r.1) == limits_of(definition),
{
    match definition {
        Some(d) => {
            let limit: usize = match d.timeline_limit {
                Some(l) => if l < 1 {
                    1
                } else if l > 100 {
                    100
                } else {
                    l as usize
                },
                None => 10,
            };
            (limit, d.lazy_load_members)
        },
        None => (10, false),
    }
}

/// The timeline limit and whether members are loaded lazily. For the ID of a
/// filter, `stored` is the text that is stored under it.
pub fn load_filter(filter: &FilterParam, stored: Option<&str>) -> (r: Result<
    (usize, bool),
    ApiError,
>)
    ensures
        match filter {
            FilterParam::Absent => r matches Ok(x) && (x.0 as int, x.1) == limits_of(None),
            FilterParam::Definition(f) => r matches Ok(x) && (x.0 as int, x.1) == limits_of(
                Some(*f),
            ),
            FilterParam::Id(_) => match stored {
                Some(t) => match parsed_filter(t@) {
                    Ok(f) => r matches Ok(x) && (x.0 as int, x.1) == limits_of(Some(f)),
                    Err(e) => r matches Err(x) && x@ == internal(e),
                },
                None => r matches Err(x) && x@ == invalid_param("Unknown filter ID"@),
            },
        },
{
    match filter {
        FilterParam::Absent => Ok(filter_limits(None)),
        FilterParam::Definition(f) => Ok(filter_limits(Some(*f))),
        FilterParam::Id(_) => match stored {
            Some(t) => match read_filter(t) {
                Ok(f) => Ok(filter_limits(Some(f))),
                Err(e) => Err(ApiError::internal(e.as_str())),
            },
            None => Err(ApiError::invalid_param("Unknown filter ID")),
        },
    }
}

// -- what a sync shows of each room -------------------------------------------

/// A user's membership in a room, with the position at which it was recorded.
#[derive(Debug)]
pub struct MembershipEntry {
    pub membership: String,
    pub sender: String,
    pub seq: u64,
}

/// What a sync does with a room.
#[derive(Clone, Copy, Debug, PartialEq, Eq, Structural)]
pub enum RoomAction {
    /// Show it as joined, from `since` on.
    Joined { initial: bool, since: SyncPos },
    Invited,
    Left,
    Skip,
}

/// The position before everything.
pub open spec fn zero_pos() -> SyncPos {
    SyncPos { room: 0, user: 0, typing: 0, presence: 0 }
}

pub open spec fn pos_or_zero(since: Option<SyncPos>) -> SyncPos {
    match since {
        Some(s) => s,
        None => zero_pos(),
    }
}

/// What a sync does with a room. A join that was recorded after the client's
/// last sync is shown from the beginning: the room's events may all predate
/// the since token. Invites from ignored users are suppressed, and rooms left
/// before the token are not mentioned again.
pub open spec fn room_action(
    m: MembershipEntry,
    since: Option<SyncPos>,
    ignored: Seq<Seq<char>>,
) -> RoomAction {
    let initial = since is None;
    let new = initial || m.seq > pos_or_zero(since).user;
    if m.membership@ == "join"@ {
        RoomAction::Joined {
            initial: new,
            since: if new {
                zero_pos()
            } else {
                pos_or_zero(since)
            },
        }
    } else if m.membership@ == "invite"@ && new && !ignored.contains(m.sender@) {
        RoomAction::Invited
    } else if (m.membership@ == "leave"@ || m.membership@ == "ban"@) && !initial && new {
        RoomAction::Left
    } else {
        RoomAction::Skip
    }
}

/// What a sync does with a room.
pub fn plan_room(m: &MembershipEntry, since: Option<SyncPos>, ignored: &Vec<String>) -> (r:
    RoomAction)
    ensures
        r == room_action(*m, since, texts(ignored@)),
{
    proof {
        reveal_strlit("join");
        reveal_strlit("invite");
        reveal_strlit("leave");
        reveal_strlit("ban");
        assert("join"@.len() == 4 && "invite"@.len() == 6 && "leave"@.len() == 5 && "ban"@.len()
            == 3);
    }
    let zero = SyncPos { room: 0, user: 0, typing: 0, presence: 0 };
    let initial = since.is_none();
    let pos = match since {
        Some(s) => s,
        None => zero,
    };
    let new = initial || m.seq > pos.user;
    if same_text(m.membership.as_str(), "join") {
        return RoomAction::Joined {
            initial: new,
            since: if new {
                zero
            } else {
                pos
            },
        };
    }
    if same_text(m.membership.as_str(), "invite") {
        return if new && !list_has(ignored, m.sender.as_str()) {
            RoomAction::Invited
        } else {
            RoomAction::Skip
        };
    }
    if same_text(m.membership.as_str(), "leave") || same_text(m.membership.as_str(), "ban") {
        return if !initial && new {
            RoomAction::Left
        } else {
            RoomAction::Skip
        };
    }
    RoomAction::Skip
}

/// The names of an object's fields, each once, in the order of first mention.
pub open spec fn field_names(fields: Seq<(String, Json)>) -> Seq<Seq<char>>
    decreases fields.len(),
{
    if fields.len() == 0 {
        Seq::empty()
    } else {
        let init = field_names(fields.drop_last());
        if init.contains(fields.last().0@) {
            init
        } else {
            init.push(fields.last().0@)
        }
    }
}

proof fn lemma_field_names(fields: Seq<(String, Json)>, k: Seq<char>)
    ensures
        field_names(fields).contains(k) <==> fields_view(fields).dom().contains(k),
    decreases fields.len(),
{
    if fields.len() > 0 {
        let init = fields.drop_last();
        lemma_field_names(init, k);
        let a = field_names(init);
        let all = field_names(fields);
        let last = fields.last().0@;
        if !a.contains(last) {
            assert(all[a.len() as int] == last);
            if all.contains(k) {
                let i = choose|i: int| 0 <= i < all.len() && all[i] == k;
                if i < a.len() {
                    assert(a[i] == k);
                }
            }
            if a.contains(k) {
                let i = choose|i: int| 0 <= i < a.len() && a[i] == k;
                assert(all[i] == k);
            }
        }
    }
}

/// The users that a client ignores, from its `m.ignored_user_list`.
pub fn ignored_users(account_data: &Option<Json>) -> (r: Vec<String>)
    ensures
        match ignored_map(opt_json(*account_data)) {
            Some(m) => forall|k: Seq<char>| #[trigger] texts(r@).contains(k) <==> m.dom().contains(k),
            None => r@.len() == 0,
        },
{
    let mut out: Vec<String> = Vec::new();
    match account_data {
        Some(j) => match j.get("ignored_users") {
            Some(u) => match u.as_object() {
                Some(fields) => {
                    let mut i: usize = 0;
                    proof {
                        assert(texts(out@) =~= field_names(fields@.take(0)));
                    }
                    while i < fields.len()
                        invariant
                            i <= fields.len(),
                            texts(out@) == field_names(fields@.take(i as int)),
                        decreases fields.len() - i,
                    {
                        proof {
                            assert(fields@.take(i + 1).drop_last() =~= fields@.take(i as int));
                            assert(fields@.take(i + 1).last() == fields@[i as int]);
                        }
                        if !list_has(&out, fields[i].0.as_str()) {
                            let s = fields[i].0.as_str().to_owned();
                            proof {
                                assert(texts(out@.push(s)) =~= texts(out@).push(s@));
                            }
                            out.push(s);
                        }
                        i += 1;
                    }
                    proof {
                        assert(fields@.take(fields@.len() as int) =~= fields@);
                        assert forall|k: Seq<char>| #[trigger]
                            texts(out@).contains(k) <==> fields_view(fields@).dom().contains(k) by {
                            lemma_field_names(fields@, k);
                        }
                    }
                },
                None => {},
            },
            None => {},
        },
        None => {},
    }
    out
}

/// The object that lists ignored users.
pub open spec fn ignored_map(account_data: Option<JsonV>) -> Option<Map<Seq<char>, JsonV>> {
    match account_data {
        Some(j) => as_fields(field(j, "ignored_users"@)),
        None => None,
    }
}

// -- the timeline of a joined room --------------------------------------------

/// A timeline row: its position, and the event in client format where it can
/// be shown.
#[derive(Debug)]
pub struct TimelineRow {
    pub seq: u64,
    pub event: Option<Json>,
}

/// The part of a room's timeline that a sync shows.
#[derive(Debug)]
pub struct Window {
    /// Oldest first.
    pub rows: Vec<TimelineRow>,
    /// Older events lie between the since token and the window.
    pub limited: bool,
}

/// The oldest-first window that newest-first rows make.
pub open spec fn window_rows(newest_first: Seq<TimelineRow>, limit: int) -> Seq<TimelineRow> {
    let n = if newest_first.len() > limit {
        limit
    } else {
        newest_first.len() as int
    };
    newest_first.take(n).reverse()
}

/// Cuts newest-first rows, of which one more than `limit` was asked for, down
/// to the window and turns it round.
pub fn timeline_window(newest_first: Vec<TimelineRow>, limit: usize) -> (r: Window)
    ensures
        r.rows@ == window_rows(newest_first@, limit as int),
        r.limited == (newest_first@.len() > limit),
{
    let limited = newest_first.len() > limit;
    let ghost all = newest_first@;
    let mut rest = newest_first;
    if limited {
        rest.truncate(limit);
    }
    let ghost kept = rest@;
    let mut rows: Vec<TimelineRow> = Vec::new();
    proof {
        assert(kept =~= all.take(kept.len() as int));
        assert(rest@.take(rest@.len() as int) =~= kept);
    }
    while rest.len() > 0
        invariant
            rest@.len() <= kept.len(),
            rest@ == kept.take(rest@.len() as int),
            rows@.len() == kept.len() - rest@.len(),
            forall|i: int|
                0 <= i < rows@.len() ==> #[trigger] rows@[i] == kept[kept.len() - 1 - i],
        decreases rest.len(),
    {
        let row = rest.pop().unwrap();
        rows.push(row);
        proof {
            assert(rest@ =~= kept.take(rest@.len() as int));
        }
    }
    proof {
        assert(rows@ =~= kept.reverse());
    }
    Window { rows, limited }
}

/// Rows of a room's timeline between two positions, newest first.
pub open spec fn rows_between(rows: Seq<TimelineRow>, since: u64, now: u64) -> bool {
    &&& forall|i: int| 0 <= i < rows.len() ==> since < (#[trigger] rows[i]).seq <= now
    &&& forall|i: int, j: int|
        #![trigger rows[i], rows[j]]
        0 <= i < j < rows.len() ==> rows[i].seq > rows[j].seq
}

/// A window that is not limited shows everything between the token and now; a
/// limited one shows the newest part of it. Either way it is oldest first and
/// no longer than the limit.
pub proof fn law_window_shows_the_newest(
    newest_first: Seq<TimelineRow>,
    limit: int,
    since: u64,
    now: u64,
)
    requires
        0 <= limit,
        rows_between(newest_first, since, now),
    ensures
        ({
            let w = window_rows(newest_first, limit);
            &&& w.len() <= limit
            &&& forall|i: int, j: int|
                #![trigger w[i], w[j]]
                0 <= i < j < w.len() ==> w[i].seq < w[j].seq
            &&& newest_first.len() <= limit ==> forall|i: int|
                0 <= i < newest_first.len() ==> w.contains(#[trigger] newest_first[i])
            &&& forall|i: int, j: int|
                #![trigger w[i], newest_first[j]]
                0 <= i < w.len() && limit <= j < newest_first.len() ==> w[i].seq
                    > newest_first[j].seq
        }),
{
    let w = window_rows(newest_first, limit);
    let n = w.len();
    assert forall|i: int| 0 <= i < n implies #[trigger] w[i] == newest_first[n - 1 - i] by {}
    assert forall|i: int, j: int|
        #![trigger w[i], w[j]]
        0 <= i < j < n implies w[i].seq < w[j].seq by {
        assert(newest_first[n - 1 - j].seq > newest_first[n - 1 - i].seq);
    }
    if newest_first.len() <= limit {
        assert forall|i: int| 0 <= i < newest_first.len() implies w.contains(
            #[trigger] newest_first[i],
        ) by {
            assert(w[n - 1 - i] == newest_first[i]);
        }
    }
    assert forall|i: int, j: int|
        #![trigger w[i], newest_first[j]]
        0 <= i < n && limit <= j < newest_first.len() implies w[i].seq > newest_first[j].seq by {
        assert(newest_first[n - 1 - i].seq > newest_first[j].seq);
    }
}

/// The `prev_batch` token of a window: at its first event, with the room position
/// at which it is minted.
pub fn prev_batch(w: &Window, now: SyncPos) -> (r: Option<String>)
    ensures
        opt_text(r) == (if w.rows@.len() > 0 {
            Some(topo_token(w.rows@[0].seq as nat, Some(now.room as nat)))
        } else {
            None
        }),
{
    if w.rows.len() > 0 {
        Some(format_topo_token(w.rows[0].seq, Some(now.room)))
    } else {
        None
    }
}

/// The position at which the state before a window is read: just before its
/// first event, or now.
pub fn state_position(w: &Window, now: SyncPos) -> (r: u64)
    ensures
        r == (if w.rows@.len() > 0 {
            if w.rows@[0].seq > 0 {
                w.rows@[0].seq - 1
            } else {
                0
            }
        } else {
            now.room as int
        }),
{
    if w.rows.len() > 0 {
        w.rows[0].seq.saturating_sub(1)
    } else {
        now.room
    }
}

/// The events of a window that can be shown.
pub open spec fn shown_events(rows: Seq<TimelineRow>) -> Seq<JsonV>
    decreases rows.len(),
{
    if rows.len() == 0 {
        Seq::empty()
    } else {
        let init = shown_events(rows.drop_last());
        match rows.last().event {
            Some(j) => init.push(j@),
            None => init,
        }
    }
}

/// The senders of such events.
pub open spec fn shown_senders(rows: Seq<TimelineRow>) -> Seq<Seq<char>>
    decreases rows.len(),
{
    if rows.len() == 0 {
        Seq::empty()
    } else {
        let init = shown_senders(rows.drop_last());
        match rows.last().event {
            Some(j) => match as_text(field(j@, "sender"@)) {
                Some(s) => init.push(s),
                None => init,
            },
            None => init,
        }
    }
}

/// The events of a window, and their senders.
pub fn window_events(rows: &Vec<TimelineRow>) -> (r: (Vec<Json>, Vec<String>))
    ensures
        items_view(r.0@) == shown_events(rows@),
        texts(r.1@) == shown_senders(rows@),
{
    let mut events: Vec<Json> = Vec::new();
    let mut senders: Vec<String> = Vec::new();
    let mut i: usize = 0;
    proof {
        assert(texts(senders@) =~= shown_senders(rows@.take(0)));
    }
    while i < rows.len()
        invariant
            i <= rows.len(),
            items_view(events@) == shown_events(rows@.take(i as int)),
            texts(senders@) == shown_senders(rows@.take(i as int)),
        decreases rows.len() - i,
    {
        proof {
            assert(rows@.take(i + 1).drop_last() =~= rows@.take(i as int));
            assert(rows@.take(i + 1).last() == rows@[i as int]);
        }
        match &rows[i].event {
            Some(j) => {
                match j.get_str("sender") {
                    Some(s) => {
                        let t = s.to_owned();
                        proof {
                            assert(texts(senders@.push(t)) =~= texts(senders@).push(t@));
                        }
                        senders.push(t);
                    },
                    None => {},
                }
                let c = j.copy();
                proof {
                    assert(events@.push(c).drop_last() =~= events@);
                }
                events.push(c);
            },
            None => {},
        }
        i += 1;
    }
    proof {
        assert(rows@.take(rows@.len() as int) =~= rows@);
    }
    (events, senders)
}

// -- state --------------------------------------------------------------------

/// Does a state entry belong into a sync? Not if the client has it already,
/// and of lazily loaded members only the senders in the timeline.
pub open spec fn state_shown(
    e: StateEvent,
    base: Seq<StateEvent>,
    lazy: bool,
    senders: Seq<Seq<char>>,
) -> bool {
    &&& !(state_entry(base, e.event_type@, e.state_key@) matches Some(b) && b.event_id@
        == e.event_id@)
    &&& !(lazy && e.event_type@ == "m.room.member"@ && !senders.contains(e.state_key@))
}

/// The state events of a sync: what changed between `base` and `state`.
pub open spec fn state_delta(
    state: Seq<StateEvent>,
    base: Seq<StateEvent>,
    lazy: bool,
    senders: Seq<Seq<char>>,
) -> Seq<JsonV>
    decreases state.len(),
{
    if state.len() == 0 {
        Seq::empty()
    } else {
        let init = state_delta(state.drop_last(), base, lazy, senders);
        let e = state.last();
        match e.event {
            Some(j) => if state_shown(e, base, lazy, senders) {
                init.push(j@)
            } else {
                init
            },
            None => init,
        }
    }
}

/// State delta up to the start of the timeline. An initial sync, or one that
/// asks for full state, has an empty `base`.
pub fn sync_state(
    state: &Vec<StateEvent>,
    base: &Vec<StateEvent>,
    lazy: bool,
    senders: &Vec<String>,
) -> (r: Vec<Json>)
    ensures
        items_view(r@) == state_delta(state@, base@, lazy, texts(senders@)),
{
    let mut out: Vec<Json> = Vec::new();
    let mut i: usize = 0;
    while i < state.len()
        invariant
            i <= state.len(),
            items_view(out@) == state_delta(state@.take(i as int), base@, lazy, texts(senders@)),
        decreases state.len() - i,
    {
        proof {
            assert(state@.take(i + 1).drop_last() =~= state@.take(i as int));
            assert(state@.take(i + 1).last() == state@[i as int]);
        }
        let e = &state[i];
        let known = match find_state(base, e.event_type.as_str(), e.state_key.as_str()) {
            Some(b) => same_text(b.event_id.as_str(), e.event_id.as_str()),
            None => false,
        };
        let left_out = lazy && same_text(e.event_type.as_str(), "m.room.member") && !list_has(
            senders,
            e.state_key.as_str(),
        );
        if !known && !left_out {
            match &e.event {
                Some(j) => {
                    let c = j.copy();
                    proof {
                        assert(out@.push(c).drop_last() =~= out@);
                    }
                    out.push(c);
                },
                None => {},
            }
        }
        i += 1;
    }
    proof {
        assert(state@.take(state@.len() as int) =~= state@);
    }
    out
}

/// Without lazy loading a client misses no state: every entry that can be
/// shown is either known to it from the base or in the delta.
pub proof fn law_state_is_complete(
    state: Seq<StateEvent>,
    base: Seq<StateEvent>,
    senders: Seq<Seq<char>>,
    i: int,
)
    requires
        0 <= i < state.len(),
        state[i].event is Some,
    ensures
        (state_entry(base, state[i].event_type@, state[i].state_key@) matches Some(b)
            && b.event_id@ == state[i].event_id@) || state_delta(
            state,
            base,
            false,
            senders,
        ).contains(state[i].event->0@),
    decreases state.len(),
{
    let t = state.drop_last();
    let d = state_delta(state, base, false, senders);
    let init = state_delta(t, base, false, senders);
    if i < t.len() {
        law_state_is_complete(t, base, senders, i);
        assert(t[i] == state[i]);
        if init.contains(state[i].event->0@) {
            let k = choose|k: int| 0 <= k < init.len() && init[k] == state[i].event->0@;
            assert(d[k] == state[i].event->0@);
        }
    } else if state_shown(state[i], base, false, senders) {
        assert(d[init.len() as int] == state[i].event->0@);
    }
}

// -- receipts and typing ------------------------------------------------------

/// A receipt in a room.
#[derive(Debug)]
pub struct ReceiptRow {
    pub user_id: String,
    pub receipt_type: String,
    pub event_id: String,
    pub seq: u64,
    pub ts: u64,
}

/// Is a receipt shown? Those of the window, and private ones only to their
/// owner.
pub open spec fn receipt_shown(
    r: ReceiptRow,
    initial: bool,
    since: SyncPos,
    now: SyncPos,
    user: Seq<char>,
) -> bool {
    &&& initial || (since.room < r.seq <= now.room)
    &&& r.receipt_type@ == "m.read.private"@ ==> r.user_id@ == user
}

pub open spec fn fields_or_none(m: Map<Seq<char>, JsonV>, key: Seq<char>) -> Map<Seq<char>, JsonV> {
    match as_fields(entry(m, key)) {
        Some(f) => f,
        None => no_fields(),
    }
}

/// Receipts with one more: under its event, its kind, its user.
pub open spec fn with_receipt(m: Map<Seq<char>, JsonV>, r: ReceiptRow) -> Map<Seq<char>, JsonV> {
    let kinds = fields_or_none(m, r.event_id@);
    let users = fields_or_none(kinds, r.receipt_type@);
    m.insert(
        r.event_id@,
        JsonV::Object(
            kinds.insert(
                r.receipt_type@,
                JsonV::Object(users.insert(r.user_id@, one_field("ts"@, JsonV::Int(r.ts as int)))),
            ),
        ),
    )
}

/// The content of a sync's receipt event.
pub open spec fn receipt_content(
    rows: Seq<ReceiptRow>,
    initial: bool,
    since: SyncPos,
    now: SyncPos,
    user: Seq<char>,
) -> Map<Seq<char>, JsonV>
    decreases rows.len(),
{
    if rows.len() == 0 {
        no_fields()
    } else {
        let init = receipt_content(rows.drop_last(), initial, since, now, user);
        if receipt_shown(rows.last(), initial, since, now, user) {
            with_receipt(init, rows.last())
        } else {
            init
        }
    }
}

fn fields_at(m: &Vec<(String, Json)>, key: &str) -> (r: Vec<(String, Json)>)
    ensures
        fields_view(r@) == fields_or_none(fields_view(m@), key@),
{
    match get(m, key) {
        Some(j) => match j.as_object() {
            Some(f) => copy_fields(f),
            None => Vec::new(),
        },
        None => Vec::new(),
    }
}

/// The receipts of a sync, grouped under their events.
pub fn sync_receipts(
    rows: &Vec<ReceiptRow>,
    initial: bool,
    since: SyncPos,
    now: SyncPos,
    user_id: &str,
) -> (r: Vec<(String, Json)>)
    ensures
        fields_view(r@) == receipt_content(rows@, initial, since, now, user_id@),
{
    let mut out: Vec<(String, Json)> = Vec::new();
    let mut i: usize = 0;
    while i < rows.len()
        invariant
            i <= rows.len(),
            fields_view(out@) == receipt_content(
                rows@.take(i as int),
                initial,
                since,
                now,
                user_id@,
            ),
        decreases rows.len() - i,
    {
        proof {
            assert(rows@.take(i + 1).drop_last() =~= rows@.take(i as int));
            assert(rows@.take(i + 1).last() == rows@[i as int]);
        }
        let r = &rows[i];
        let in_window = initial || (since.room < r.seq && r.seq <= now.room);
        let hidden = same_text(r.receipt_type.as_str(), "m.read.private") && !same_text(
            r.user_id.as_str(),
            user_id,
        );
        if in_window && !hidden {
            let mut kinds = fields_at(&out, r.event_id.as_str());
            let mut users = fields_at(&kinds, r.receipt_type.as_str());
            put_str(&mut users, r.user_id.as_str(), object_of("ts", Json::Int(r.ts as i128)));
            put_str(&mut kinds, r.receipt_type.as_str(), Json::Object(users));
            put_str(&mut out, r.event_id.as_str(), Json::Object(kinds));
        }
        i += 1;
    }
    proof {
        assert(rows@.take(rows@.len() as int) =~= rows@);
    }
    out
}

/// Someone else's private receipts are never shown.
pub proof fn law_private_receipts_stay_private(
    r: ReceiptRow,
    initial: bool,
    since: SyncPos,
    now: SyncPos,
    user: Seq<char>,
)
    requires
        r.receipt_type@ == "m.read.private"@,
        r.user_id@ != user,
    ensures
        !receipt_shown(r, initial, since, now, user),
{
}

/// An event of a type with a content.
pub open spec fn typed_event(event_type: Seq<char>, content: JsonV) -> JsonV {
    JsonV::Object(
        no_fields().insert("type"@, JsonV::Str(event_type)).insert("content"@, content),
    )
}

/// An event of a type with a content.
pub fn make_event(event_type: &str, content: Json) -> (r: Json)
    ensures
        r@ == typed_event(event_type@, content@),
{
    let mut m: Vec<(String, Json)> = Vec::new();
    put_str(&mut m, "type", text_json(event_type));
    put_str(&mut m, "content", content);
    Json::Object(m)
}

/// Is the typing list shown? At first when someone types, later when it
/// changed in the window.
pub open spec fn typing_shown(
    initial: bool,
    users: nat,
    gen: u64,
    since: SyncPos,
    now: SyncPos,
) -> bool {
    if initial {
        users > 0
    } else {
        since.typing < gen <= now.typing
    }
}

/// The ephemeral events of a room: receipts, then typing.
pub fn ephemeral_events(
    receipts: Vec<(String, Json)>,
    typing_users: &Vec<String>,
    typing_gen: u64,
    initial: bool,
    since: SyncPos,
    now: SyncPos,
) -> (r: Vec<Json>)
    ensures
        items_view(r@) == (if receipts@.len() > 0 {
            seq![typed_event("m.receipt"@, JsonV::Object(fields_view(receipts@)))]
        } else {
            Seq::empty()
        }) + (if typing_shown(initial, typing_users@.len(), typing_gen, since, now) {
            seq![
                typed_event(
                    "m.typing"@,
                    one_field("user_ids"@, strings_json(texts(typing_users@))),
                ),
            ]
        } else {
            Seq::empty()
        }),
{
    let mut out: Vec<Json> = Vec::new();
    if receipts.len() > 0 {
        let e = make_event("m.receipt", Json::Object(receipts));
        out.push(e);
    }
    let shown = if initial {
        typing_users.len() > 0
    } else {
        since.typing < typing_gen && typing_gen <= now.typing
    };
    if shown {
        let e = make_event("m.typing", object_of("user_ids", string_array(typing_users)));
        out.push(e);
    }
    proof {
        lemma_items(out@);
        assert(items_view(out@) =~= (if receipts@.len() > 0 {
            seq![typed_event("m.receipt"@, JsonV::Object(fields_view(receipts@)))]
        } else {
            Seq::empty()
        }) + (if typing_shown(initial, typing_users@.len(), typing_gen, since, now) {
            seq![
                typed_event(
                    "m.typing"@,
                    one_field("user_ids"@, strings_json(texts(typing_users@))),
                ),
            ]
        } else {
            Seq::empty()
        }));
    }
    out
}

// -- account data -------------------------------------------------------------

/// A user's account data: of a room, or global under the empty scope.
#[derive(Debug)]
pub struct AccountData {
    pub scope: String,
    pub data_type: String,
    pub content: Json,
    pub seq: u64,
}

/// The account data of a scope that is new to a client.
pub open spec fn new_account_data(
    rows: Seq<AccountData>,
    scope: Seq<char>,
    initial: bool,
    since: SyncPos,
) -> Seq<JsonV>
    decreases rows.len(),
{
    if rows.len() == 0 {
        Seq::empty()
    } else {
        let init = new_account_data(rows.drop_last(), scope, initial, since);
        let r = rows.last();
        if r.scope@ == scope && (initial || r.seq > since.user) {
            init.push(typed_event(r.data_type@, r.content@))
        } else {
            init
        }
    }
}

/// The account data of a scope that is new to a client, as events.
pub fn account_data_events(
    rows: &Vec<AccountData>,
    scope: &str,
    initial: bool,
    since: SyncPos,
) -> (r: Vec<Json>)
    ensures
        items_view(r@) == new_account_data(rows@, scope@, initial, since),
{
    let mut out: Vec<Json> = Vec::new();
    let mut i: usize = 0;
    while i < rows.len()
        invariant
            i <= rows.len(),
            items_view(out@) == new_account_data(rows@.take(i as int), scope@, initial, since),
        decreases rows.len() - i,
    {
        proof {
            assert(rows@.take(i + 1).drop_last() =~= rows@.take(i as int));
            assert(rows@.take(i + 1).last() == rows@[i as int]);
        }
        if same_text(rows[i].scope.as_str(), scope) && (initial || rows[i].seq > since.user) {
            let e = make_event(rows[i].data_type.as_str(), rows[i].content.copy());
            proof {
                assert(out@.push(e).drop_last() =~= out@);
            }
            out.push(e);
        }
        i += 1;
    }
    proof {
        assert(rows@.take(rows@.len() as int) =~= rows@);
    }
    out
}

// -- to-device messages -------------------------------------------------------

/// A pending to-device message.
#[derive(Debug)]
pub struct InboxRow {
    pub seq: u64,
    pub event: Json,
}

/// The messages of a window.
pub open spec fn inbox_window(rows: Seq<InboxRow>, since: u64, now: u64) -> Seq<JsonV>
    decreases rows.len(),
{
    if rows.len() == 0 {
        Seq::empty()
    } else {
        let init = inbox_window(rows.drop_last(), since, now);
        if since < rows.last().seq <= now {
            init.push(rows.last().event@)
        } else {
            init
        }
    }
}

/// Messages in order of arrival.
pub open spec fn inbox_sorted(rows: Seq<InboxRow>) -> bool {
    forall|i: int, j: int|
        #![trigger rows[i], rows[j]]
        0 <= i < j < rows.len() ==> rows[i].seq < rows[j].seq
}

/// To-device inbox: pending messages in the window, oldest first. Rows past
/// `now` wait for the next window or they'd be served twice.
pub fn to_device_window(rows: &Vec<InboxRow>, since: Option<SyncPos>, now: SyncPos) -> (r: Vec<Json>)
    requires
        inbox_sorted(rows@),
    ensures
        items_view(r@) == inbox_window(rows@, pos_or_zero(since).user, now.user),
{
    let from: u64 = match since {
        Some(s) => s.user,
        None => 0,
    };
    let mut out: Vec<Json> = Vec::new();
    let mut i: usize = 0;
    while i < rows.len()
        invariant
            i <= rows.len(),
            inbox_sorted(rows@),
            from == pos_or_zero(since).user,
            items_view(out@) == inbox_window(rows@.take(i as int), from, now.user),
        decreases rows.len() - i,
    {
        proof {
            assert(rows@.take(i + 1).drop_last() =~= rows@.take(i as int));
            assert(rows@.take(i + 1).last() == rows@[i as int]);
        }
        if rows[i].seq > now.user {
            proof {
                lemma_rest_is_later(rows@, i as int, from, now.user);
            }
            return out;
        }
        if rows[i].seq > from {
            let e = rows[i].event.copy();
            proof {
                assert(out@.push(e).drop_last() =~= out@);
            }
            out.push(e);
        }
        i += 1;
    }
    proof {
        assert(rows@.take(rows@.len() as int) =~= rows@);
    }
    out
}

proof fn lemma_rest_is_later(rows: Seq<InboxRow>, i: int, since: u64, now: u64)
    requires
        inbox_sorted(rows),
        0 <= i < rows.len(),
        rows[i].seq > now,
    ensures
        inbox_window(rows, since, now) == inbox_window(rows.take(i), since, now),
    decreases rows.len(),
{
    let t = rows.drop_last();
    assert(rows[i].seq <= rows[rows.len() - 1].seq);
    if i == rows.len() - 1 {
        assert(t =~= rows.take(i));
    } else {
        assert(inbox_sorted(t)) by {
            assert forall|a: int, b: int|
                #![trigger t[a], t[b]]
                0 <= a < b < t.len() implies t[a].seq < t[b].seq by {
                assert(t[a] == rows[a] && t[b] == rows[b]);
            }
        }
        assert(t[i] == rows[i]);
        lemma_rest_is_later(t, i, since, now);
        assert(t.take(i) =~= rows.take(i));
    }
}

/// Consecutive windows lose nothing and repeat nothing: what two syncs deliver,
/// the second from where the first ended, is what one sync over both would
/// have delivered.
pub proof fn law_windows_join_up(rows: Seq<InboxRow>, a: u64, b: u64, c: u64)
    requires
        inbox_sorted(rows),
        a <= b <= c,
    ensures
        inbox_window(rows, a, b) + inbox_window(rows, b, c) == inbox_window(rows, a, c),
    decreases rows.len(),
{
    if rows.len() > 0 {
        let t = rows.drop_last();
        assert(inbox_sorted(t)) by {
            assert forall|i: int, j: int|
                #![trigger t[i], t[j]]
                0 <= i < j < t.len() implies t[i].seq < t[j].seq by {
                assert(t[i] == rows[i] && t[j] == rows[j]);
            }
        }
        law_windows_join_up(t, a, b, c);
        let last = rows.last();
        if a < last.seq <= b {
            assert forall|i: int| 0 <= i < t.len() implies (#[trigger] t[i]).seq < last.seq by {
                assert(t[i] == rows[i]);
                assert(rows[rows.len() - 1] == last);
            }
            lemma_nothing_later(t, last.seq, b, c);
            assert(inbox_window(t, b, c) =~= Seq::<JsonV>::empty());
            assert(inbox_window(rows, a, b) + inbox_window(rows, b, c) =~= inbox_window(
                rows,
                a,
                c,
            ));
        } else if b < last.seq <= c {
            assert(inbox_window(rows, a, b) + inbox_window(rows, b, c) =~= inbox_window(
                rows,
                a,
                c,
            ));
        }
    } else {
        assert(inbox_window(rows, a, b) + inbox_window(rows, b, c) =~= inbox_window(rows, a, c));
    }
}

proof fn lemma_nothing_later(rows: Seq<InboxRow>, last: u64, b: u64, c: u64)
    ensures
        (last <= b && forall|i: int| 0 <= i < rows.len() ==> (#[trigger] rows[i]).seq < last)
            ==> inbox_window(rows, b, c).len() == 0,
    decreases rows.len(),
{
    if rows.len() > 0 {
        let t = rows.drop_last();
        lemma_nothing_later(t, last, b, c);
        if last <= b && forall|i: int| 0 <= i < rows.len() ==> (#[trigger] rows[i]).seq < last {
            assert forall|i: int| 0 <= i < t.len() implies (#[trigger] t[i]).seq < last by {
                assert(t[i] == rows[i]);
            }
            assert(rows[rows.len() - 1].seq < last);
        }
    }
}

/// Does presenting a since token acknowledge a waiting message? The inbox is
/// drained up to the token.
pub fn must_acknowledge(first_seq: Option<u64>, since: Option<SyncPos>) -> (r: bool)
    ensures
        r == (first_seq matches Some(f) && since matches Some(s) && f <= s.user),
{
    match (first_seq, since) {
        (Some(f), Some(s)) => f <= s.user,
        _ => false,
    }
}

// -- presence -----------------------------------------------------------------

/// What a sync says of a user's presence.
pub open spec fn presence_content(e: PresenceEntryV, ago: nat) -> JsonV {
    let m = no_fields().insert("presence"@, JsonV::Str(e.presence)).insert(
        "last_active_ago"@,
        JsonV::Int(ago as int),
    ).insert("currently_active"@, JsonV::Bool(e.presence == "online"@));
    match e.status_msg {
        Some(msg) => JsonV::Object(m.insert("status_msg"@, JsonV::Str(msg))),
        None => JsonV::Object(m),
    }
}

/// The presence event of a user.
pub open spec fn presence_json(s: PresenceSnapshotV, ago: nat) -> JsonV {
    JsonV::Object(
        no_fields().insert("type"@, JsonV::Str("m.presence"@)).insert(
            "sender"@,
            JsonV::Str(s.user_id),
        ).insert("content"@, presence_content(s.entry, ago)),
    )
}

/// The presence event of a user who was last active `ago` milliseconds ago.
pub fn presence_event(s: &PresenceSnapshot, ago: u64) -> (r: Json)
    ensures
        r@ == presence_json(s@, ago as nat),
{
    let mut c: Vec<(String, Json)> = Vec::new();
    put_str(&mut c, "presence", text_json(s.entry.presence.as_str()));
    put_str(&mut c, "last_active_ago", Json::Int(ago as i128));
    put_str(
        &mut c,
        "currently_active",
        Json::Bool(same_text(s.entry.presence.as_str(), "online")),
    );
    match &s.entry.status_msg {
        Some(msg) => {
            put_str(&mut c, "status_msg", text_json(msg.as_str()));
        },
        None => {},
    }
    let mut m: Vec<(String, Json)> = Vec::new();
    put_str(&mut m, "type", text_json("m.presence"));
    put_str(&mut m, "sender", text_json(s.user_id.as_str()));
    put_str(&mut m, "content", Json::Object(c));
    Json::Object(m)
}

/// Do the two lists have a name in common?
pub open spec fn share_one(a: Seq<Seq<char>>, b: Seq<Seq<char>>) -> bool {
    exists|i: int| 0 <= i < a.len() && b.contains(#[trigger] a[i])
}

/// Do the two lists have a name in common?
pub fn have_common(a: &Vec<String>, b: &Vec<String>) -> (r: bool)
    ensures
        r == share_one(texts(a@), texts(b@)),
{
    let mut i: usize = 0;
    while i < a.len()
        invariant
            i <= a.len(),
            forall|j: int| 0 <= j < i ==> !texts(b@).contains(#[trigger] texts(a@)[j]),
        decreases a.len() - i,
    {
        if list_has(b, a[i].as_str()) {
            proof {
                assert(texts(b@).contains(texts(a@)[i as int]));
            }
            return true;
        }
        i += 1;
    }
    false
}

/// Is a user's presence shown to another? To themselves, and to users who
/// share a joined room.
pub fn presence_visible(
    user_id: &str,
    reader: &str,
    joined: &Vec<String>,
    reader_joined: &Vec<String>,
) -> (r: bool)
    ensures
        r == (user_id@ == reader@ || share_one(texts(joined@), texts(reader_joined@))),
{
    same_text(user_id, reader) || have_common(joined, reader_joined)
}

// -- the response -------------------------------------------------------------

/// Is a room left out of an incremental sync? One in which nothing changed.
pub fn unchanged(
    initial: bool,
    timeline: usize,
    state: usize,
    ephemeral: usize,
    account_data: usize,
) -> (r: bool)
    ensures
        r == (!initial && timeline == 0 && state == 0 && ephemeral == 0 && account_data == 0),
{
    !initial && timeline == 0 && state == 0 && ephemeral == 0 && account_data == 0
}

/// How much a sync response holds.
#[derive(Clone, Copy, Debug, PartialEq, Eq, Structural)]
pub struct ResponseSize {
    pub rooms: usize,
    pub account_data: usize,
    pub presence: usize,
    pub to_device: usize,
    pub changed: usize,
    pub left: usize,
}

/// Is there nothing to say?
pub open spec fn says_nothing(s: ResponseSize) -> bool {
    s.rooms == 0 && s.account_data == 0 && s.presence == 0 && s.to_device == 0 && s.changed == 0
        && s.left == 0
}

/// Is a response sent now, rather than waiting for something to say? An
/// initial sync is answered at once, and so is one that does not wait.
pub fn sync_events(since: Option<SyncPos>, size: ResponseSize, timeout_ms: u64) -> (r: bool)
    ensures
        r == (since is None || !says_nothing(size) || timeout_ms == 0),
{
    let empty = size.rooms == 0 && size.account_data == 0 && size.presence == 0 && size.to_device
        == 0 && size.changed == 0 && size.left == 0;
    since.is_none() || !empty || timeout_ms == 0
}

/// How long a sync waits: as long as the client asks, at most a minute.
pub fn sync_timeout(asked_ms: Option<u64>) -> (r: u64)
    ensures
        r == (match asked_ms {
            Some(t) => if t <= 60_000 {
                t as int
            } else {
                60_000
            },
            None => 0,
        }),
{
    match asked_ms {
        Some(t) => if t <= 60_000 {
            t
        } else {
            60_000
        },
        None => 0,
    }
}

/// The user IDs among names.
pub open spec fn valid_user_ids(names: Seq<Seq<char>>) -> Seq<Seq<char>>
    decreases names.len(),
{
    if names.len() == 0 {
        Seq::empty()
    } else {
        let init = valid_user_ids(names.drop_last());
        if is_user_id(names.last()) {
            init.push(names.last())
        } else {
            init
        }
    }
}

/// The user IDs among the names of a device-list change.
pub fn device_list_users(names: &Vec<String>) -> (r: Vec<String>)
    ensures
        texts(r@) == valid_user_ids(texts(names@)),
{
    let mut out: Vec<String> = Vec::new();
    let ghost all = texts(names@);
    let mut i: usize = 0;
    proof {
        assert(texts(out@) =~= valid_user_ids(all.take(0)));
    }
    while i < names.len()
        invariant
            i <= names.len(),
            all == texts(names@),
            texts(out@) == valid_user_ids(all.take(i as int)),
        decreases names.len() - i,
    {
        proof {
            assert(all.take(i + 1).drop_last() =~= all.take(i as int));
            assert(all.take(i + 1).last() == names@[i as int]@);
        }
        if check_user_id(names[i].as_str()).is_ok() {
            let s = names[i].as_str().to_owned();
            proof {
                assert(texts(out@.push(s)) =~= texts(out@).push(s@));
            }
            out.push(s);
        }
        i += 1;
    }
    proof {
        assert(all.take(all.len() as int) =~= all);
    }
    out
}

/// The state that an invited user is shown, by kind and key.
pub open spec fn invite_keys(user: Seq<char>, sender: Seq<char>) -> Seq<(Seq<char>, Seq<char>)> {
    seq![
        ("m.room.create"@, ""@),
        ("m.room.join_rules"@, ""@),
        ("m.room.canonical_alias"@, ""@),
        ("m.room.name"@, ""@),
        ("m.room.avatar"@, ""@),
        ("m.room.topic"@, ""@),
        ("m.room.encryption"@, ""@),
        ("m.room.member"@, user),
        ("m.room.member"@, sender),
    ]
}

/// The stripped state for the first `n` keys.
pub open spec fn stripped_for(
    state: Seq<StateEvent>,
    keys: Seq<(Seq<char>, Seq<char>)>,
    n: int,
) -> Seq<JsonV>
    decreases n,
{
    if n <= 0 {
        Seq::empty()
    } else {
        let init = stripped_for(state, keys, n - 1);
        match stripped_entry(state, keys[n - 1].0, keys[n - 1].1) {
            Some(j) => init.push(j),
            None => init,
        }
    }
}

/// The stripped event for a kind and key.
pub open spec fn stripped_entry(
    state: Seq<StateEvent>,
    event_type: Seq<char>,
    state_key: Seq<char>,
) -> Option<JsonV> {
    match state_entry(state, event_type, state_key) {
        Some(e) => if e.rejected {
            None
        } else {
            match e.event {
                Some(Json::Object(raw)) => Some(JsonV::Object(stripped(fields_view(raw@)))),
                _ => None,
            }
        },
        None => None,
    }
}

fn strip_entry(state: &Vec<StateEvent>, event_type: &str, state_key: &str) -> (r: Option<Json>)
    ensures
        opt_json(r) == stripped_entry(state@, event_type@, state_key@),
{
    match find_state(state, event_type, state_key) {
        Some(e) => if e.rejected {
            None
        } else {
            match &e.event {
                Some(Json::Object(raw)) => Some(Json::Object(stripped_event(raw))),
                _ => None,
            }
        },
        None => None,
    }
}

/// The stripped state of a room that a user is invited to.
pub fn build_invited_room(state: &Vec<StateEvent>, user_id: &str, sender: &str) -> (r: Vec<Json>)
    ensures
        items_view(r@) == stripped_for(state@, invite_keys(user_id@, sender@), 9),
{
    let mut keys: Vec<(&str, &str)> = Vec::new();
    keys.push(("m.room.create", ""));
    keys.push(("m.room.join_rules", ""));
    keys.push(("m.room.canonical_alias", ""));
    keys.push(("m.room.name", ""));
    keys.push(("m.room.avatar", ""));
    keys.push(("m.room.topic", ""));
    keys.push(("m.room.encryption", ""));
    keys.push(("m.room.member", user_id));
    keys.push(("m.room.member", sender));
    let ghost want = invite_keys(user_id@, sender@);
    let mut out: Vec<Json> = Vec::new();
    let mut i: usize = 0;
    while i < keys.len()
        invariant
            i <= keys.len(),
            keys@.len() == 9,
            want == invite_keys(user_id@, sender@),
            forall|k: int|
                0 <= k < 9 ==> (#[trigger] keys@[k]).0@ == want[k].0 && keys@[k].1@ == want[k].1,
            items_view(out@) == stripped_for(state@, want, i as int),
        decreases keys.len() - i,
    {
        let (kind, key) = keys[i];
        proof {
            assert(keys@[i as int].0@ == want[i as int].0);
        }
        match strip_entry(state, kind, key) {
            Some(j) => {
                proof {
                    assert(out@.push(j).drop_last() =~= out@);
                }
                out.push(j);
            },
            None => {},
        }
        i += 1;
    }
    out
}

// -- unread counts ------------------------------------------------------------

/// How many events an unread count looks at.
pub const UNREAD_SCAN_CAP: usize = 256;

/// A user's read position: the furthest of their receipts, 0 without any.
pub open spec fn read_position(receipts: Seq<ReceiptPos>, user: Seq<char>) -> u64
    decreases receipts.len(),
{
    if receipts.len() == 0 {
        0
    } else {
        let init = read_position(receipts.drop_last(), user);
        let r = receipts.last();
        if counts_for(r, user) {
            max_of(init, r.seq->0)
        } else {
            init
        }
    }
}

/// A user's read position: unread events lie behind it.
pub fn read_seq(receipts: &Vec<ReceiptPos>, user_id: &str) -> (r: u64)
    ensures
        r == read_position(receipts@, user_id@),
{
    let mut pos: u64 = 0;
    let mut i: usize = 0;
    while i < receipts.len()
        invariant
            i <= receipts.len(),
            pos == read_position(receipts@.take(i as int), user_id@),
        decreases receipts.len() - i,
    {
        proof {
            assert(receipts@.take(i + 1).drop_last() =~= receipts@.take(i as int));
        }
        if is_read_receipt(&receipts[i], user_id) {
            let seq = receipts[i].seq.unwrap();
            if seq > pos {
                pos = seq;
            }
        }
        i += 1;
    }
    proof {
        assert(receipts@.take(receipts@.len() as int) =~= receipts@);
    }
    pos
}

/// Does an event count as unread: a message, not the user's own?
pub open spec fn counts_unread(ev: JsonV, user: Seq<char>) -> bool {
    as_text(field(ev, "type"@)) == Some("m.room.message"@) && as_text(field(ev, "sender"@)) != Some(
        user,
    )
}

pub open spec fn unread_messages(events: Seq<Json>, user: Seq<char>) -> nat
    decreases events.len(),
{
    if events.len() == 0 {
        0
    } else {
        unread_messages(events.drop_last(), user) + if counts_unread(events.last()@, user) {
            1nat
        } else {
            0nat
        }
    }
}

/// `m.room.message` events after the user's read receipt, not sent by the
/// user, of the events that a bounded scan brought.
pub fn unread_count(events: &Vec<Json>, user_id: &str) -> (r: u32)
    requires
        events@.len() <= u32::MAX,
    ensures
        r == unread_messages(events@, user_id@),
{
    let mut count: u32 = 0;
    let mut i: usize = 0;
    while i < events.len()
        invariant
            i <= events.len(),
            events@.len() <= u32::MAX,
            count <= i,
            count == unread_messages(events@.take(i as int), user_id@),
        decreases events.len() - i,
    {
        proof {
            assert(events@.take(i + 1).drop_last() =~= events@.take(i as int));
        }
        let message = match events[i].get_str("type") {
            Some(t) => same_text(t, "m.room.message"),
            None => false,
        };
        let own = match events[i].get_str("sender") {
            Some(s) => same_text(s, user_id),
            None => false,
        };
        if message && !own {
            count = count + 1;
        }
        i += 1;
    }
    proof {
        assert(events@.take(events@.len() as int) =~= events@);
    }
    count
}

// -- receipts, read markers, typing -------------------------------------------

/// The target of a receipt must be a known event of the room.
pub fn write_receipt(event: &Option<Json>, room_id: &str) -> (r: Result<(), ApiError>)
    ensures
        match opt_json(*event) {
            None => r matches Err(e) && e@ == not_found("Unknown event"@),
            Some(j) => if as_text(field(j, "room_id"@)) matches Some(id) && id != room_id@ {
                r matches Err(e) && e@ == not_found("Event not in this room"@)
            } else {
                r is Ok
            },
        },
{
    match event {
        None => Err(ApiError::not_found("Unknown event")),
        Some(j) => match j.get_str("room_id") {
            Some(id) => if same_text(id, room_id) {
                Ok(())
            } else {
                Err(ApiError::not_found("Event not in this room"))
            },
            None => Ok(()),
        },
    }
}

/// What a receipt request does.
#[derive(Clone, Copy, Debug, PartialEq, Eq, Structural)]
pub enum ReceiptAction {
    WriteRead,
    WriteReadPrivate,
    /// Set the `m.fully_read` marker in the room's account data.
    SetFullyRead,
}

/// What a receipt request does, by its type.
pub fn send_receipt(receipt_type: &str) -> (r: Result<ReceiptAction, ApiError>)
    ensures
        match r {
            Ok(ReceiptAction::WriteRead) => receipt_type@ == "m.read"@,
            Ok(ReceiptAction::WriteReadPrivate) => receipt_type@ == "m.read.private"@,
            Ok(ReceiptAction::SetFullyRead) => receipt_type@ == "m.fully_read"@,
            Err(e) => e@ == invalid_param("Unknown receipt type"@) && receipt_type@ != "m.read"@
                && receipt_type@ != "m.read.private"@ && receipt_type@ != "m.fully_read"@,
        },
{
    if same_text(receipt_type, "m.read") {
        Ok(ReceiptAction::WriteRead)
    } else if same_text(receipt_type, "m.read.private") {
        Ok(ReceiptAction::WriteReadPrivate)
    } else if same_text(receipt_type, "m.fully_read") {
        Ok(ReceiptAction::SetFullyRead)
    } else {
        Err(ApiError::invalid_param("Unknown receipt type"))
    }
}

/// The content of the `m.fully_read` marker.
pub fn fully_read_content(event_id: &str) -> (r: Json)
    ensures
        r@ == one_field("event_id"@, JsonV::Str(event_id@)),
{
    object_of("event_id", text_json(event_id))
}

/// Nobody sets another user's typing state.
pub fn send_typing(user_id: &str, caller: &str) -> (r: Result<(), ApiError>)
    ensures
        user_id@ == caller@ ==> r is Ok,
        user_id@ != caller@ ==> (r matches Err(e) && e@ == forbidden(
            "Cannot set another user's typing state"@,
        )),
{
    if same_text(user_id, caller) {
        Ok(())
    } else {
        Err(ApiError::forbidden("Cannot set another user's typing state"))
    }
}

/// How long a typing notice lasts: as asked, at most two minutes.
pub fn typing_timeout(asked_ms: u64) -> (r: u64)
    ensures
        r == (if asked_ms <= 120_000 {
            asked_ms as int
        } else {
            120_000
        }),
{
    if asked_ms <= 120_000 {
        asked_ms
    } else {
        120_000
    }
}

/// The EDU that tells other servers who types.
pub fn typing_edu(room_id: &str, user_id: &str, typing: bool) -> (r: Json)
    ensures
        r@ == JsonV::Object(
            no_fields().insert("edu_type"@, JsonV::Str("m.typing"@)).insert(
                "content"@,
                JsonV::Object(
                    no_fields().insert("room_id"@, JsonV::Str(room_id@)).insert(
                        "user_id"@,
                        JsonV::Str(user_id@),
                    ).insert("typing"@, JsonV::Bool(typing)),
                ),
            ),
        ),
{
    let mut c: Vec<(String, Json)> = Vec::new();
    put_str(&mut c, "room_id", text_json(room_id));
    put_str(&mut c, "user_id", text_json(user_id));
    put_str(&mut c, "typing", Json::Bool(typing));
    let mut m: Vec<(String, Json)> = Vec::new();
    put_str(&mut m, "edu_type", text_json("m.typing"));
    put_str(&mut m, "content", Json::Object(c));
    Json::Object(m)
}

// -- putting a response together ----------------------------------------------

/// What a joined room's part of a sync is made from.
#[derive(Debug)]
pub struct JoinedInput {
    pub room_id: String,
    pub user_id: String,
    pub initial: bool,
    pub since: SyncPos,
    pub now: SyncPos,
    pub lazy: bool,
    pub window: Window,
    /// The state at `state_position`, with its events in client format.
    pub start_state: Vec<StateEvent>,
    /// The state that the client knows; empty on an initial or full sync.
    pub base_state: Vec<StateEvent>,
    pub receipts: Vec<ReceiptRow>,
    pub typing_users: Vec<String>,
    pub typing_gen: u64,
    pub account_data: Vec<AccountData>,
    /// The events behind the user's read position.
    pub unread: Vec<Json>,
}

/// A joined room's part of a sync.
#[derive(Debug)]
pub struct JoinedRoom {
    pub limited: bool,
    pub prev_batch: Option<String>,
    pub timeline: Vec<Json>,
    pub state: Vec<Json>,
    pub ephemeral: Vec<Json>,
    pub account_data: Vec<Json>,
    pub notification_count: u32,
    pub highlight_count: u32,
}

/// Is a room's part what its input makes it?
pub open spec fn joined_room_for(i: JoinedInput, r: JoinedRoom) -> bool {
    &&& r.limited == i.window.limited
    &&& opt_text(r.prev_batch) == (if i.window.rows@.len() > 0 {
        Some(topo_token(i.window.rows@[0].seq as nat, Some(i.now.room as nat)))
    } else {
        None
    })
    &&& items_view(r.timeline@) == shown_events(i.window.rows@)
    &&& items_view(r.state@) == state_delta(
        i.start_state@,
        i.base_state@,
        i.lazy,
        shown_senders(i.window.rows@),
    )
    &&& items_view(r.ephemeral@) == ephemeral_json(i)
    &&& items_view(r.account_data@) == new_account_data(
        i.account_data@,
        i.room_id@,
        i.initial,
        i.since,
    )
    &&& r.notification_count == unread_messages(i.unread@, i.user_id@)
    &&& r.highlight_count == 0
}

/// The receipts and typing users that a room's part shows.
pub open spec fn ephemeral_json(i: JoinedInput) -> Seq<JsonV> {
    let receipts = receipt_content(i.receipts@, i.initial, i.since, i.now, i.user_id@);
    (if any_receipt_shown(i.receipts@, i.initial, i.since, i.now, i.user_id@) {
        seq![typed_event("m.receipt"@, JsonV::Object(receipts))]
    } else {
        Seq::empty()
    }) + (if typing_shown(i.initial, i.typing_users@.len(), i.typing_gen, i.since, i.now) {
        seq![
            typed_event("m.typing"@, one_field("user_ids"@, strings_json(texts(i.typing_users@)))),
        ]
    } else {
        Seq::empty()
    })
}

/// Is any receipt shown?
pub open spec fn any_receipt_shown(
    rows: Seq<ReceiptRow>,
    initial: bool,
    since: SyncPos,
    now: SyncPos,
    user: Seq<char>,
) -> bool {
    exists|i: int|
        0 <= i < rows.len() && receipt_shown(#[trigger] rows[i], initial, since, now, user)
}

proof fn lemma_receipts_nonempty(
    rows: Seq<ReceiptRow>,
    initial: bool,
    since: SyncPos,
    now: SyncPos,
    user: Seq<char>,
)
    ensures
        any_receipt_shown(rows, initial, since, now, user) <==> receipt_content(
            rows,
            initial,
            since,
            now,
            user,
        ) != no_fields(),
    decreases rows.len(),
{
    if rows.len() > 0 {
        let t = rows.drop_last();
        lemma_receipts_nonempty(t, initial, since, now, user);
        let m = receipt_content(rows, initial, since, now, user);
        let last = rows.last();
        if receipt_shown(last, initial, since, now, user) {
            assert(rows[rows.len() - 1] == last);
            assert(m.dom().contains(last.event_id@));
            assert(!no_fields().dom().contains(last.event_id@));
        } else {
            if any_receipt_shown(rows, initial, since, now, user) {
                let i = choose|i: int|
                    0 <= i < rows.len() && receipt_shown(
                        #[trigger] rows[i],
                        initial,
                        since,
                        now,
                        user,
                    );
                assert(t[i] == rows[i]);
            }
            if any_receipt_shown(t, initial, since, now, user) {
                let i = choose|i: int|
                    0 <= i < t.len() && receipt_shown(#[trigger] t[i], initial, since, now, user);
                assert(rows[i] == t[i]);
            }
        }
    }
}

/// A joined room's part of a sync: the newest events of the window, the state
/// before them that the client does not know, receipts and typing, account
/// data, and unread counts.
pub fn build_joined_room(input: &JoinedInput) -> (r: JoinedRoom)
    requires
        input.unread@.len() <= u32::MAX,
    ensures
        joined_room_for(*input, r),
{
    let (timeline, senders) = window_events(&input.window.rows);
    let state = sync_state(&input.start_state, &input.base_state, input.lazy, &senders);
    let receipts = sync_receipts(
        &input.receipts,
        input.initial,
        input.since,
        input.now,
        input.user_id.as_str(),
    );
    proof {
        lemma_receipts_nonempty(
            input.receipts@,
            input.initial,
            input.since,
            input.now,
            input.user_id@,
        );
        if receipts@.len() == 0 {
            assert(fields_view(receipts@) =~= no_fields());
        } else {
            assert(fields_view(receipts@).dom().contains(receipts@.last().0@));
        }
    }
    let ephemeral = ephemeral_events(
        receipts,
        &input.typing_users,
        input.typing_gen,
        input.initial,
        input.since,
        input.now,
    );
    let account_data = account_data_events(
        &input.account_data,
        input.room_id.as_str(),
        input.initial,
        input.since,
    );
    JoinedRoom {
        limited: input.window.limited,
        prev_batch: prev_batch(&input.window, input.now),
        timeline,
        state,
        ephemeral,
        account_data,
        notification_count: unread_count(&input.unread, input.user_id.as_str()),
        highlight_count: 0,
    }
}

/// A room that a user has a membership in.
#[derive(Debug)]
pub struct RoomRow {
    pub room_id: String,
    pub entry: MembershipEntry,
    /// The room's part, where it is joined.
    pub joined: Option<JoinedRoom>,
}

/// Did nothing change in a room?
pub open spec fn room_unchanged(initial: bool, r: JoinedRoom) -> bool {
    !initial && r.timeline@.len() == 0 && r.state@.len() == 0 && r.ephemeral@.len() == 0
        && r.account_data@.len() == 0
}

/// Which part of a response a room stands in.
#[derive(Clone, Copy, Debug, PartialEq, Eq, Structural)]
pub enum Placement {
    Join,
    Invite,
    Leave,
    Nowhere,
}

/// Which part of a response a room stands in. Unchanged rooms are left out of
/// incremental syncs.
pub open spec fn placement(row: RoomRow, since: Option<SyncPos>, ignored: Seq<Seq<char>>) -> Placement {
    if !is_room_id(row.room_id@) {
        Placement::Nowhere
    } else {
        match room_action(row.entry, since, ignored) {
            RoomAction::Joined { initial, .. } => match row.joined {
                Some(r) => if room_unchanged(initial, r) {
                    Placement::Nowhere
                } else {
                    Placement::Join
                },
                None => Placement::Nowhere,
            },
            RoomAction::Invited => Placement::Invite,
            RoomAction::Left => Placement::Leave,
            RoomAction::Skip => Placement::Nowhere,
        }
    }
}

fn place_room(row: &RoomRow, since: Option<SyncPos>, ignored: &Vec<String>) -> (r: Placement)
    ensures
        r == placement(*row, since, texts(ignored@)),
{
    if !check_room_id(row.room_id.as_str()).is_ok() {
        return Placement::Nowhere;
    }
    match plan_room(&row.entry, since, ignored) {
        RoomAction::Joined { initial, .. } => match &row.joined {
            Some(r) => if unchanged(
                initial,
                r.timeline.len(),
                r.state.len(),
                r.ephemeral.len(),
                r.account_data.len(),
            ) {
                Placement::Nowhere
            } else {
                Placement::Join
            },
            None => Placement::Nowhere,
        },
        RoomAction::Invited => Placement::Invite,
        RoomAction::Left => Placement::Leave,
        RoomAction::Skip => Placement::Nowhere,
    }
}

/// What a sync response is made from.
#[derive(Debug)]
pub struct SyncInput {
    pub since: Option<SyncPos>,
    pub now: SyncPos,
    pub user_id: String,
    /// The content of the user's `m.ignored_user_list`.
    pub ignored: Option<Json>,
    pub rooms: Vec<RoomRow>,
    pub account_data: Vec<AccountData>,
    pub inbox: Vec<InboxRow>,
    pub devices_changed: Vec<String>,
    pub devices_left: Vec<String>,
    /// Users whose presence changed, with the rooms each has joined and the
    /// milliseconds since they were last active.
    pub presence: Vec<PresenceRow>,
}

/// A user whose presence changed.
#[derive(Debug)]
pub struct PresenceRow {
    pub snapshot: PresenceSnapshot,
    pub joined: Vec<String>,
    pub ago: u64,
}

/// A sync response.
#[derive(Debug)]
pub struct SyncResponse {
    pub next_batch: String,
    /// Where each room of the input stands.
    pub rooms: Vec<Placement>,
    pub account_data: Vec<Json>,
    pub to_device: Vec<Json>,
    pub changed: Vec<String>,
    pub left: Vec<String>,
    pub presence: Vec<Json>,
}

/// The rooms that a user has joined.
pub open spec fn rooms_joined(rows: Seq<RoomRow>) -> Seq<Seq<char>>
    decreases rows.len(),
{
    if rows.len() == 0 {
        Seq::empty()
    } else {
        let init = rooms_joined(rows.drop_last());
        let r = rows.last();
        if is_room_id(r.room_id@) && r.entry.membership@ == "join"@ {
            init.push(r.room_id@)
        } else {
            init
        }
    }
}

/// The presence events that a user may see: of changes inside the window.
pub open spec fn presence_shown(
    rows: Seq<PresenceRow>,
    user: Seq<char>,
    joined: Seq<Seq<char>>,
    since: u64,
    now: u64,
) -> Seq<JsonV>
    decreases rows.len(),
{
    if rows.len() == 0 {
        Seq::empty()
    } else {
        let init = presence_shown(rows.drop_last(), user, joined, since, now);
        let r = rows.last();
        if since < r.snapshot.entry.changed_at <= now && (r.snapshot.user_id@ == user || share_one(
            texts(r.joined@),
            joined,
        )) {
            init.push(presence_json(r.snapshot@, r.ago as nat))
        } else {
            init
        }
    }
}

/// The names that the ignored-user list holds, in some order.
pub open spec fn ignores(list: Seq<Seq<char>>, account_data: Option<JsonV>) -> bool {
    match ignored_map(account_data) {
        Some(m) => forall|k: Seq<char>| #[trigger] list.contains(k) <==> m.dom().contains(k),
        None => list.len() == 0,
    }
}

fn joined_room_ids(rows: &Vec<RoomRow>) -> (r: Vec<String>)
    ensures
        texts(r@) == rooms_joined(rows@),
{
    let mut out: Vec<String> = Vec::new();
    let mut i: usize = 0;
    proof {
        assert(texts(out@) =~= rooms_joined(rows@.take(0)));
    }
    while i < rows.len()
        invariant
            i <= rows.len(),
            texts(out@) == rooms_joined(rows@.take(i as int)),
        decreases rows.len() - i,
    {
        proof {
            assert(rows@.take(i + 1).drop_last() =~= rows@.take(i as int));
            assert(rows@.take(i + 1).last() == rows@[i as int]);
        }
        if check_room_id(rows[i].room_id.as_str()).is_ok() && same_text(
            rows[i].entry.membership.as_str(),
            "join",
        ) {
            let s = rows[i].room_id.as_str().to_owned();
            proof {
                assert(texts(out@.push(s)) =~= texts(out@).push(s@));
            }
            out.push(s);
        }
        i += 1;
    }
    proof {
        assert(rows@.take(rows@.len() as int) =~= rows@);
    }
    out
}

fn presence_events(
    rows: &Vec<PresenceRow>,
    user_id: &str,
    joined: &Vec<String>,
    since: u64,
    now: u64,
) -> (r: Vec<Json>)
    ensures
        items_view(r@) == presence_shown(rows@, user_id@, texts(joined@), since, now),
{
    let mut out: Vec<Json> = Vec::new();
    let mut i: usize = 0;
    while i < rows.len()
        invariant
            i <= rows.len(),
            items_view(out@) == presence_shown(
                rows@.take(i as int),
                user_id@,
                texts(joined@),
                since,
                now,
            ),
        decreases rows.len() - i,
    {
        proof {
            assert(rows@.take(i + 1).drop_last() =~= rows@.take(i as int));
            assert(rows@.take(i + 1).last() == rows@[i as int]);
        }
        let r = &rows[i];
        let at = r.snapshot.entry.changed_at;
        if since < at && at <= now && presence_visible(
            r.snapshot.user_id.as_str(),
            user_id,
            &r.joined,
            joined,
        ) {
            let e = presence_event(&r.snapshot, r.ago);
            proof {
                assert(out@.push(e).drop_last() =~= out@);
            }
            out.push(e);
        }
        i += 1;
    }
    proof {
        assert(rows@.take(rows@.len() as int) =~= rows@);
    }
    out
}

/// Is a response what its input makes it?
pub open spec fn sync_for(input: SyncInput, r: SyncResponse) -> bool {
    &&& r.next_batch@ == sync_token(input.now)
    &&& r.rooms@.len() == input.rooms@.len()
    &&& exists|ignored: Seq<Seq<char>>| #[trigger]
        ignores(ignored, opt_json(input.ignored)) && forall|i: int|
            0 <= i < input.rooms@.len() ==> #[trigger] r.rooms@[i] == placement(
                input.rooms@[i],
                input.since,
                ignored,
            )
    &&& items_view(r.account_data@) == new_account_data(
        input.account_data@,
        Seq::empty(),
        input.since is None,
        pos_or_zero(input.since),
    )
    &&& items_view(r.to_device@) == inbox_window(
        input.inbox@,
        pos_or_zero(input.since).user,
        input.now.user,
    )
    &&& texts(r.changed@) == (if input.since is None {
        Seq::empty()
    } else {
        valid_user_ids(texts(input.devices_changed@))
    })
    &&& texts(r.left@) == (if input.since is None {
        Seq::empty()
    } else {
        valid_user_ids(texts(input.devices_left@))
    })
    &&& items_view(r.presence@) == presence_shown(
        input.presence@,
        input.user_id@,
        rooms_joined(input.rooms@),
        pos_or_zero(input.since).presence,
        input.now.presence,
    )
}

/// A sync response: the token to go on from, where each room stands, and what
/// is new of the user's own streams. Device-list changes are left out of an
/// initial sync: clients query fresh.
pub fn build_sync(input: &SyncInput) -> (r: SyncResponse)
    requires
        inbox_sorted(input.inbox@),
    ensures
        r.next_batch@ == sync_token(input.now),
        exists|ignored: Seq<Seq<char>>| #[trigger]
            ignores(ignored, opt_json(input.ignored)) && r.rooms@ == input.rooms@.map_values(
                |row: RoomRow| placement(row, input.since, ignored),
            ),
        items_view(r.account_data@) == new_account_data(
            input.account_data@,
            Seq::empty(),
            input.since is None,
            pos_or_zero(input.since),
        ),
        items_view(r.to_device@) == inbox_window(
            input.inbox@,
            pos_or_zero(input.since).user,
            input.now.user,
        ),
        texts(r.changed@) == (if input.since is None {
            Seq::empty()
        } else {
            valid_user_ids(texts(input.devices_changed@))
        }),
        texts(r.left@) == (if input.since is None {
            Seq::empty()
        } else {
            valid_user_ids(texts(input.devices_left@))
        }),
        items_view(r.presence@) == presence_shown(
            input.presence@,
            input.user_id@,
            rooms_joined(input.rooms@),
            pos_or_zero(input.since).presence,
            input.now.presence,
        ),
        sync_for(*input, r),
{
    let initial = input.since.is_none();
    let since = match input.since {
        Some(s) => s,
        None => SyncPos { room: 0, user: 0, typing: 0, presence: 0 },
    };
    let ignored = ignored_users(&input.ignored);
    proof {
        assert(texts(ignored@).len() == ignored@.len());
        assert(ignores(texts(ignored@), opt_json(input.ignored)));
        reveal_strlit("");
        assert(""@ =~= Seq::empty());
    }
    let mut rooms: Vec<Placement> = Vec::new();
    let mut i: usize = 0;
    while i < input.rooms.len()
        invariant
            i <= input.rooms.len(),
            rooms.len() == i,
            forall|j: int|
                0 <= j < i ==> #[trigger] rooms@[j] == placement(
                    input.rooms@[j],
                    input.since,
                    texts(ignored@),
                ),
        decreases input.rooms.len() - i,
    {
        let p = place_room(&input.rooms[i], input.since, &ignored);
        rooms.push(p);
        i += 1;
    }
    proof {
        assert(rooms@ =~= input.rooms@.map_values(
            |row: RoomRow| placement(row, input.since, texts(ignored@)),
        ));
    }
    let joined = joined_room_ids(&input.rooms);
    let none: Vec<String> = Vec::new();
    let none2: Vec<String> = Vec::new();
    proof {
        assert(texts(none@) =~= Seq::<Seq<char>>::empty());
        assert(texts(none2@) =~= Seq::<Seq<char>>::empty());
    }
    SyncResponse {
        next_batch: format_token(input.now),
        rooms,
        account_data: account_data_events(&input.account_data, "", initial, since),
        to_device: to_device_window(&input.inbox, input.since, input.now),
        changed: if initial {
            none
        } else {
            device_list_users(&input.devices_changed)
        },
        left: if initial {
            none2
        } else {
            device_list_users(&input.devices_left)
        },
        presence: presence_events(
            &input.presence,
            input.user_id.as_str(),
            &joined,
            since.presence,
            input.now.presence,
        ),
    }
}

/// Two lists of the same ignored users place every room alike.
pub proof fn law_ignored_order_does_not_matter(
    row: RoomRow,
    since: Option<SyncPos>,
    a: Seq<Seq<char>>,
    b: Seq<Seq<char>>,
    account_data: Option<JsonV>,
)
    requires
        ignores(a, account_data),
        ignores(b, account_data),
    ensures
        placement(row, since, a) == placement(row, since, b),
{
    let k = row.entry.sender@;
    assert(a.contains(k) <==> b.contains(k));
}

/// A read marker that is to be written.
#[derive(Debug)]
pub struct MarkerWrite {
    pub receipt_type: String,
    pub event_id: String,
}

/// The receipts that a request for read markers writes, in order.
pub fn set_read_markers(read_receipt: Option<String>, private_read_receipt: Option<String>) -> (r:
    Vec<MarkerWrite>)
    ensures
        r@.len() == (if read_receipt is Some {
            1int
        } else {
            0
        }) + (if private_read_receipt is Some {
            1int
        } else {
            0
        }),
        read_receipt matches Some(id) ==> r@[0].receipt_type@ == "m.read"@ && r@[0].event_id == id,
        private_read_receipt matches Some(id) ==> r@.last().receipt_type@ == "m.read.private"@
            && r@.last().event_id == id,
{
    let mut out: Vec<MarkerWrite> = Vec::new();
    match read_receipt {
        Some(id) => {
            out.push(MarkerWrite { receipt_type: "m.read".to_owned(), event_id: id });
        },
        None => {},
    }
    match private_read_receipt {
        Some(id) => {
            out.push(MarkerWrite { receipt_type: "m.read.private".to_owned(), event_id: id });
        },
        None => {},
    }
    out
}

/// How many events a room that was left shows.
pub const LEFT_ROOM_EVENTS: usize = 10;

/// Is a row no newer than the event with which the user left?
pub open spec fn before_leave(seq: u64, left_at: Option<u64>) -> bool {
    left_at matches Some(at) ==> seq <= at
}

/// The timeline of a room that was left: its events up to the leave and with it,
/// oldest first, from the rows newest first. `left_at` is the position of the
/// leave, where it is known.
pub fn build_left_room(newest_first: &Vec<TimelineRow>, left_at: Option<u64>) -> (r: Vec<Json>)
    ensures
        items_view(r@) == shown_backward(newest_first@, left_at, newest_first@.len() as int),
{
    let mut out: Vec<Json> = Vec::new();
    let n = newest_first.len();
    let mut k: usize = 0;
    while k < n
        invariant
            k <= n,
            n == newest_first@.len(),
            items_view(out@) == shown_backward(newest_first@, left_at, k as int),
        decreases n - k,
    {
        let row = &newest_first[n - 1 - k];
        let shown = match left_at {
            Some(at) => row.seq <= at,
            None => true,
        };
        if shown {
            match &row.event {
                Some(ev) => {
                    let j = ev.copy();
                    proof {
                        assert(out@.push(j).drop_last() =~= out@);
                    }
                    out.push(j);
                },
                None => {},
            }
        }
        k += 1;
    }
    out
}

/// The events in the last `k` rows up to the leave, from the last one up.
pub open spec fn shown_backward(rows: Seq<TimelineRow>, left_at: Option<u64>, k: int) -> Seq<JsonV>
    decreases k,
{
    if k <= 0 {
        Seq::empty()
    } else {
        let init = shown_backward(rows, left_at, k - 1);
        let row = rows[rows.len() - k];
        match row.event {
            Some(ev) => if before_leave(row.seq, left_at) {
                init.push(ev@)
            } else {
                init
            },
            None => init,
        }
    }
}

// -- what a sync is for -------------------------------------------------------

/// Every invite from a user who is not ignored is shown: on an initial sync
/// always, and on an incremental one exactly where it was recorded after the
/// since token. An ignored user's invite is never shown.
pub proof fn law_invites_are_shown(
    m: MembershipEntry,
    since: Option<SyncPos>,
    ignored: Seq<Seq<char>>,
)
    requires
        m.membership@ == "invite"@,
    ensures
        !ignored.contains(m.sender@) && since is None ==> room_action(m, since, ignored)
            == RoomAction::Invited,
        !ignored.contains(m.sender@) && (since matches Some(s) && m.seq > s.user) ==> room_action(
            m,
            since,
            ignored,
        ) == RoomAction::Invited,
        (since matches Some(s) && m.seq <= s.user) ==> room_action(m, since, ignored)
            == RoomAction::Skip,
        ignored.contains(m.sender@) ==> room_action(m, since, ignored) == RoomAction::Skip,
{
    lemma_memberships_differ();
}

proof fn lemma_memberships_differ()
    ensures
        "join"@ != "invite"@,
        "join"@ != "leave"@,
        "join"@ != "ban"@,
        "invite"@ != "leave"@,
        "invite"@ != "ban"@,
        "leave"@ != "ban"@,
        "knock"@ != "join"@,
        "knock"@ != "invite"@,
        "knock"@ != "leave"@,
        "knock"@ != "ban"@,
{
    reveal_strlit("join");
    reveal_strlit("invite");
    reveal_strlit("leave");
    reveal_strlit("ban");
    reveal_strlit("knock");
    assert("join"@.len() == 4 && "invite"@.len() == 6 && "leave"@.len() == 5 && "ban"@.len() == 3
        && "knock"@.len() == 5);
    assert("knock"@[0] == 'k' && "leave"@[0] == 'l');
}

/// A joined room is shown from the beginning on an initial sync and where the
/// join was recorded after the since token, and else from the token on. Whom
/// the user ignores does not matter.
pub proof fn law_joined_rooms_go_on_from_the_token(
    m: MembershipEntry,
    since: Option<SyncPos>,
    ignored: Seq<Seq<char>>,
)
    requires
        m.membership@ == "join"@,
    ensures
        match since {
            None => room_action(m, since, ignored) == (RoomAction::Joined {
                initial: true,
                since: SyncPos { room: 0, user: 0, typing: 0, presence: 0 },
            }),
            Some(s) => if m.seq > s.user {
                room_action(m, since, ignored) == (RoomAction::Joined {
                    initial: true,
                    since: SyncPos { room: 0, user: 0, typing: 0, presence: 0 },
                })
            } else {
                room_action(m, since, ignored) == (RoomAction::Joined { initial: false, since: s })
            },
        },
{
}

/// A room that a user left or was banned from is mentioned once: on the
/// incremental sync whose token is older, and neither on a later nor on an
/// initial one. A membership of any other kind is not mentioned.
pub proof fn law_left_rooms_are_mentioned_once(
    m: MembershipEntry,
    since: Option<SyncPos>,
    ignored: Seq<Seq<char>>,
)
    requires
        m.membership@ != "join"@,
        m.membership@ != "invite"@,
    ensures
        room_action(m, since, ignored) == RoomAction::Left <==> (m.membership@ == "leave"@
            || m.membership@ == "ban"@) && (since matches Some(s) && m.seq > s.user),
        room_action(m, since, ignored) == RoomAction::Left || room_action(m, since, ignored)
            == RoomAction::Skip,
{
    lemma_memberships_differ();
}

/// A room stands where the user stands: a joined one under `join`, unless
/// nothing is new in it since the token, an invite that is shown under
/// `invite`, a room just left under `leave`, and what has no room ID nowhere.
pub proof fn law_rooms_stand_where_the_user_stands(
    row: RoomRow,
    since: Option<SyncPos>,
    ignored: Seq<Seq<char>>,
)
    requires
        is_room_id(row.room_id@),
    ensures
        ({
            let p = placement(row, since, ignored);
            let new = since is None || row.entry.seq > since->0.user;
            &&& p == Placement::Join <==> row.entry.membership@ == "join"@
                && (row.joined matches Some(
                r,
            ) && (new || r.timeline@.len() > 0 || r.state@.len() > 0 || r.ephemeral@.len() > 0
                || r.account_data@.len() > 0))
            &&& p == Placement::Invite <==> row.entry.membership@ == "invite"@ && new
                && !ignored.contains(row.entry.sender@)
            &&& p == Placement::Leave <==> (row.entry.membership@ == "leave"@
                || row.entry.membership@ == "ban"@) && since is Some && new
        }),
{
    lemma_memberships_differ();
}

/// What is no room ID stands nowhere.
pub proof fn law_only_rooms_are_shown(
    row: RoomRow,
    since: Option<SyncPos>,
    ignored: Seq<Seq<char>>,
)
    requires
        !is_room_id(row.room_id@),
    ensures
        placement(row, since, ignored) == Placement::Nowhere,
{
}

/// The timeline of a window holds the events of its rows that can be shown, all
/// of them, in the order of the rows.
pub proof fn law_timelines_show_every_event(
    a: Seq<TimelineRow>,
    b: Seq<TimelineRow>,
    x: TimelineRow,
)
    ensures
        shown_events(a + b) == shown_events(a) + shown_events(b),
        shown_events(seq![x]) == (match x.event {
            Some(j) => seq![j@],
            None => Seq::empty(),
        }),
    decreases b.len(),
{
    reveal_with_fuel(shown_events, 2);
    assert(seq![x].drop_last() =~= Seq::<TimelineRow>::empty());
    if b.len() == 0 {
        assert(a + b =~= a);
    } else {
        law_timelines_show_every_event(a, b.drop_last(), x);
        assert((a + b).drop_last() =~= a + b.drop_last());
        assert((a + b).last() == b.last());
    }

    assert(shown_events(a + b) =~= shown_events(a) + shown_events(b));
}

/// The senders of a window are those of the events that it shows, in their
/// order.
pub proof fn law_senders_are_those_of_the_events(
    a: Seq<TimelineRow>,
    b: Seq<TimelineRow>,
    x: TimelineRow,
)
    ensures
        shown_senders(a + b) == shown_senders(a) + shown_senders(b),
        shown_senders(seq![x]) == (match x.event {
            Some(j) => match field(j@, "sender"@) {
                Some(JsonV::Str(u)) => seq![u],
                _ => Seq::empty(),
            },
            None => Seq::empty(),
        }),
    decreases b.len(),
{
    reveal_with_fuel(shown_senders, 2);
    assert(seq![x].drop_last() =~= Seq::<TimelineRow>::empty());
    if b.len() == 0 {
        assert(a + b =~= a);
    } else {
        law_senders_are_those_of_the_events(a, b.drop_last(), x);
        assert((a + b).drop_last() =~= a + b.drop_last());
        assert((a + b).last() == b.last());
    }

    assert(shown_senders(a + b) =~= shown_senders(a) + shown_senders(b));
}

/// A window is limited where there is more than it may hold, and a window that
/// is not limited holds every row; its rows are the newest ones, turned round.
pub proof fn law_windows_hold_what_fits(newest_first: Seq<TimelineRow>, limit: int)
    requires
        0 <= limit,
    ensures
        newest_first.len() <= limit ==> window_rows(newest_first, limit).len()
            == newest_first.len(),
        newest_first.len() > limit ==> window_rows(newest_first, limit).len() == limit,
        forall|i: int|
            0 <= i < window_rows(newest_first, limit).len() ==> #[trigger] window_rows(
                newest_first,
                limit,
            )[i] == newest_first[window_rows(newest_first, limit).len() - 1 - i],
{
}

/// The state of a sync is what the client does not know: an entry is sent, as
/// it is and in order, unless its base has the very event for that kind and
/// key, or members are loaded lazily and it is the member event of somebody who
/// sent nothing shown.
pub proof fn law_state_is_what_the_client_lacks(
    a: Seq<StateEvent>,
    b: Seq<StateEvent>,
    x: StateEvent,
    base: Seq<StateEvent>,
    lazy: bool,
    senders: Seq<Seq<char>>,
)
    ensures
        state_delta(a + b, base, lazy, senders) == state_delta(a, base, lazy, senders)
            + state_delta(b, base, lazy, senders),
        state_delta(seq![x], base, lazy, senders) == (match x.event {
            Some(j) => if (state_entry(base, x.event_type@, x.state_key@) matches Some(known)
                && known.event_id@ == x.event_id@) || (lazy && x.event_type@ == "m.room.member"@
                && !senders.contains(x.state_key@)) {
                Seq::empty()
            } else {
                seq![j@]
            },
            None => Seq::empty(),
        }),
    decreases b.len(),
{
    reveal_with_fuel(state_delta, 2);
    assert(seq![x].drop_last() =~= Seq::<StateEvent>::empty());
    if b.len() == 0 {
        assert(a + b =~= a);
    } else {
        law_state_is_what_the_client_lacks(a, b.drop_last(), x, base, lazy, senders);
        assert((a + b).drop_last() =~= a + b.drop_last());
        assert((a + b).last() == b.last());
    }

    assert(state_delta(a + b, base, lazy, senders) =~= state_delta(a, base, lazy, senders)
        + state_delta(b, base, lazy, senders));
}

/// A receipt is shown where it is new: on an initial sync, and else where it
/// was recorded after the token and not after now. Public ones are shown to
/// everyone, private ones to their owner.
pub proof fn law_new_receipts_are_shown(
    r: ReceiptRow,
    initial: bool,
    since: SyncPos,
    now: SyncPos,
    user: Seq<char>,
)
    ensures
        initial && (r.receipt_type@ != "m.read.private"@ || r.user_id@ == user) ==> receipt_shown(
            r,
            initial,
            since,
            now,
            user,
        ),
        !initial && since.room < r.seq && r.seq <= now.room && (r.receipt_type@
            != "m.read.private"@ || r.user_id@ == user) ==> receipt_shown(
            r,
            initial,
            since,
            now,
            user,
        ),
        !initial && (r.seq <= since.room || r.seq > now.room) ==> !receipt_shown(
            r,
            initial,
            since,
            now,
            user,
        ),
{
}

/// Each receipt that is shown stands under its event, its kind and its user
/// with its time, unless a later one for the same three took its place; and
/// nothing stands there but such a receipt.
pub proof fn law_receipts_stand_under_their_event(
    rows: Seq<ReceiptRow>,
    initial: bool,
    since: SyncPos,
    now: SyncPos,
    user: Seq<char>,
    event: Seq<char>,
    kind: Seq<char>,
    who: Seq<char>,
)
    ensures
        ({
            let at = receipt_at(
                receipt_content(rows, initial, since, now, user),
                event,
                kind,
                who,
            );
            &&& at is Some ==> exists|i: int|
                #![trigger rows[i]]
                0 <= i < rows.len() && receipt_shown(rows[i], initial, since, now, user)
                    && rows[i].event_id@ == event && rows[i].receipt_type@ == kind
                    && rows[i].user_id@ == who && at == Some(
                    JsonV::Object(Map::empty().insert("ts"@, JsonV::Int(rows[i].ts as int))),
                )
            &&& forall|i: int|
                #![trigger rows[i]]
                0 <= i < rows.len() && receipt_shown(rows[i], initial, since, now, user)
                    && rows[i].event_id@ == event && rows[i].receipt_type@ == kind
                    && rows[i].user_id@ == who && (forall|j: int|
                    #![trigger rows[j]]
                    i < j < rows.len() && receipt_shown(rows[j], initial, since, now, user) ==> !(
                    rows[j].event_id@ == event && rows[j].receipt_type@ == kind && rows[j].user_id@
                        == who)) ==> at == Some(
                    JsonV::Object(Map::empty().insert("ts"@, JsonV::Int(rows[i].ts as int))),
                )
        }),
    decreases rows.len(),
{
    if rows.len() > 0 {
        let init = rows.drop_last();
        law_receipts_stand_under_their_event(init, initial, since, now, user, event, kind, who);
        let last = rows.last();
        let n = rows.len() - 1;
        assert(rows[n] == last);
        assert forall|i: int| 0 <= i < n implies #[trigger] rows[i] == init[i] by {}
        let before = receipt_content(init, initial, since, now, user);
        let after = receipt_content(rows, initial, since, now, user);
        let same = last.event_id@ == event && last.receipt_type@ == kind && last.user_id@ == who;
        if receipt_shown(last, initial, since, now, user) {
            lemma_with_receipt(before, last, event, kind, who);
        }
        let at = receipt_at(after, event, kind, who);
        if at is Some && !(receipt_shown(last, initial, since, now, user) && same) {
            let i = choose|i: int|
                #![trigger init[i]]
                0 <= i < init.len() && receipt_shown(init[i], initial, since, now, user)
                    && init[i].event_id@ == event && init[i].receipt_type@ == kind
                    && init[i].user_id@ == who && receipt_at(before, event, kind, who) == Some(
                    JsonV::Object(Map::empty().insert("ts"@, JsonV::Int(init[i].ts as int))),
                );
            assert(rows[i] == init[i]);
        }
        assert forall|i: int|
            #![trigger rows[i]]
            0 <= i < rows.len() && receipt_shown(rows[i], initial, since, now, user)
                && rows[i].event_id@ == event && rows[i].receipt_type@ == kind && rows[i].user_id@
                == who && (forall|j: int|
                #![trigger rows[j]]
                i < j < rows.len() && receipt_shown(rows[j], initial, since, now, user) ==> !(
                rows[j].event_id@ == event && rows[j].receipt_type@ == kind && rows[j].user_id@
                    == who)) implies at == Some(
            JsonV::Object(Map::empty().insert("ts"@, JsonV::Int(rows[i].ts as int))),
        ) by {
            if i < n {
                assert(!(receipt_shown(rows[n], initial, since, now, user) && same));
                assert(init[i] == rows[i]);
                assert forall|j: int|
                    #![trigger init[j]]
                    i < j < init.len() && receipt_shown(init[j], initial, since, now, user) implies
                    !(init[j].event_id@ == event && init[j].receipt_type@ == kind
                    && init[j].user_id@ == who) by {
                    assert(init[j] == rows[j]);
                }
            }
        }
    }
}

/// What stands in receipts under an event, a kind and a user.
pub open spec fn receipt_at(
    m: Map<Seq<char>, JsonV>,
    event: Seq<char>,
    kind: Seq<char>,
    who: Seq<char>,
) -> Option<JsonV> {
    match field(JsonV::Object(m), event) {
        Some(kinds) => match field(kinds, kind) {
            Some(users) => field(users, who),
            None => None,
        },
        None => None,
    }
}

proof fn lemma_with_receipt(
    m: Map<Seq<char>, JsonV>,
    r: ReceiptRow,
    event: Seq<char>,
    kind: Seq<char>,
    who: Seq<char>,
)
    ensures
        receipt_at(with_receipt(m, r), event, kind, who) == (if r.event_id@ == event
            && r.receipt_type@ == kind && r.user_id@ == who {
            Some(JsonV::Object(Map::empty().insert("ts"@, JsonV::Int(r.ts as int))))
        } else {
            receipt_at(m, event, kind, who)
        }),
{
}

/// Who types is told at first where somebody does, and later exactly where the
/// list changed after the token and not after now.
pub proof fn law_typing_is_told_when_it_changes(
    initial: bool,
    users: nat,
    gen: u64,
    since: SyncPos,
    now: SyncPos,
)
    ensures
        initial ==> (typing_shown(initial, users, gen, since, now) <==> users > 0),
        !initial ==> (typing_shown(initial, users, gen, since, now) <==> since.typing < gen && gen
            <= now.typing),
{
}

/// Account data is told to the scope that it belongs to where it is new: all of
/// it on an initial sync, and else what was set after the token, in order, as
/// its type and content.
pub proof fn law_new_account_data_is_told(
    a: Seq<AccountData>,
    b: Seq<AccountData>,
    x: AccountData,
    scope: Seq<char>,
    initial: bool,
    since: SyncPos,
)
    ensures
        new_account_data(a + b, scope, initial, since) == new_account_data(a, scope, initial,
            since) + new_account_data(b, scope, initial, since),
        new_account_data(seq![x], scope, initial, since) == (if x.scope@ == scope && (initial
            || x.seq > since.user) {
            seq![
                JsonV::Object(
                    Map::empty().insert("type"@, JsonV::Str(x.data_type@)).insert(
                        "content"@,
                        x.content@,
                    ),
                ),
            ]
        } else {
            Seq::empty()
        }),
    decreases b.len(),
{
    reveal_with_fuel(new_account_data, 2);
    assert(seq![x].drop_last() =~= Seq::<AccountData>::empty());
    if b.len() == 0 {
        assert(a + b =~= a);
    } else {
        law_new_account_data_is_told(a, b.drop_last(), x, scope, initial, since);
        assert((a + b).drop_last() =~= a + b.drop_last());
        assert((a + b).last() == b.last());
    }

    assert(new_account_data(a + b, scope, initial, since) =~= new_account_data(a, scope, initial,
        since) + new_account_data(b, scope, initial, since));
}

/// A to-device message is delivered in the window in which it arrived, behind
/// the token and up to now, as it is and in order.
pub proof fn law_messages_are_delivered_in_their_window(
    a: Seq<InboxRow>,
    b: Seq<InboxRow>,
    x: InboxRow,
    since: u64,
    now: u64,
)
    ensures
        inbox_window(a + b, since, now) == inbox_window(a, since, now)
            + inbox_window(b, since, now),
        inbox_window(seq![x], since, now) == (if since < x.seq && x.seq <= now {
            seq![x.event@]
        } else {
            Seq::empty()
        }),
    decreases b.len(),
{
    reveal_with_fuel(inbox_window, 2);
    assert(seq![x].drop_last() =~= Seq::<InboxRow>::empty());
    if b.len() == 0 {
        assert(a + b =~= a);
    } else {
        law_messages_are_delivered_in_their_window(a, b.drop_last(), x, since, now);
        assert((a + b).drop_last() =~= a + b.drop_last());
        assert((a + b).last() == b.last());
    }

    assert(inbox_window(a + b, since, now) =~= inbox_window(a, since, now)
        + inbox_window(b, since, now));
}

/// Presence that changed behind the token and up to now is told to its user and
/// to whoever shares a joined room with them, and to nobody else.
pub proof fn law_presence_is_told_to_who_shares_a_room(
    a: Seq<PresenceRow>,
    b: Seq<PresenceRow>,
    x: PresenceRow,
    user: Seq<char>,
    joined: Seq<Seq<char>>,
    since: u64,
    now: u64,
)
    ensures
        presence_shown(a + b, user, joined, since, now)
            == presence_shown(a, user, joined, since, now)
            + presence_shown(b, user, joined, since, now),
        presence_shown(seq![x], user, joined, since, now)
            == (if since < x.snapshot.entry.changed_at && x.snapshot.entry.changed_at <= now && (
        x.snapshot.user_id@ == user || exists|i: int|
            0 <= i < x.joined@.len() && joined.contains((#[trigger] texts(x.joined@)[i]))) {
            seq![presence_json(x.snapshot@, x.ago as nat)]
        } else {
            Seq::empty()
        }),
    decreases b.len(),
{
    reveal_with_fuel(presence_shown, 2);
    assert(seq![x].drop_last() =~= Seq::<PresenceRow>::empty());
    if b.len() == 0 {
        assert(a + b =~= a);
    } else {
        law_presence_is_told_to_who_shares_a_room(a, b.drop_last(), x, user, joined, since, now);
        assert((a + b).drop_last() =~= a + b.drop_last());
        assert((a + b).last() == b.last());
    }

    assert(presence_shown(a + b, user, joined, since, now) =~= presence_shown(a, user, joined,
        since, now) + presence_shown(b, user, joined, since, now));
}

/// Presence is told of its user: who it is, what they said, and when they were
/// last active; they are active now exactly where they are online.
pub proof fn law_presence_says_who_and_what(s: PresenceSnapshotV, ago: nat)
    ensures
        field(presence_json(s, ago), "type"@) == Some(JsonV::Str("m.presence"@)),
        field(presence_json(s, ago), "sender"@) == Some(JsonV::Str(s.user_id)),
        field2(presence_json(s, ago), "content"@, "presence"@) == Some(
            JsonV::Str(s.entry.presence),
        ),
        field2(presence_json(s, ago), "content"@, "last_active_ago"@) == Some(
            JsonV::Int(ago as int),
        ),
        field2(presence_json(s, ago), "content"@, "currently_active"@) == Some(
            JsonV::Bool(s.entry.presence == "online"@),
        ),
        field2(presence_json(s, ago), "content"@, "status_msg"@) == (match s.entry.status_msg {
            Some(msg) => Some(JsonV::Str(msg)),
            None => None,
        }),
{
    reveal_strlit("type");
    reveal_strlit("sender");
    reveal_strlit("content");
    reveal_strlit("presence");
    reveal_strlit("last_active_ago");
    reveal_strlit("currently_active");
    reveal_strlit("status_msg");
    assert("type"@.len() == 4 && "sender"@.len() == 6 && "content"@.len() == 7 && "presence"@.len()
        == 8 && "last_active_ago"@.len() == 15 && "currently_active"@.len() == 16
        && "status_msg"@.len() == 10);
}

/// The rooms that a user has joined are those with a room ID and a membership
/// of `join`, in order.
pub proof fn law_joined_rooms_are_those_joined(
    a: Seq<RoomRow>,
    b: Seq<RoomRow>,
    x: RoomRow,
)
    ensures
        rooms_joined(a + b) == rooms_joined(a) + rooms_joined(b),
        rooms_joined(seq![x]) == (if is_room_id(x.room_id@) && x.entry.membership@ == "join"@ {
            seq![x.room_id@]
        } else {
            Seq::empty()
        }),
    decreases b.len(),
{
    reveal_with_fuel(rooms_joined, 2);
    assert(seq![x].drop_last() =~= Seq::<RoomRow>::empty());
    if b.len() == 0 {
        assert(a + b =~= a);
    } else {
        law_joined_rooms_are_those_joined(a, b.drop_last(), x);
        assert((a + b).drop_last() =~= a + b.drop_last());
        assert((a + b).last() == b.last());
    }

    assert(rooms_joined(a + b) =~= rooms_joined(a) + rooms_joined(b));
}

/// Of the names in a device-list change those that are user IDs are told, in
/// order.
pub proof fn law_device_lists_name_users(
    a: Seq<Seq<char>>,
    b: Seq<Seq<char>>,
    x: Seq<char>,
)
    ensures
        valid_user_ids(a + b) == valid_user_ids(a) + valid_user_ids(b),
        valid_user_ids(seq![x]) == (if is_user_id(x) {
            seq![x]
        } else {
            Seq::empty()
        }),
    decreases b.len(),
{
    reveal_with_fuel(valid_user_ids, 2);
    assert(seq![x].drop_last() =~= Seq::<Seq<char>>::empty());
    if b.len() == 0 {
        assert(a + b =~= a);
    } else {
        law_device_lists_name_users(a, b.drop_last(), x);
        assert((a + b).drop_last() =~= a + b.drop_last());
        assert((a + b).last() == b.last());
    }

    assert(valid_user_ids(a + b) =~= valid_user_ids(a) + valid_user_ids(b));
}

/// A user's read position is that of the furthest of their read receipts, and
/// the beginning without any.
pub proof fn law_read_position_is_the_furthest(receipts: Seq<ReceiptPos>, user: Seq<char>)
    ensures
        forall|i: int|
            #![trigger receipts[i]]
            0 <= i < receipts.len() && counts_for(receipts[i], user) ==> receipts[i].seq->0
                <= read_position(receipts, user),
        read_position(receipts, user) == 0 || exists|i: int|
            #![trigger receipts[i]]
            0 <= i < receipts.len() && counts_for(receipts[i], user) && receipts[i].seq->0
                == read_position(receipts, user),
    decreases receipts.len(),
{
    if receipts.len() > 0 {
        let init = receipts.drop_last();
        law_read_position_is_the_furthest(init, user);
        assert(receipts[receipts.len() - 1] == receipts.last());
        assert forall|i: int| 0 <= i < init.len() implies #[trigger] receipts[i] == init[i] by {}
        if read_position(init, user) != 0 {
            let i = choose|i: int|
                #![trigger init[i]]
                0 <= i < init.len() && counts_for(init[i], user) && init[i].seq->0
                    == read_position(init, user);
            assert(receipts[i] == init[i]);
        }
    }
}

/// An event counts as unread where it is a message that somebody else sent.
pub proof fn law_unread_messages_are_others_messages(
    a: Seq<Json>,
    b: Seq<Json>,
    x: Json,
    user: Seq<char>,
)
    ensures
        unread_messages(a + b, user) == unread_messages(a, user) + unread_messages(b, user),
        unread_messages(seq![x], user) == (if field(x@, "type"@)
            == Some(JsonV::Str("m.room.message"@)) && field(x@, "sender"@)
            != Some(JsonV::Str(user)) {
            1nat
        } else {
            0nat
        }),
    decreases b.len(),
{
    reveal_with_fuel(unread_messages, 2);
    assert(seq![x].drop_last() =~= Seq::<Json>::empty());
    if b.len() == 0 {
        assert(a + b =~= a);
    } else {
        law_unread_messages_are_others_messages(a, b.drop_last(), x, user);
        assert((a + b).drop_last() =~= a + b.drop_last());
        assert((a + b).last() == b.last());
    }

    assert(unread_messages(a + b, user) == unread_messages(a, user) + unread_messages(b, user));
}

/// A user who is invited is shown what the room is: of each kind that says so,
/// and of the member events of the two, the stripped event of the state that is
/// not rejected, and nothing else.
pub proof fn law_invites_show_what_the_room_is(
    state: Seq<StateEvent>,
    user: Seq<char>,
    sender: Seq<char>,
    kind: Seq<char>,
    key: Seq<char>,
)
    requires
        (key == ""@ && (kind == "m.room.create"@ || kind == "m.room.join_rules"@ || kind
            == "m.room.canonical_alias"@ || kind == "m.room.name"@ || kind == "m.room.avatar"@
            || kind == "m.room.topic"@ || kind == "m.room.encryption"@)) || (kind
            == "m.room.member"@ && (key == user || key == sender)),
        state_entry(state, kind, key) matches Some(e) && !e.rejected && (e.event matches Some(
            Json::Object(_),
        )),
    ensures
        stripped_for(state, invite_keys(user, sender), 9).contains(
            JsonV::Object(
                stripped(fields_view(state_entry(state, kind, key)->0.event->0->Object_0@)),
            ),
        ),
{
    let keys = invite_keys(user, sender);
    let i: int = if kind == "m.room.create"@ && key == ""@ {
        0
    } else if kind == "m.room.join_rules"@ && key == ""@ {
        1
    } else if kind == "m.room.canonical_alias"@ && key == ""@ {
        2
    } else if kind == "m.room.name"@ && key == ""@ {
        3
    } else if kind == "m.room.avatar"@ && key == ""@ {
        4
    } else if kind == "m.room.topic"@ && key == ""@ {
        5
    } else if kind == "m.room.encryption"@ && key == ""@ {
        6
    } else if key == user {
        7
    } else {
        8
    };
    assert(keys[i] == (kind, key));
    lemma_stripped_for(state, keys, 9, i);
}

/// What is found for a key is among what is shown.
proof fn lemma_stripped_for(
    state: Seq<StateEvent>,
    keys: Seq<(Seq<char>, Seq<char>)>,
    n: int,
    i: int,
)
    requires
        0 <= i < n <= keys.len(),
        stripped_entry(state, keys[i].0, keys[i].1) is Some,
    ensures
        stripped_for(state, keys, n).contains(stripped_entry(state, keys[i].0, keys[i].1)->0),
    decreases n,
{
    let init = stripped_for(state, keys, n - 1);
    let all = stripped_for(state, keys, n);
    let want = stripped_entry(state, keys[i].0, keys[i].1)->0;
    if i == n - 1 {
        assert(all[init.len() as int] == want);
    } else {
        lemma_stripped_for(state, keys, n - 1, i);
        let k = choose|k: int| 0 <= k < init.len() && init[k] == want;
        assert(all[k] == want);
    }
}

/// A room that was left shows its events up to the leave, and none behind it,
/// oldest first.
pub proof fn law_left_rooms_end_with_the_leave(
    rows: Seq<TimelineRow>,
    left_at: Option<u64>,
    row: TimelineRow,
)
    ensures
        shown_backward(seq![row] + rows, left_at, rows.len() as int + 1) == shown_backward(
            rows,
            left_at,
            rows.len() as int,
        ) + (if row.event is Some && (left_at matches Some(at) ==> row.seq <= at) {
            seq![row.event->0@]
        } else {
            Seq::empty()
        }),
        shown_backward(Seq::empty(), left_at, 0) == Seq::<JsonV>::empty(),
{
    let all = seq![row] + rows;
    lemma_backward_tail(rows, row, left_at, rows.len() as int);
    assert(all[0] == row);
    assert(all[all.len() - (rows.len() + 1)] == row);
    assert(shown_backward(all, left_at, rows.len() as int + 1) =~= shown_backward(
        rows,
        left_at,
        rows.len() as int,
    ) + (if row.event is Some && (left_at matches Some(at) ==> row.seq <= at) {
        seq![row.event->0@]
    } else {
        Seq::empty()
    }));
}

proof fn lemma_backward_tail(
    rows: Seq<TimelineRow>,
    row: TimelineRow,
    left_at: Option<u64>,
    k: int,
)
    requires
        k <= rows.len(),
    ensures
        shown_backward(seq![row] + rows, left_at, k) == shown_backward(rows, left_at, k),
    decreases k,
{
    if k > 0 {
        lemma_backward_tail(rows, row, left_at, k - 1);
        let all = seq![row] + rows;
        assert(all[all.len() - k] == rows[rows.len() - k]);
    }
}

/// A joined room's part tells the client what its window holds: the timeline is
/// its events, `limited` says whether it left some out, `prev_batch` is the
/// place of its first event, and paging back from there goes on just before it.
pub proof fn law_paging_back_goes_on_before_the_window(
    i: JoinedInput,
    r: JoinedRoom,
    s: crate::routes::rooms::reads::PageScanV,
    k: int,
)
    requires
        joined_room_for(i, r),
        i.window.rows@.len() > 0,
        i.window.rows@[0].seq > 0,
        r.prev_batch matches Some(t) && crate::routes::rooms::reads::read_page(t@) matches Ok(p)
            && s.query.from == Some(p),
        crate::routes::rooms::reads::back_page_ok(s),
        0 <= k < s.rows.len(),
    ensures
        s.rows[k].pos matches crate::routes::rooms::reads::RowPos::Timeline(x) ==> x
            < i.window.rows@[0].seq,
        r.limited == i.window.limited,
{
    crate::routes::rooms::reads::law_page_tokens_read_back(
        i.window.rows@[0].seq,
        Some(i.now.room),
        0,
    );
    assert(crate::routes::rooms::reads::behind(s.rows[k].pos, s.query.from));
}

/// A joined room's part holds every event of its window and every new piece of
/// its account data; where a window has rows there is a place to page back
/// from.
pub proof fn law_joined_rooms_tell_what_is_new(i: JoinedInput, r: JoinedRoom, k: int)
    requires
        joined_room_for(i, r),
    ensures
        0 <= k < i.window.rows@.len() && i.window.rows@[k].event is Some ==> items_view(
            r.timeline@,
        ).contains(i.window.rows@[k].event->0@),
        i.window.rows@.len() > 0 <==> r.prev_batch is Some,
        0 <= k < i.account_data@.len() && i.account_data@[k].scope@ == i.room_id@ && (i.initial
            || i.account_data@[k].seq > i.since.user) ==> items_view(r.account_data@).contains(
            JsonV::Object(
                Map::empty().insert("type"@, JsonV::Str(i.account_data@[k].data_type@)).insert(
                    "content"@,
                    i.account_data@[k].content@,
                ),
            ),
        ),
        !i.lazy && 0 <= k < i.start_state@.len() && i.start_state@[k].event is Some && !(
        state_entry(
            i.base_state@,
            i.start_state@[k].event_type@,
            i.start_state@[k].state_key@,
        ) matches Some(known) && known.event_id@ == i.start_state@[k].event_id@) ==> items_view(
            r.state@,
        ).contains(i.start_state@[k].event->0@),
{
    if 0 <= k < i.window.rows@.len() {
        let rows = i.window.rows@;
        lemma_around(rows, k);
        law_timelines_show_every_event(rows.take(k) + seq![rows[k]], rows.skip(k + 1), rows[k]);
        law_timelines_show_every_event(rows.take(k), seq![rows[k]], rows[k]);
        if rows[k].event is Some {
            let at = shown_events(rows.take(k)).len() as int;
            assert(shown_events(rows)[at] == rows[k].event->0@);
        }
    }
    if 0 <= k < i.account_data@.len() {
        let rows = i.account_data@;
        let (scope, initial, since) = (i.room_id@, i.initial, i.since);
        lemma_around(rows, k);
        law_new_account_data_is_told(
            rows.take(k) + seq![rows[k]],
            rows.skip(k + 1),
            rows[k],
            scope,
            initial,
            since,
        );
        law_new_account_data_is_told(rows.take(k), seq![rows[k]], rows[k], scope, initial, since);
        if rows[k].scope@ == scope && (initial || rows[k].seq > since.user) {
            let at = new_account_data(rows.take(k), scope, initial, since).len() as int;
            let one = new_account_data(seq![rows[k]], scope, initial, since);
            assert(new_account_data(rows, scope, initial, since)[at] == one[0]);
        }
    }
    if 0 <= k < i.start_state@.len() {
        let rows = i.start_state@;
        let base = i.base_state@;
        let senders = shown_senders(i.window.rows@);
        lemma_around(rows, k);
        law_state_is_what_the_client_lacks(
            rows.take(k) + seq![rows[k]],
            rows.skip(k + 1),
            rows[k],
            base,
            i.lazy,
            senders,
        );
        law_state_is_what_the_client_lacks(
            rows.take(k),
            seq![rows[k]],
            rows[k],
            base,
            i.lazy,
            senders,
        );
        let at = state_delta(rows.take(k), base, i.lazy, senders).len() as int;
        let one = state_delta(seq![rows[k]], base, i.lazy, senders);
        if one.len() > 0 {
            assert(state_delta(rows, base, i.lazy, senders)[at] == one[0]);
        }
    }
}

proof fn lemma_around<T>(s: Seq<T>, k: int)
    requires
        0 <= k < s.len(),
    ensures
        s == s.take(k) + seq![s[k]] + s.skip(k + 1),
{
    assert(s =~= s.take(k) + seq![s[k]] + s.skip(k + 1));
}

/// A filter's limit is kept within bounds: what it asks for between 1 and 100,
/// and 10 where it asks for nothing; members are loaded lazily only where it
/// says so.
pub proof fn law_filters_are_kept_within_bounds(d: Option<FilterFacts>)
    ensures
        1 <= limits_of(d).0 <= 100,
        match d {
            Some(f) => match f.timeline_limit {
                Some(l) => {
                    &&& 1 <= l <= 100 ==> limits_of(d).0 == l
                    &&& l > 100 ==> limits_of(d).0 == 100
                    &&& l == 0 ==> limits_of(d).0 == 1
                },
                None => limits_of(d).0 == 10,
            },
            None => limits_of(d).0 == 10,
        },
        limits_of(d).1 <==> (d matches Some(f) && f.lazy_load_members),
{
}

/// A sync leaves nothing out that is new: its token is that of now, each room
/// stands where the user stands, and every message, every piece of global
/// account data, every device-list change and every presence change that lies
/// between the token and now is told.
pub proof fn law_syncs_leave_nothing_out(input: SyncInput, r: SyncResponse, k: int)
    requires
        sync_for(input, r),
    ensures
        read_token(r.next_batch@) == Some(input.now),
        0 <= k < input.rooms@.len() && is_room_id(input.rooms@[k].room_id@) ==> {
            let row = input.rooms@[k];
            let new = input.since is None || row.entry.seq > input.since->0.user;
            let ignored = opt_json(input.ignored) is Some && field2(
                opt_json(input.ignored)->0,
                "ignored_users"@,
                row.entry.sender@,
            ) is Some;
            &&& r.rooms@[k] == Placement::Join <==> row.entry.membership@ == "join"@ && (
            row.joined matches Some(x) && (new || x.timeline@.len() > 0 || x.state@.len() > 0
                || x.ephemeral@.len() > 0 || x.account_data@.len() > 0))
            &&& r.rooms@[k] == Placement::Invite <==> row.entry.membership@ == "invite"@ && new
                && !ignored
            &&& r.rooms@[k] == Placement::Leave <==> (row.entry.membership@ == "leave"@
                || row.entry.membership@ == "ban"@) && input.since is Some && new
        },
        0 <= k < input.inbox@.len() && (input.since matches Some(s) ==> input.inbox@[k].seq
            > s.user) && (input.since is None ==> input.inbox@[k].seq > 0) && input.inbox@[k].seq
            <= input.now.user ==> items_view(r.to_device@).contains(input.inbox@[k].event@),
        0 <= k < input.account_data@.len() && input.account_data@[k].scope@.len() == 0 && (
        input.since matches Some(s) ==> input.account_data@[k].seq > s.user) ==> items_view(
            r.account_data@,
        ).contains(
            JsonV::Object(
                Map::empty().insert("type"@, JsonV::Str(input.account_data@[k].data_type@)).insert(
                    "content"@,
                    input.account_data@[k].content@,
                ),
            ),
        ),
        input.since is None ==> r.changed@.len() == 0 && r.left@.len() == 0,
        input.since is Some && 0 <= k < input.devices_changed@.len() && is_user_id(
            input.devices_changed@[k]@,
        ) ==> texts(r.changed@).contains(input.devices_changed@[k]@),
        input.since is Some && 0 <= k < input.devices_left@.len() && is_user_id(
            input.devices_left@[k]@,
        ) ==> texts(r.left@).contains(input.devices_left@[k]@),
        0 <= k < input.presence@.len() && input.presence@[k].snapshot.user_id@ == input.user_id@
            && (input.since matches Some(s) ==> input.presence@[k].snapshot.entry.changed_at
            > s.presence) && (input.since is None
            ==> input.presence@[k].snapshot.entry.changed_at > 0)
            && input.presence@[k].snapshot.entry.changed_at <= input.now.presence ==> items_view(
            r.presence@,
        ).contains(presence_json(input.presence@[k].snapshot@, input.presence@[k].ago as nat)),
{
    law_token_reads_back(input.now);
    assert(texts(r.changed@).len() == r.changed@.len() && texts(r.left@).len() == r.left@.len());
    let ignored = choose|ignored: Seq<Seq<char>>| #[trigger]
        ignores(ignored, opt_json(input.ignored)) && forall|i: int|
            0 <= i < input.rooms@.len() ==> #[trigger] r.rooms@[i] == placement(
                input.rooms@[i],
                input.since,
                ignored,
            );
    if 0 <= k < input.rooms@.len() && is_room_id(input.rooms@[k].room_id@) {
        law_rooms_stand_where_the_user_stands(input.rooms@[k], input.since, ignored);
        lemma_memberships_differ();
        assert(ignored.contains(input.rooms@[k].entry.sender@) <==> (opt_json(input.ignored) is Some
            && field2(
            opt_json(input.ignored)->0,
            "ignored_users"@,
            input.rooms@[k].entry.sender@,
        ) is Some));
    }
    if 0 <= k < input.inbox@.len() {
        let rows = input.inbox@;
        let since = pos_or_zero(input.since).user;
        let now = input.now.user;
        lemma_around(rows, k);
        law_messages_are_delivered_in_their_window(
            rows.take(k) + seq![rows[k]],
            rows.skip(k + 1),
            rows[k],
            since,
            now,
        );
        law_messages_are_delivered_in_their_window(rows.take(k), seq![rows[k]], rows[k], since,
            now);
        let one = inbox_window(seq![rows[k]], since, now);
        if one.len() > 0 {
            let at = inbox_window(rows.take(k), since, now).len() as int;
            assert(inbox_window(rows, since, now)[at] == one[0]);
        }
    }
    if 0 <= k < input.account_data@.len() {
        let rows = input.account_data@;
        let (scope, initial, since) = (
            Seq::<char>::empty(),
            input.since is None,
            pos_or_zero(input.since),
        );
        lemma_around(rows, k);
        law_new_account_data_is_told(
            rows.take(k) + seq![rows[k]],
            rows.skip(k + 1),
            rows[k],
            scope,
            initial,
            since,
        );
        law_new_account_data_is_told(rows.take(k), seq![rows[k]], rows[k], scope, initial, since);
        if rows[k].scope@.len() == 0 {
            assert(rows[k].scope@ =~= scope);
        }
        let one = new_account_data(seq![rows[k]], scope, initial, since);
        if one.len() > 0 {
            let at = new_account_data(rows.take(k), scope, initial, since).len() as int;
            assert(new_account_data(rows, scope, initial, since)[at] == one[0]);
        }
    }
    lemma_named_users(texts(input.devices_changed@), k);
    lemma_named_users(texts(input.devices_left@), k);
    if 0 <= k < input.presence@.len() {
        let rows = input.presence@;
        let (user, joined, since, now) = (
            input.user_id@,
            rooms_joined(input.rooms@),
            pos_or_zero(input.since).presence,
            input.now.presence,
        );
        lemma_around(rows, k);
        law_presence_is_told_to_who_shares_a_room(
            rows.take(k) + seq![rows[k]],
            rows.skip(k + 1),
            rows[k],
            user,
            joined,
            since,
            now,
        );
        law_presence_is_told_to_who_shares_a_room(
            rows.take(k),
            seq![rows[k]],
            rows[k],
            user,
            joined,
            since,
            now,
        );
        let one = presence_shown(seq![rows[k]], user, joined, since, now);
        if one.len() > 0 {
            let at = presence_shown(rows.take(k), user, joined, since, now).len() as int;
            assert(presence_shown(rows, user, joined, since, now)[at] == one[0]);
        }
    }
}

proof fn lemma_named_users(names: Seq<Seq<char>>, k: int)
    ensures
        0 <= k < names.len() && is_user_id(names[k]) ==> valid_user_ids(names).contains(names[k]),
{
    if 0 <= k < names.len() && is_user_id(names[k]) {
        lemma_around(names, k);
        law_device_lists_name_users(names.take(k) + seq![names[k]], names.skip(k + 1), names[k]);
        law_device_lists_name_users(names.take(k), seq![names[k]], names[k]);
        let at = valid_user_ids(names.take(k)).len() as int;
        assert(valid_user_ids(names)[at] == names[k]);
    }
}

/// A sync waits for as long as it asks to, a minute at most, and not at all
/// where it does not ask.
pub proof fn law_waits_for_events_are_bounded(
    asked_ms: Option<u64>,
    r: u64,
)
    requires
        call_ensures(sync_timeout, (asked_ms,), r),
    ensures
        asked_ms is None ==> r == 0,
        asked_ms matches Some(t) ==> (t <= 60_000 ==> r == t) && (t > 60_000 ==> r == 60_000),
{
}

/// Typing lasts for as long as it was said to, two minutes at most.
pub proof fn law_typing_ends(
    asked_ms: u64,
    r: u64,
)
    requires
        call_ensures(typing_timeout, (asked_ms,), r),
    ensures
        asked_ms <= 120_000 ==> r == asked_ms,
        asked_ms > 120_000 ==> r == 120_000,
{
}

/// Nobody sets another user's typing.
pub proof fn law_users_type_for_themselves(
    user_id: &str,
    caller: &str,
    r: Result<(), ApiError>,
)
    requires
        call_ensures(send_typing, (user_id, caller), r),
    ensures
        r is Ok <==> user_id@ == caller@,
        r matches Err(e) ==> e@.status == 403,
{
}

/// A receipt is public, private or the read marker; any other is refused.
pub proof fn law_receipts_are_of_known_kinds(
    receipt_type: &str,
    r: Result<ReceiptAction, ApiError>,
)
    requires
        call_ensures(send_receipt, (receipt_type,), r),
    ensures
        r matches Ok(ReceiptAction::WriteRead) <==> receipt_type@ == "m.read"@,
        r matches Ok(ReceiptAction::WriteReadPrivate) <==> receipt_type@ == "m.read.private"@,
        r matches Ok(ReceiptAction::SetFullyRead) <==> receipt_type@ == "m.fully_read"@,
        r matches Err(e) ==> e@.status == 400,
{
    reveal_strlit("m.read");
    reveal_strlit("m.read.private");
    reveal_strlit("m.fully_read");
    assert("m.read"@.len() == 6 && "m.read.private"@.len() == 14 && "m.fully_read"@.len() == 12);
}

/// Setting read markers writes each receipt that is given, under its kind.
pub proof fn law_markers_are_written(
    read: Option<String>,
    private: Option<String>,
    i: int,
    r: Vec<MarkerWrite>,
)
    requires
        call_ensures(set_read_markers, (read, private), r),
    ensures
        read matches Some(id) ==> r@.len() > 0 && r@[0].receipt_type@ == "m.read"@
            && r@[0].event_id == id,
        private matches Some(id) ==> r@.len() > 0 && r@.last().receipt_type@ == "m.read.private"@
            && r@.last().event_id == id,
        read is None && private is None ==> r@.len() == 0,
        r@.len() <= 2,
{
}

/// Other servers are told who types where, or no longer does.
pub proof fn law_typing_is_told_to_servers(
    room_id: &str,
    user_id: &str,
    typing: bool,
    r: Json,
)
    requires
        call_ensures(typing_edu, (room_id, user_id, typing), r),
    ensures
        field(r@, "edu_type"@) == Some(JsonV::Str("m.typing"@)),
        field2(r@, "content"@, "room_id"@) == Some(JsonV::Str(room_id@)),
        field2(r@, "content"@, "user_id"@) == Some(JsonV::Str(user_id@)),
        field2(r@, "content"@, "typing"@) == Some(JsonV::Bool(typing)),
{
    reveal_strlit("edu_type");
    reveal_strlit("content");
    reveal_strlit("room_id");
    reveal_strlit("user_id");
    reveal_strlit("typing");
    assert("edu_type"@.len() == 8 && "content"@.len() == 7 && "room_id"@.len() == 7
        && "user_id"@.len() == 7 && "typing"@.len() == 6);
    assert("content"@[0] == 'c' && "room_id"@[0] == 'r');
    assert("content"@[0] == 'c' && "user_id"@[0] == 'u');
    assert("room_id"@[0] == 'r' && "user_id"@[0] == 'u');
}

/// An invite shows on an initial sync and on the first sync after it, unless
/// the user ignores who sent it; a room that is joined shows always.
pub proof fn law_invited_users_are_told(
    m: &MembershipEntry,
    since: Option<SyncPos>,
    ignored: &Vec<String>,
    r: RoomAction,
)
    requires
        call_ensures(plan_room, (m, since, ignored), r),
    ensures
        m.membership@ == "invite"@ && !texts(ignored@).contains(m.sender@) && (since is None
            || m.seq > since->0.user) ==> r is Invited,
        m.membership@ == "invite"@ && (texts(ignored@).contains(m.sender@) || (since is Some
            && m.seq <= since->0.user)) ==> r is Skip,
        m.membership@ == "join"@ ==> r is Joined,
        (m.membership@ == "leave"@ || m.membership@ == "ban"@) && since is Some
            && m.seq > since->0.user ==> r is Left,
{
    reveal_strlit("join");
    reveal_strlit("invite");
    reveal_strlit("leave");
    reveal_strlit("ban");
    assert("join"@.len() == 4 && "invite"@.len() == 6 && "leave"@.len() == 5 && "ban"@.len() == 3);
}

/// A sync answers at once where it is the first, has something to say, or does
/// not wait.
pub proof fn law_syncs_answer_at_once_where_they_can(
    since: Option<SyncPos>,
    size: ResponseSize,
    timeout_ms: u64,
    r: bool,
)
    requires
        call_ensures(sync_events, (since, size, timeout_ms), r),
    ensures
        since is None ==> r,
        timeout_ms == 0 ==> r,
        since is Some && timeout_ms > 0 ==> (r <==> size.rooms > 0 || size.account_data > 0
            || size.presence > 0 || size.to_device > 0 || size.changed > 0 || size.left > 0),
{
}

/// A room is left out of a sync exactly where it is not new to the client and
/// has nothing to show.
pub proof fn law_rooms_without_news_are_left_out(
    initial: bool,
    timeline: usize,
    state: usize,
    ephemeral: usize,
    data: usize,
    r: bool,
)
    requires
        call_ensures(unchanged, (initial, timeline, state, ephemeral, data), r),
    ensures
        r <==> !initial && timeline == 0 && state == 0 && ephemeral == 0 && data == 0,
{
}

} // verus!

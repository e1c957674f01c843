//! Which events an application service is sent, in which transactions, and how
//! far it has been served. On failure the cursor stays put and the appservice
//! backs off: a bridge that restarts after an hour gets the hour, in order.
use crate::decimal::{decimal, lemma_decimal_reads_back, show_u64};
use crate::json::{as_text, entry, fields_view, get, items_view, lemma_items, Json, JsonV};
use crate::text::{ends_with, has_suffix, join_texts, lemma_split_join, lemma_split_whole, same_text, split_on, texts};
use vstd::prelude::*;
use vstd::string::StringExecFns;

verus! {

/// Timeline rows scanned per iteration (events and receipts; only events are
/// pushed).
pub const SCAN_BATCH: usize = 256;

/// Events per transaction: large enough that a busy bridge catches up quickly,
/// small enough to bound the request.
pub const MAX_EVENTS_PER_TXN: usize = 100;

/// Bounds of the back-off of an appservice, in seconds.
pub const BACKOFF_MIN: u64 = 1;

pub const BACKOFF_MAX: u64 = 300;

/// What a scan of the timeline has gathered for a transaction.
#[derive(Debug)]
pub struct Batch {
    pub events: Vec<Json>,
    pub first: u64,
    pub last: u64,
    pub scanned_to: u64,
}

#[verifier::ext_equal]
pub struct BatchV {
    pub events: Seq<JsonV>,
    pub first: u64,
    pub last: u64,
    pub scanned_to: u64,
}

impl View for Batch {
    type V = BatchV;

    open spec fn view(&self) -> BatchV {
        BatchV {
            events: items_view(self.events@),
            first: self.first,
            last: self.last,
            scanned_to: self.scanned_to,
        }
    }
}

/// A scan that starts behind a cursor.
pub open spec fn scan_from(cursor: u64) -> BatchV {
    BatchV { events: Seq::empty(), first: 0, last: 0, scanned_to: cursor }
}

/// A scan one row further. A row carries an event where it interests the
/// appservice and its sender may see it.
pub open spec fn scanned(b: BatchV, seq: u64, event: Option<JsonV>) -> BatchV {
    match event {
        Some(ev) => BatchV {
            events: b.events.push(ev),
            first: if b.events.len() == 0 {
                seq
            } else {
                b.first
            },
            last: seq,
            scanned_to: seq,
        },
        None => BatchV { scanned_to: seq, ..b },
    }
}

/// Has a scan gathered all that a transaction takes?
pub open spec fn is_full(b: BatchV) -> bool {
    b.events.len() >= MAX_EVENTS_PER_TXN
}

impl Batch {
    /// A scan that starts behind a cursor.
    pub fn start(cursor: u64) -> (r: Batch)
        ensures
            r@ == scan_from(cursor),
    {
        let r = Batch { events: Vec::new(), first: 0, last: 0, scanned_to: cursor };
        proof {
            assert(r@.events =~= Seq::<JsonV>::empty());
        }
        r
    }

    /// Takes in the next row.
    pub fn take(&mut self, seq: u64, event: Option<Json>)
        ensures
            final(self)@ == scanned(
                old(self)@,
                seq,
                match event {
                    Some(j) => Some(j@),
                    None => None,
                },
            ),
    {
        self.scanned_to = seq;
        match event {
            Some(ev) => {
                proof {
                    lemma_items(self.events@);
                }
                if self.events.len() == 0 {
                    self.first = seq;
                }
                self.last = seq;
                proof {
                    assert(self.events@.push(ev).drop_last() =~= self.events@);
                }
                self.events.push(ev);
            },
            None => {},
        }
    }

    /// Has the scan gathered all that a transaction takes?
    pub fn is_full(&self) -> (r: bool)
        ensures
            r == is_full(self@),
    {
        proof {
            lemma_items(self.events@);
        }
        self.events.len() >= MAX_EVENTS_PER_TXN
    }
}

/// What is to be done with a scan.
#[derive(Debug)]
pub enum Plan {
    /// Nothing to send: the cursor moves on.
    Advance(u64),
    /// A transaction is to be sent under this ID.
    Push(String),
}

/// How a transaction is named.
pub open spec fn txn_text(shard: int, b: BatchV) -> Seq<char> {
    seq!['s'] + decimal(shard as nat).push('_') + decimal(b.first as nat).push('_') + decimal(
        b.last as nat,
    ).push('_') + decimal(b.events.len())
}

/// What is to be done with a scan: a boring span still advances the cursor, or
/// an idle server would rescan it forever.
pub fn plan(shard: u16, b: &Batch) -> (r: Plan)
    ensures
        match r {
            Plan::Advance(to) => b@.events.len() == 0 && to == b@.scanned_to,
            Plan::Push(id) => b@.events.len() > 0 && id@ == txn_text(shard as int, b@),
        },
{
    proof {
        lemma_items(b.events@);
    }
    if b.events.len() == 0 {
        return Plan::Advance(b.scanned_to);
    }
    let mut id = String::new();
    id.push('s');
    id.append(show_u64(shard as u64).as_str());
    id.push('_');
    id.append(show_u64(b.first).as_str());
    id.push('_');
    id.append(show_u64(b.last).as_str());
    id.push('_');
    id.append(show_u64(b.events.len() as u64).as_str());
    proof {
        assert(id@ =~= txn_text(shard as int, b@));
    }
    Plan::Push(id)
}

/// The cursor after a transaction was sent: where the scan came to, or, where it
/// was refused, where it was.
pub open spec fn cursor_after(cursor: u64, b: BatchV, taken: bool) -> u64 {
    if taken {
        b.scanned_to
    } else {
        cursor
    }
}

/// The cursor after a transaction was sent, or not taken.
pub fn after_push(cursor: u64, b: &Batch, taken: bool) -> (r: u64)
    ensures
        r == cursor_after(cursor, b@, taken),
{
    if taken {
        b.scanned_to
    } else {
        cursor
    }
}

/// The rows of a scan up to where it stops: the first row that fills it, or the
/// last one.
pub open spec fn scan(b: BatchV, rows: Seq<(u64, Option<JsonV>)>) -> BatchV
    decreases rows.len(),
{
    if rows.len() == 0 || is_full(b) {
        b
    } else {
        scan(scanned(b, rows[0].0, rows[0].1), rows.drop_first())
    }
}

/// How many rows a scan reads.
pub open spec fn rows_read(b: BatchV, rows: Seq<(u64, Option<JsonV>)>) -> nat
    decreases rows.len(),
{
    if rows.len() == 0 || is_full(b) {
        0
    } else {
        1 + rows_read(scanned(b, rows[0].0, rows[0].1), rows.drop_first())
    }
}

/// The events among some rows.
pub open spec fn events_among(rows: Seq<(u64, Option<JsonV>)>) -> Seq<JsonV>
    decreases rows.len(),
{
    if rows.len() == 0 {
        Seq::empty()
    } else {
        (match rows[0].1 {
            Some(ev) => seq![ev],
            None => Seq::empty(),
        }) + events_among(rows.drop_first())
    }
}

/// A transaction leaves nothing out: it holds every event of the rows up to the
/// one that the cursor moves to, in order, and no others.
pub proof fn law_no_event_is_left_out(b: BatchV, rows: Seq<(u64, Option<JsonV>)>)
    ensures
        rows_read(b, rows) <= rows.len(),
        scan(b, rows).events == b.events + events_among(rows.take(rows_read(b, rows) as int)),
        scan(b, rows).scanned_to == (if rows_read(b, rows) == 0 {
            b.scanned_to
        } else {
            rows[rows_read(b, rows) - 1].0
        }),
        rows_read(b, rows) < rows.len() ==> is_full(scan(b, rows)),
    decreases rows.len(),
{
    let n = rows_read(b, rows);
    if rows.len() == 0 || is_full(b) {
        assert(rows.take(0) =~= Seq::<(u64, Option<JsonV>)>::empty());
        assert(b.events + events_among(rows.take(0)) =~= b.events);
    } else {
        let next = scanned(b, rows[0].0, rows[0].1);
        let rest = rows.drop_first();
        law_no_event_is_left_out(next, rest);
        let m = rows_read(next, rest);
        assert(rows.take(n as int).drop_first() =~= rest.take(m as int));
        assert(scan(b, rows).events =~= b.events + events_among(rows.take(n as int)));
        if m > 0 {
            assert(rest[m - 1] == rows[n - 1]);
        }
    }
}

proof fn lemma_scan_goes_on(
    b: BatchV,
    rows: Seq<(u64, Option<JsonV>)>,
    more: Seq<(u64, Option<JsonV>)>,
)
    ensures
        scan(b, rows + more) == scan(scan(b, rows), more),
    decreases rows.len(),
{
    if rows.len() == 0 {
        assert(rows + more =~= more);
    } else if !is_full(b) {
        let next = scanned(b, rows[0].0, rows[0].1);
        assert((rows + more).drop_first() =~= rows.drop_first() + more);
        lemma_scan_goes_on(next, rows.drop_first(), more);
    }
}

/// A refused transaction is sent again, with the same ID and the same events: the
/// cursor stays put, and a scan of the same rows gathers the same. So it does where
/// rows were added since, as long as the transaction was full. (One that was not
/// takes in what was added, and its ID tells.)
pub proof fn law_refused_transactions_are_sent_again(
    shard: int,
    cursor: u64,
    rows: Seq<(u64, Option<JsonV>)>,
    more: Seq<(u64, Option<JsonV>)>,
)
    requires
        more.len() == 0 || is_full(scan(scan_from(cursor), rows)),
    ensures
        ({
            let sent = scan(scan_from(cursor), rows);
            let again = scan(scan_from(cursor_after(cursor, sent, false)), rows + more);
            again == sent && txn_text(shard, again) == txn_text(shard, sent)
        }),
{
    lemma_scan_goes_on(scan_from(cursor), rows, more);
}

/// Rows come in order, behind a position.
pub open spec fn ascend_from(from: u64, rows: Seq<(u64, Option<JsonV>)>) -> bool {
    &&& forall|i: int| 0 <= i < rows.len() ==> from < (#[trigger] rows[i]).0
    &&& forall|i: int, j: int|
        #![trigger rows[i], rows[j]]
        0 <= i < j < rows.len() ==> rows[i].0 < rows[j].0
}

/// The cursor only moves forward.
pub proof fn law_cursor_moves_forward(cursor: u64, rows: Seq<(u64, Option<JsonV>)>)
    requires
        ascend_from(cursor, rows),
    ensures
        scan(scan_from(cursor), rows).scanned_to >= cursor,
        rows.len() > 0 ==> scan(scan_from(cursor), rows).scanned_to > cursor,
{
    let b = scan_from(cursor);
    law_no_event_is_left_out(b, rows);
}

/// A transaction's ID tells its shard, the positions of its first and last
/// event, and how many there are: transactions that differ in one of these have
/// different IDs.
pub proof fn law_txn_ids_differ(s1: u16, b1: BatchV, s2: u16, b2: BatchV)
    requires
        txn_text(s1 as int, b1) == txn_text(s2 as int, b2),
    ensures
        s1 == s2,
        b1.first == b2.first,
        b1.last == b2.last,
        b1.events.len() == b2.events.len(),
{
    lemma_txn_parts(s1, b1);
    lemma_txn_parts(s2, b2);
    let p = split_on(txn_text(s1 as int, b1).skip(1), '_');
    crate::decimal::lemma_decimal_injective(s1 as nat, s2 as nat);
    crate::decimal::lemma_decimal_injective(b1.first as nat, b2.first as nat);
    crate::decimal::lemma_decimal_injective(b1.last as nat, b2.last as nat);
    crate::decimal::lemma_decimal_injective(b1.events.len(), b2.events.len());
    assert(p[0] == decimal(s1 as nat) && p[1] == decimal(b1.first as nat) && p[2] == decimal(
        b1.last as nat,
    ) && p[3] == decimal(b1.events.len()));
    assert(p[0] == decimal(s2 as nat) && p[1] == decimal(b2.first as nat) && p[2] == decimal(
        b2.last as nat,
    ) && p[3] == decimal(b2.events.len()));
}

proof fn lemma_txn_parts(s: u16, b: BatchV)
    ensures
        split_on(txn_text(s as int, b).skip(1), '_') == seq![
            decimal(s as nat),
            decimal(b.first as nat),
            decimal(b.last as nat),
            decimal(b.events.len()),
        ],
{
    let p = decimal(s as nat);
    let q = decimal(b.first as nat);
    let r = decimal(b.last as nat);
    let t = decimal(b.events.len());
    lemma_number_is_one_part(s as nat);
    lemma_number_is_one_part(b.first as nat);
    lemma_number_is_one_part(b.last as nat);
    lemma_number_is_one_part(b.events.len());
    lemma_split_join(r, '_', t);
    lemma_split_join(q, '_', r.push('_') + t);
    lemma_split_join(p, '_', q.push('_') + (r.push('_') + t));
    assert(txn_text(s as int, b).skip(1) =~= p.push('_') + (q.push('_') + (r.push('_') + t)));
    assert(split_on(txn_text(s as int, b).skip(1), '_') =~= seq![p, q, r, t]);
}

proof fn lemma_number_is_one_part(n: nat)
    ensures
        split_on(decimal(n), '_') == seq![decimal(n)],
        forall|i: int| 0 <= i < decimal(n).len() ==> #[trigger] decimal(n)[i] != '_',
{
    lemma_decimal_reads_back(n, n);
    lemma_split_whole(decimal(n), '_');
}

/// How long an appservice is left alone after a failure, in seconds: twice as
/// long as the last time, within bounds.
pub fn next_backoff(last: Option<u64>) -> (r: u64)
    ensures
        r == (match last {
            Some(d) => if 2 * d < BACKOFF_MAX {
                2 * d
            } else {
                BACKOFF_MAX as int
            },
            None => BACKOFF_MIN as int,
        }),
{
    match last {
        Some(d) => if d < BACKOFF_MAX && 2 * d < BACKOFF_MAX {
            2 * d
        } else {
            BACKOFF_MAX
        },
        None => BACKOFF_MIN,
    }
}

// -- interest -----------------------------------------------------------------

/// The string in a field of an event.
pub fn raw_str<'a>(raw: &'a Vec<(String, Json)>, key: &str) -> (r: Option<&'a str>)
    ensures
        match as_text(entry(fields_view(raw@), key@)) {
            Some(s) => r matches Some(t) && t@ == s,
            None => r is None,
        },
{
    match get(raw, key) {
        Some(j) => j.as_str(),
        None => None,
    }
}

/// The type of an event.
pub fn raw_type<'a>(raw: &'a Vec<(String, Json)>) -> (r: Option<&'a str>)
    ensures
        match as_text(entry(fields_view(raw@), "type"@)) {
            Some(s) => r matches Some(t) && t@ == s,
            None => r is None,
        },
{
    raw_str(raw, "type")
}

/// The user whom a membership event is about.
pub open spec fn member_of(raw: Map<Seq<char>, JsonV>) -> Option<Seq<char>> {
    if as_text(entry(raw, "type"@)) == Some("m.room.member"@) {
        as_text(entry(raw, "state_key"@))
    } else {
        None
    }
}

/// The user whom a membership event is about.
pub fn event_member<'a>(raw: &'a Vec<(String, Json)>) -> (r: Option<&'a str>)
    ensures
        match member_of(fields_view(raw@)) {
            Some(s) => r matches Some(t) && t@ == s,
            None => r is None,
        },
{
    match raw_type(raw) {
        Some(t) => if same_text(t, "m.room.member") {
            raw_str(raw, "state_key")
        } else {
            None
        },
        None => None,
    }
}

/// Does an event interest an appservice, as far as is known yet?
#[derive(Clone, Copy, Debug, PartialEq, Eq, Structural)]
pub enum Interest {
    Yes,
    No,
    /// The members of the room decide.
    AskMembers,
}

/// Does an event interest an appservice? The room, the sender, the member that
/// a membership event is about, or an alias of the room is in its namespaces;
/// failing that, a local member of the room, as remembered from an earlier look
/// at them or as a look will show.
pub fn interested(
    room: bool,
    sender: bool,
    member: bool,
    alias: bool,
    remembered: Option<bool>,
) -> (r: Interest)
    ensures
        r == (if room || sender || member || alias || remembered == Some(true) {
            Interest::Yes
        } else if remembered is None {
            Interest::AskMembers
        } else {
            Interest::No
        }),
{
    if room || sender || member || alias {
        return Interest::Yes;
    }
    match remembered {
        Some(true) => Interest::Yes,
        Some(false) => Interest::No,
        None => Interest::AskMembers,
    }
}

/// The members of this server, in order.
pub open spec fn local_among(members: Seq<Seq<char>>, server: Seq<char>) -> Seq<Seq<char>>
    decreases members.len(),
{
    if members.len() == 0 {
        Seq::empty()
    } else {
        let init = local_among(members.drop_last(), server);
        if ends_with(members.last(), seq![':'] + server) {
            init.push(members.last())
        } else {
            init
        }
    }
}

/// The members of this server.
pub fn local_members(members: &Vec<String>, server_name: &str) -> (r: Vec<String>)
    ensures
        texts(r@) == local_among(texts(members@), server_name@),
{
    let suffix = join_texts(":", server_name);
    proof {
        reveal_strlit(":");
        assert(suffix@ =~= seq![':'] + server_name@);
    }
    let mut out: Vec<String> = Vec::new();
    let ghost all = texts(members@);
    proof {
        assert(texts(out@) =~= local_among(all.take(0), server_name@));
    }
    let mut i: usize = 0;
    while i < members.len()
        invariant
            i <= members.len(),
            all == texts(members@),
            suffix@ == seq![':'] + server_name@,
            texts(out@) == local_among(all.take(i as int), server_name@),
        decreases members.len() - i,
    {
        proof {
            assert(all.take(i + 1).drop_last() =~= all.take(i as int));
            assert(all.take(i + 1).last() == members@[i as int]@);
        }
        if has_suffix(members[i].as_str(), suffix.as_str()) {
            let m = members[i].as_str().to_owned();
            proof {
                assert(texts(out@.push(m)) =~= texts(out@).push(m@));
            }
            out.push(m);
        }
        i += 1;
    }
    proof {
        assert(all.take(all.len() as int) =~= all);
    }
    out
}

/// Whether rooms interest an appservice by their members, as seen in one pass.
#[derive(Debug)]
pub struct MemberInterest {
    pub rooms: Vec<(String, bool)>,
}

/// The latest answer for a room.
pub open spec fn answer_for(rooms: Seq<(String, bool)>, room: Seq<char>) -> Option<bool>
    decreases rooms.len(),
{
    if rooms.len() == 0 {
        None
    } else if rooms.last().0@ == room {
        Some(rooms.last().1)
    } else {
        answer_for(rooms.drop_last(), room)
    }
}

impl MemberInterest {
    /// Nothing is known.
    pub fn new() -> (r: MemberInterest)
        ensures
            forall|room: Seq<char>| #[trigger] answer_for(r.rooms@, room) is None,
    {
        MemberInterest { rooms: Vec::new() }
    }

    /// What is known of a room.
    pub fn recall(&self, room: &str) -> (r: Option<bool>)
        ensures
            r == answer_for(self.rooms@, room@),
    {
        let mut i: usize = self.rooms.len();
        proof {
            assert(self.rooms@.take(i as int) =~= self.rooms@);
        }
        while i > 0
            invariant
                i <= self.rooms.len(),
                answer_for(self.rooms@, room@) == answer_for(self.rooms@.take(i as int), room@),
            decreases i,
        {
            i -= 1;
            proof {
                assert(self.rooms@.take(i + 1).drop_last() =~= self.rooms@.take(i as int));
                assert(self.rooms@.take(i + 1).last() == self.rooms@[i as int]);
            }
            if same_text(self.rooms[i].0.as_str(), room) {
                return Some(self.rooms[i].1);
            }
        }
        None
    }

    /// Remembers an answer.
    pub fn remember(&mut self, room: &str, hit: bool)
        ensures
            answer_for(final(self).rooms@, room@) == Some(hit),
            forall|other: Seq<char>|
                other != room@ ==> #[trigger] answer_for(final(self).rooms@, other) == answer_for(
                    old(self).rooms@,
                    other,
                ),
    {
        let ghost before = self.rooms@;
        self.rooms.push((room.to_owned(), hit));
        proof {
            assert(self.rooms@.drop_last() =~= before);
        }
    }

    /// Forgets a room. A membership event does this to its room: the join that
    /// makes an appservice interested must make this very event interesting.
    pub fn forget(&mut self, room: &str)
        ensures
            answer_for(final(self).rooms@, room@) is None,
            forall|other: Seq<char>|
                other != room@ ==> #[trigger] answer_for(final(self).rooms@, other) == answer_for(
                    old(self).rooms@,
                    other,
                ),
    {
        let ghost all = self.rooms@;
        let mut kept: Vec<(String, bool)> = Vec::new();
        let mut i: usize = 0;
        while i < self.rooms.len()
            invariant
                i <= self.rooms.len(),
                all == self.rooms@,
                answer_for(kept@, room@) is None,
                forall|other: Seq<char>|
                    other != room@ ==> #[trigger] answer_for(kept@, other) == answer_for(
                        all.take(i as int),
                        other,
                    ),
            decreases self.rooms.len() - i,
        {
            let ghost before = kept@;
            proof {
                assert(all.take(i + 1).drop_last() =~= all.take(i as int));
                assert(all.take(i + 1).last() == all[i as int]);
            }
            if !same_text(self.rooms[i].0.as_str(), room) {
                kept.push((self.rooms[i].0.as_str().to_owned(), self.rooms[i].1));
                proof {
                    assert(kept@.drop_last() =~= before);
                }
            }
            proof {
                assert forall|other: Seq<char>| other != room@ implies #[trigger] answer_for(
                    kept@,
                    other,
                ) == answer_for(all.take(i + 1), other) by {
                    assert(answer_for(before, other) == answer_for(all.take(i as int), other));
                }
            }
            i += 1;
        }
        proof {
            assert(all.take(all.len() as int) =~= all);
        }
        self.rooms = kept;
    }
}

/// Of the members of a room, those of this server count for the interest of an
/// appservice.
pub proof fn law_our_members_are_asked_for(
    a: Seq<Seq<char>>,
    b: Seq<Seq<char>>,
    x: Seq<char>,
    server: Seq<char>,
)
    ensures
        local_among(a + b, server) == local_among(a, server) + local_among(b, server),
        local_among(seq![x], server) == (if ends_with(x, seq![':'] + server) {
            seq![x]
        } else {
            Seq::empty()
        }),
    decreases b.len(),
{
    reveal_with_fuel(local_among, 2);
    assert(seq![x].drop_last() =~= Seq::<Seq<char>>::empty());
    if b.len() == 0 {
        assert(a + b =~= a);
    } else {
        law_our_members_are_asked_for(a, b.drop_last(), x, server);
        assert((a + b).drop_last() =~= a + b.drop_last());
        assert((a + b).last() == b.last());
    }

    assert(local_among(a + b, server) =~= local_among(a, server) + local_among(b, server));
}

/// A member event is about the user in its state key; no other event is about
/// anybody.
pub proof fn law_member_events_are_about_somebody(raw: Map<Seq<char>, JsonV>, user: Seq<char>)
    ensures
        member_of(raw) == Some(user) <==> raw.dom().contains("type"@) && raw["type"@] == JsonV::Str(
            "m.room.member"@,
        ) && raw.dom().contains("state_key"@) && raw["state_key"@] == JsonV::Str(user),
{
}

/// A batch takes every event that it meets, remembers the first and the last of
/// them, and how far it has read, with or without an event there.
pub proof fn law_batches_take_what_they_meet(b: BatchV, at: u64, ev: JsonV)
    ensures
        ({
            let t = scanned(b, at, Some(ev));
            &&& t.events == b.events + seq![ev]
            &&& t.last == at
            &&& t.scanned_to == at
            &&& t.first == (if b.events.len() == 0 {
                at
            } else {
                b.first
            })
        }),
        ({
            let t = scanned(b, at, None);
            &&& t.events == b.events
            &&& t.first == b.first
            &&& t.last == b.last
            &&& t.scanned_to == at
        }),
        is_full(b) <==> b.events.len() >= 100,
        scan_from(at).events.len() == 0,
        scan_from(at).scanned_to == at,
{
    assert(b.events.push(ev) =~= b.events + seq![ev]);
}

/// The cursor moves on exactly where the transaction was taken, to where the
/// batch was read.
pub proof fn law_taken_transactions_move_the_cursor(cursor: u64, b: BatchV)
    ensures
        cursor_after(cursor, b, true) == b.scanned_to,
        cursor_after(cursor, b, false) == cursor,
{
}

/// A failed transaction is tried again after a second, then after twice as long
/// each time, up to five minutes.
pub proof fn law_waits_double(
    last: Option<u64>,
    r: u64,
)
    requires
        call_ensures(next_backoff, (last,), r),
    ensures
        last is None ==> r == 1,
        last matches Some(d) ==> (2 * d <= 300 ==> r == 2 * d) && (2 * d > 300 ==> r == 300),
{
}

/// An appservice is told of an event that touches its rooms, senders, members
/// or aliases, or a room whose members it is known to be interested in. Where
/// the members are not known they decide.
pub proof fn law_interest_has_many_reasons(
    room: bool,
    sender: bool,
    member: bool,
    alias: bool,
    remembered: Option<bool>,
    r: Interest,
)
    requires
        call_ensures(interested, (room, sender, member, alias, remembered), r),
    ensures
        r is Yes <==> room || sender || member || alias || remembered == Some(true),
        !(r is Yes) ==> (r is AskMembers <==> remembered is None),
{
}

} // verus!

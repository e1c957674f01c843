//! Push-rule evaluation: unread notification counts for `/sync`, with the
//! threaded split.
//!
//! Counts are computed lazily at sync-render time: scan the timeline above
//! the user's unthreaded read position, drop events read via their own
//! thread's receipt, and run the remainder through the user's ruleset.
use crate::ids::{check_user_id, is_user_id};
use crate::json::{as_fields, as_text, field, field2, fields_view, get, is_safe_int, lemma_field_of_key, Json, JsonV,
    MAX_SAFE_INT};
use crate::routes::push::{
    action_in, append_content_rule, append_override_rule, asks_for_display_name,
    display_name_condition, highlight_action, notify_action, rule_at, rules_in, rules_of,
        server_rule, sound_action,
    with_appended, ActionV, RuleV,
};
use crate::routes::sync::TimelineRow;
use crate::text::{chars_of, cut_at, lemma_find_char_at, opt_text, same_text, split_once, string_of_range};
use vstd::prelude::*;

verus! {

#[derive(Debug, Clone, Copy, PartialEq, Eq, Structural)]
pub struct Counts {
    pub notify: u64,
    pub highlight: u64,
}

impl Default for Counts {
    fn default() -> (r: Counts)
        ensures
            r == (Counts { notify: 0, highlight: 0 }),
    {
        Counts { notify: 0, highlight: 0 }
    }
}

/// Unread counts for one `(user, room)`: the unthreaded view plus the
/// per-thread split. `all == main + Σ threads`.
#[derive(Debug)]
pub struct RoomUnread {
    pub all: Counts,
    pub main: Counts,
    /// Thread root event id → counts (only threads with unread events).
    pub threads: Vec<(String, Counts)>,
}

/// Unread scans are bounded: counts saturate rather than walking
/// unbounded history for a user who never sent a receipt.
pub const SCAN_CAP: usize = 512;

// -- read positions -----------------------------------------------------------

/// A receipt, with the timeline position of the event it points at where that
/// event is known.
#[derive(Debug)]
pub struct ReceiptPos {
    pub user_id: String,
    pub receipt_type: String,
    pub thread_id: Option<String>,
    pub seq: Option<u64>,
}

/// Does a receipt move a user's own read position?
pub open spec fn counts_for(r: ReceiptPos, user: Seq<char>) -> bool {
    &&& r.user_id@ == user
    &&& (r.receipt_type@ == "m.read"@ || r.receipt_type@ == "m.read.private"@)
    &&& r.seq is Some
}

pub open spec fn max_of(a: u64, b: u64) -> u64 {
    if a >= b {
        a
    } else {
        b
    }
}

/// The furthest unthreaded receipt of a user, 0 where there is none.
pub open spec fn unthreaded_pos(receipts: Seq<ReceiptPos>, user: Seq<char>) -> u64
    decreases receipts.len(),
{
    if receipts.len() == 0 {
        0
    } else {
        let init = unthreaded_pos(receipts.drop_last(), user);
        let r = receipts.last();
        if counts_for(r, user) && r.thread_id is None {
            max_of(init, r.seq->0)
        } else {
            init
        }
    }
}

/// The furthest receipt of a user in a thread.
pub open spec fn thread_pos(receipts: Seq<ReceiptPos>, user: Seq<char>, thread: Seq<char>) -> Option<
    u64,
>
    decreases receipts.len(),
{
    if receipts.len() == 0 {
        None
    } else {
        let init = thread_pos(receipts.drop_last(), user, thread);
        let r = receipts.last();
        if counts_for(r, user) && opt_text(r.thread_id) == Some(thread) {
            Some(
                match init {
                    Some(p) => max_of(p, r.seq->0),
                    None => r.seq->0,
                },
            )
        } else {
            init
        }
    }
}

/// Does a receipt move the user's own read position?
pub fn is_read_receipt(r: &ReceiptPos, user_id: &str) -> (b: bool)
    ensures
        b == counts_for(*r, user_id@),
{
    same_text(r.user_id.as_str(), user_id) && (same_text(r.receipt_type.as_str(), "m.read")
        || same_text(r.receipt_type.as_str(), "m.read.private")) && r.seq.is_some()
}

/// The furthest unthreaded receipt of a user: the timeline is scanned from
/// there.
pub fn unthreaded_position(receipts: &Vec<ReceiptPos>, user_id: &str) -> (r: u64)
    ensures
        r == unthreaded_pos(receipts@, user_id@),
{
    let mut pos: u64 = 0;
    let mut i: usize = 0;
    while i < receipts.len()
        invariant
            i <= receipts.len(),
            pos == unthreaded_pos(receipts@.take(i as int), user_id@),
        decreases receipts.len() - i,
    {
        proof {
            assert(receipts@.take(i + 1).drop_last() =~= receipts@.take(i as int));
        }
        let r = &receipts[i];
        if is_read_receipt(r, user_id) && r.thread_id.is_none() {
            let seq = r.seq.unwrap();
            if seq > pos {
                pos = seq;
            }
        }
        i += 1;
    }
    proof {
        assert(receipts@.take(receipts@.len() as int) =~= receipts@);
    }
    pos
}

/// The furthest receipt of a user in a thread.
pub fn thread_position(receipts: &Vec<ReceiptPos>, user_id: &str, thread: &str) -> (r: Option<u64>)
    ensures
        r == thread_pos(receipts@, user_id@, thread@),
{
    let mut pos: Option<u64> = None;
    let mut i: usize = 0;
    while i < receipts.len()
        invariant
            i <= receipts.len(),
            pos == thread_pos(receipts@.take(i as int), user_id@, thread@),
        decreases receipts.len() - i,
    {
        proof {
            assert(receipts@.take(i + 1).drop_last() =~= receipts@.take(i as int));
        }
        let r = &receipts[i];
        let here = match &r.thread_id {
            Some(t) => same_text(t.as_str(), thread),
            None => false,
        };
        if is_read_receipt(r, user_id) && here {
            let seq = r.seq.unwrap();
            pos = Some(
                match pos {
                    Some(p) => if p >= seq {
                        p
                    } else {
                        seq
                    },
                    None => seq,
                },
            );
        }
        i += 1;
    }
    proof {
        assert(receipts@.take(receipts@.len() as int) =~= receipts@);
    }
    pos
}

/// The thread that an event lives in: its `m.thread` relation root, else the
/// main timeline.
pub open spec fn thread_name(ev: JsonV) -> Seq<char> {
    let rel = match field(ev, "content"@) {
        Some(c) => field(c, "m.relates_to"@),
        None => None,
    };
    match rel {
        Some(rel) => if as_text(field(rel, "rel_type"@)) == Some("m.thread"@) {
            match as_text(field(rel, "event_id"@)) {
                Some(id) => id,
                None => "main"@,
            }
        } else {
            "main"@
        },
        None => "main"@,
    }
}

/// Which thread an event lives in.
pub fn thread_of(ev: &Json) -> (r: String)
    ensures
        r@ == thread_name(ev@),
{
    let rel = match ev.get("content") {
        Some(c) => c.get("m.relates_to"),
        None => None,
    };
    match rel {
        Some(rel) => {
            let threaded = match rel.get_str("rel_type") {
                Some(t) => same_text(t, "m.thread"),
                None => false,
            };
            if threaded {
                match rel.get_str("event_id") {
                    Some(id) => id.to_owned(),
                    None => "main".to_owned(),
                }
            } else {
                "main".to_owned()
            }
        },
        None => "main".to_owned(),
    }
}

/// Is an event at `seq` unread? Not the user's own, and not covered by the
/// receipt of its thread.
pub open spec fn is_unread(
    ev: JsonV,
    seq: u64,
    receipts: Seq<ReceiptPos>,
    user: Seq<char>,
) -> bool {
    &&& as_text(field(ev, "sender"@)) != Some(user)
    &&& !(thread_pos(receipts, user, thread_name(ev)) matches Some(pos) && seq <= pos)
}

/// Is the event at `seq` unread? The push rules are asked about such events
/// only.
pub fn unread(ev: &Json, seq: u64, receipts: &Vec<ReceiptPos>, user_id: &str) -> (r: bool)
    ensures
        r == is_unread(ev@, seq, receipts@, user_id@),
{
    let own = match ev.get_str("sender") {
        Some(s) => same_text(s, user_id),
        None => false,
    };
    if own {
        return false;
    }
    let thread = thread_of(ev);
    match thread_position(receipts, user_id, thread.as_str()) {
        Some(pos) => seq > pos,
        None => true,
    }
}

// -- counting -----------------------------------------------------------------

/// What the push rules said of an unread event.
#[derive(Debug)]
pub struct Verdict {
    pub thread: String,
    pub notify: bool,
    pub highlight: bool,
}

/// How many of the events notify, in all or in one thread.
pub open spec fn notify_count(vs: Seq<Verdict>, thread: Option<Seq<char>>) -> nat
    decreases vs.len(),
{
    if vs.len() == 0 {
        0
    } else {
        let v = vs.last();
        notify_count(vs.drop_last(), thread) + if v.notify && (thread matches Some(t) ==> v.thread@
            == t) {
            1nat
        } else {
            0nat
        }
    }
}

/// How many of the events that notify are highlights, in all or in one thread.
pub open spec fn highlight_count(vs: Seq<Verdict>, thread: Option<Seq<char>>) -> nat
    decreases vs.len(),
{
    if vs.len() == 0 {
        0
    } else {
        let v = vs.last();
        highlight_count(vs.drop_last(), thread) + if v.notify && v.highlight && (thread matches Some(
            t,
        ) ==> v.thread@ == t) {
            1nat
        } else {
            0nat
        }
    }
}

/// The counts of one thread, or of all events.
pub open spec fn counted(c: Counts, vs: Seq<Verdict>, thread: Option<Seq<char>>) -> bool {
    c.notify == notify_count(vs, thread) && c.highlight == highlight_count(vs, thread)
}

/// The counts of a room: of all events, of the main timeline, and of each
/// thread that has unread events, once.
pub open spec fn tallied(u: RoomUnread, vs: Seq<Verdict>) -> bool {
    &&& counted(u.all, vs, None)
    &&& counted(u.main, vs, Some("main"@))
    &&& forall|i: int|
        0 <= i < u.threads@.len() ==> {
            &&& (#[trigger] u.threads@[i]).0@ != "main"@
            &&& counted(u.threads@[i].1, vs, Some(u.threads@[i].0@))
            &&& u.threads@[i].1.notify > 0
        }
    &&& forall|i: int, j: int|
        #![trigger u.threads@[i], u.threads@[j]]
        0 <= i < j < u.threads@.len() ==> u.threads@[i].0@ != u.threads@[j].0@
    &&& forall|k: int|
        0 <= k < vs.len() && (#[trigger] vs[k]).notify && vs[k].thread@ != "main"@
            ==> thread_listed(u.threads@, vs[k].thread@)
}

pub open spec fn thread_listed(threads: Seq<(String, Counts)>, t: Seq<char>) -> bool {
    exists|i: int| 0 <= i < threads.len() && (#[trigger] threads[i]).0@ == t
}

/// The notifications of all threads together.
pub open spec fn sum_notify(threads: Seq<(String, Counts)>) -> nat
    decreases threads.len(),
{
    if threads.len() == 0 {
        0
    } else {
        sum_notify(threads.drop_last()) + threads.last().1.notify as nat
    }
}

/// The highlights of all threads together.
pub open spec fn sum_highlight(threads: Seq<(String, Counts)>) -> nat
    decreases threads.len(),
{
    if threads.len() == 0 {
        0
    } else {
        sum_highlight(threads.drop_last()) + threads.last().1.highlight as nat
    }
}

proof fn lemma_count_bounds(vs: Seq<Verdict>, thread: Option<Seq<char>>)
    ensures
        notify_count(vs, thread) <= vs.len(),
        highlight_count(vs, thread) <= notify_count(vs, thread),
    decreases vs.len(),
{
    if vs.len() > 0 {
        lemma_count_bounds(vs.drop_last(), thread);
    }
}

/// A thread that is not named by any notifying event counts nothing.
proof fn lemma_absent_thread(vs: Seq<Verdict>, t: Seq<char>)
    requires
        forall|k: int| 0 <= k < vs.len() && (#[trigger] vs[k]).notify ==> vs[k].thread@ != t,
    ensures
        notify_count(vs, Some(t)) == 0,
        highlight_count(vs, Some(t)) == 0,
    decreases vs.len(),
{
    if vs.len() > 0 {
        let init = vs.drop_last();
        assert forall|k: int| 0 <= k < init.len() && (#[trigger] init[k]).notify implies init[k].thread@
            != t by {
            assert(init[k] == vs[k]);
        }
        lemma_absent_thread(init, t);
        assert(vs[vs.len() - 1] == vs.last());
    }
}

proof fn lemma_sum_update(threads: Seq<(String, Counts)>, i: int, c: (String, Counts))
    requires
        0 <= i < threads.len(),
    ensures
        sum_notify(threads.update(i, c)) == sum_notify(threads) - threads[i].1.notify + c.1.notify,
        sum_highlight(threads.update(i, c)) == sum_highlight(threads) - threads[i].1.highlight
            + c.1.highlight,
    decreases threads.len(),
{
    let u = threads.update(i, c);
    if i == threads.len() - 1 {
        assert(u.drop_last() =~= threads.drop_last());
    } else {
        lemma_sum_update(threads.drop_last(), i, c);
        assert(u.drop_last() =~= threads.drop_last().update(i, c));
        assert(u.last() == threads.last());
    }
}

fn find_thread(threads: &Vec<(String, Counts)>, t: &str) -> (r: Option<usize>)
    ensures
        r matches Some(i) ==> i < threads.len() && threads@[i as int].0@ == t@,
        r is None ==> !thread_listed(threads@, t@),
{
    let mut i: usize = 0;
    while i < threads.len()
        invariant
            i <= threads.len(),
            forall|j: int| 0 <= j < i ==> (#[trigger] threads@[j]).0@ != t@,
        decreases threads.len() - i,
    {
        if same_text(threads[i].0.as_str(), t) {
            return Some(i);
        }
        i += 1;
    }
    None
}

fn bump(c: Counts, highlight: bool) -> (r: Counts)
    requires
        c.notify < u64::MAX,
        c.highlight < u64::MAX,
    ensures
        r.notify == c.notify + 1,
        r.highlight == c.highlight + (if highlight {
            1int
        } else {
            0int
        }),
{
    Counts {
        notify: c.notify + 1,
        highlight: if highlight {
            c.highlight + 1
        } else {
            c.highlight
        },
    }
}

/// Counts the events that notify: all together, on the main timeline, and
/// thread by thread.
pub fn tally(verdicts: &Vec<Verdict>) -> (r: RoomUnread)
    ensures
        tallied(r, verdicts@),
        r.all.notify == r.main.notify + sum_notify(r.threads@),
        r.all.highlight == r.main.highlight + sum_highlight(r.threads@),
{
    let mut all = Counts { notify: 0, highlight: 0 };
    let mut main = Counts { notify: 0, highlight: 0 };
    let mut threads: Vec<(String, Counts)> = Vec::new();
    let mut i: usize = 0;
    while i < verdicts.len()
        invariant
            i <= verdicts.len(),
            tallied((RoomUnread { all, main, threads }), verdicts@.take(i as int)),
            all.notify == main.notify + sum_notify(threads@),
            all.highlight == main.highlight + sum_highlight(threads@),
        decreases verdicts.len() - i,
    {
        let v = &verdicts[i];
        let ghost before = verdicts@.take(i as int);
        let ghost after = verdicts@.take(i + 1);
        proof {
            assert(after.drop_last() =~= before);
            assert(after.last() == verdicts@[i as int]);
            lemma_count_bounds(before, None);
            lemma_count_bounds(before, Some("main"@));
            lemma_count_bounds(before, Some(v.thread@));
            assert forall|k: int| 0 <= k < before.len() implies #[trigger] after[k] == before[k] by {}
        }
        if v.notify {
            all = bump(all, v.highlight);
            if same_text(v.thread.as_str(), "main") {
                main = bump(main, v.highlight);
            } else {
                let ghost old_threads = threads@;
                match find_thread(&threads, v.thread.as_str()) {
                    Some(j) => {
                        let c = bump(threads[j].1, v.highlight);
                        let name = v.thread.as_str().to_owned();
                        proof {
                            lemma_sum_update(threads@, j as int, (name, c));
                        }
                        threads.set(j, (name, c));
                        proof {
                            assert forall|t: Seq<char>| thread_listed(old_threads, t) implies thread_listed(
                                threads@,
                                t,
                            ) by {
                                let m = choose|m: int|
                                    0 <= m < old_threads.len() && (#[trigger] old_threads[m]).0@
                                        == t;
                                assert(threads@[m].0@ == t);
                            }
                            assert(threads@[j as int].0@ == v.thread@);
                            assert(thread_listed(threads@, v.thread@));
                        }
                    },
                    None => {
                        let c = bump(Counts { notify: 0, highlight: 0 }, v.highlight);
                        proof {
                            assert forall|k: int|
                                0 <= k < before.len() && (#[trigger] before[k]).notify implies before[k].thread@
                                != v.thread@ by {
                                if before[k].thread@ == v.thread@ {
                                    assert(thread_listed(old_threads, before[k].thread@));
                                }
                            }
                            lemma_absent_thread(before, v.thread@);
                        }
                        threads.push((v.thread.as_str().to_owned(), c));
                        proof {
                            assert(threads@.drop_last() =~= old_threads);
                            assert forall|t: Seq<char>| thread_listed(old_threads, t) implies thread_listed(
                                threads@,
                                t,
                            ) by {
                                let m = choose|m: int|
                                    0 <= m < old_threads.len() && (#[trigger] old_threads[m]).0@
                                        == t;
                                assert(threads@[m].0@ == t);
                            }
                            assert(threads@[old_threads.len() as int].0@ == v.thread@);
                            assert(thread_listed(threads@, v.thread@));
                            assert forall|m: int|
                                0 <= m < old_threads.len() implies (#[trigger] threads@[m]).0@
                                != v.thread@ by {
                                assert(old_threads[m].0@ != v.thread@);
                            }
                        }
                    },
                }
            }
        }
        i += 1;
    }
    proof {
        assert(verdicts@.take(verdicts@.len() as int) =~= verdicts@);
    }
    RoomUnread { all, main, threads }
}

/// Is a row behind the user's unthreaded read position, and not newer than the
/// scan goes?
pub open spec fn in_scan(
    row: TimelineRow,
    receipts: Seq<ReceiptPos>,
    user: Seq<char>,
    upto: u64,
) -> bool {
    unthreaded_pos(receipts, user) < row.seq <= upto
}

/// How many of the first `n` rows are scanned.
pub open spec fn scanned(
    rows: Seq<TimelineRow>,
    receipts: Seq<ReceiptPos>,
    user: Seq<char>,
    upto: u64,
    n: int,
) -> nat
    decreases n,
{
    if n <= 0 {
        0
    } else {
        scanned(rows, receipts, user, upto, n - 1) + if in_scan(rows[n - 1], receipts, user, upto) {
            1nat
        } else {
            0
        }
    }
}

/// Do the push rules judge row `i`? It is one of those that a scan covers, it can
/// be shown, it is not the user's own, and the receipt of its thread does not
/// cover it.
pub open spec fn is_judged(
    rows: Seq<TimelineRow>,
    receipts: Seq<ReceiptPos>,
    user: Seq<char>,
    upto: u64,
    i: int,
) -> bool {
    &&& in_scan(rows[i], receipts, user, upto)
    &&& scanned(rows, receipts, user, upto, i) < SCAN_CAP
    &&& rows[i].event matches Some(ev) && is_unread(ev@, rows[i].seq, receipts, user)
}

/// The places of the judged rows among the first `n`, in order.
pub open spec fn judged(
    rows: Seq<TimelineRow>,
    receipts: Seq<ReceiptPos>,
    user: Seq<char>,
    upto: u64,
    n: int,
) -> Seq<int>
    decreases n,
{
    if n <= 0 {
        Seq::empty()
    } else {
        let init = judged(rows, receipts, user, upto, n - 1);
        if is_judged(rows, receipts, user, upto, n - 1) {
            init.push(n - 1)
        } else {
            init
        }
    }
}

pub open spec fn places(v: Seq<usize>) -> Seq<int> {
    v.map_values(|i: usize| i as int)
}

/// The rows of a timeline that the push rules are to judge, in order.
pub fn rows_to_judge(
    rows: &Vec<TimelineRow>,
    receipts: &Vec<ReceiptPos>,
    user_id: &str,
    upto: u64,
) -> (r: Vec<usize>)
    ensures
        places(r@) == judged(rows@, receipts@, user_id@, upto, rows@.len() as int),
{
    let after = unthreaded_position(receipts, user_id);
    let mut out: Vec<usize> = Vec::new();
    let mut seen: usize = 0;
    let mut i: usize = 0;
    proof {
        assert(places(out@) =~= Seq::empty());
    }
    while i < rows.len()
        invariant
            i <= rows.len(),
            after == unthreaded_pos(receipts@, user_id@),
            seen <= i,
            seen == scanned(rows@, receipts@, user_id@, upto, i as int),
            places(out@) == judged(rows@, receipts@, user_id@, upto, i as int),
        decreases rows.len() - i,
    {
        let row = &rows[i];
        if after < row.seq && row.seq <= upto {
            if seen < SCAN_CAP {
                let judge = match &row.event {
                    Some(ev) => unread(ev, row.seq, receipts, user_id),
                    None => false,
                };
                if judge {
                    proof {
                        assert(places(out@.push(i)) =~= places(out@).push(i as int));
                    }
                    out.push(i);
                }
            }
            seen += 1;
        }
        i += 1;
    }
    out
}

/// What the push rules said of a judged row.
#[derive(Debug)]
pub struct Said {
    pub notify: bool,
    pub highlight: bool,
}

/// `vs` are the verdicts on the rows at `at`: each with the thread that the event
/// lives in, and what the push rules said of it.
pub open spec fn verdicts_on(
    vs: Seq<Verdict>,
    rows: Seq<TimelineRow>,
    at: Seq<int>,
    said: Seq<Said>,
) -> bool {
    &&& vs.len() == at.len()
    &&& forall|k: int|
        0 <= k < vs.len() ==> {
            &&& (#[trigger] vs[k]).thread@ == thread_name(rows[at[k]].event->0@)
            &&& vs[k].notify == said[k].notify
            &&& vs[k].highlight == said[k].highlight
        }
}

proof fn lemma_judged(
    rows: Seq<TimelineRow>,
    receipts: Seq<ReceiptPos>,
    user: Seq<char>,
    upto: u64,
    n: int,
)
    requires
        0 <= n,
    ensures
        forall|k: int|
            0 <= k < judged(rows, receipts, user, upto, n).len() ==> {
                let i = #[trigger] judged(rows, receipts, user, upto, n)[k];
                0 <= i < n && is_judged(rows, receipts, user, upto, i)
            },
    decreases n,
{
    if n > 0 {
        lemma_judged(rows, receipts, user, upto, n - 1);
        let init = judged(rows, receipts, user, upto, n - 1);
        let out = judged(rows, receipts, user, upto, n);
        assert forall|k: int| 0 <= k < out.len() implies {
            let i = #[trigger] out[k];
            0 <= i < n && is_judged(rows, receipts, user, upto, i)
        } by {
            if k < init.len() {
                assert(out[k] == init[k]);
            }
        }
    }
}

/// What a user has not read in a room: of the judged rows, those of which the push
/// rules said to notify, as they said it.
pub fn room_unread(
    rows: &Vec<TimelineRow>,
    receipts: &Vec<ReceiptPos>,
    user_id: &str,
    upto: u64,
    said: &Vec<Said>,
) -> (r: RoomUnread)
    requires
        said@.len() == judged(rows@, receipts@, user_id@, upto, rows@.len() as int).len(),
    ensures
        exists|vs: Seq<Verdict>| #[trigger]
            verdicts_on(
                vs,
                rows@,
                judged(rows@, receipts@, user_id@, upto, rows@.len() as int),
                said@,
            ) && tallied(r, vs),
        r.all.notify == r.main.notify + sum_notify(r.threads@),
        r.all.highlight == r.main.highlight + sum_highlight(r.threads@),
{
    let at = rows_to_judge(rows, receipts, user_id, upto);
    let ghost js = judged(rows@, receipts@, user_id@, upto, rows@.len() as int);
    proof {
        lemma_judged(rows@, receipts@, user_id@, upto, rows@.len() as int);
    }
    let mut vs: Vec<Verdict> = Vec::new();
    let mut k: usize = 0;
    while k < at.len()
        invariant
            k <= at.len(),
            vs@.len() == k,
            js == places(at@),
            said@.len() == js.len(),
            forall|m: int|
                0 <= m < js.len() ==> 0 <= #[trigger] js[m] < rows@.len() && rows@[js[m]].event is Some,
            forall|m: int|
                0 <= m < k ==> {
                    &&& (#[trigger] vs@[m]).thread@ == thread_name(rows@[js[m]].event->0@)
                    &&& vs@[m].notify == said@[m].notify
                    &&& vs@[m].highlight == said@[m].highlight
                },
        decreases at.len() - k,
    {
        let i = at[k];
        proof {
            assert(js[k as int] == i);
        }
        let thread = match &rows[i].event {
            Some(ev) => thread_of(ev),
            None => String::new(),
        };
        vs.push(Verdict { thread, notify: said[k].notify, highlight: said[k].highlight });
        k += 1;
    }
    let r = tally(&vs);
    proof {
        assert(verdicts_on(vs@, rows@, js, said@));
    }
    r
}

/// Only what is unread is judged, and so counted: no event that the user sent, none
/// at or below the unthreaded read position, none at or below the read position of
/// its own thread, and none beyond the scan.
pub proof fn law_only_unread_is_counted(
    rows: Seq<TimelineRow>,
    receipts: Seq<ReceiptPos>,
    user: Seq<char>,
    upto: u64,
    k: int,
)
    requires
        0 <= k < judged(rows, receipts, user, upto, rows.len() as int).len(),
    ensures
        ({
            let i = judged(rows, receipts, user, upto, rows.len() as int)[k];
            let row = rows[i];
            &&& 0 <= i < rows.len()
            &&& row.event is Some
            &&& as_text(field(row.event->0@, "sender"@)) != Some(user)
            &&& unthreaded_pos(receipts, user) < row.seq <= upto
            &&& thread_pos(receipts, user, thread_name(row.event->0@)) matches Some(p) ==> p
                < row.seq
        }),
{
    lemma_judged(rows, receipts, user, upto, rows.len() as int);
    let i = judged(rows, receipts, user, upto, rows.len() as int)[k];
    assert(is_judged(rows, receipts, user, upto, i));
}

/// All that is unread within the scan is judged.
pub proof fn law_all_unread_is_judged(
    rows: Seq<TimelineRow>,
    receipts: Seq<ReceiptPos>,
    user: Seq<char>,
    upto: u64,
    i: int,
    n: int,
)
    requires
        0 <= i < n <= rows.len(),
        is_judged(rows, receipts, user, upto, i),
    ensures
        judged(rows, receipts, user, upto, n).contains(i),
    decreases n,
{
    let init = judged(rows, receipts, user, upto, n - 1);
    let out = judged(rows, receipts, user, upto, n);
    if i < n - 1 {
        law_all_unread_is_judged(rows, receipts, user, upto, i, n - 1);
        let k = choose|k: int| 0 <= k < init.len() && init[k] == i;
        assert(out[k] == i);
    } else {
        assert(out[init.len() as int] == i);
    }
}

/// No more highlights than notifications: in all, on the main timeline and in
/// each thread.
pub proof fn law_highlights_are_notifications(u: RoomUnread, vs: Seq<Verdict>, i: int)
    requires
        tallied(u, vs),
    ensures
        u.all.highlight <= u.all.notify,
        u.main.highlight <= u.main.notify,
        0 <= i < u.threads@.len() ==> u.threads@[i].1.highlight <= u.threads@[i].1.notify
            && u.threads@[i].1.notify >= 1,
{
    lemma_count_bounds(vs, None);
    lemma_count_bounds(vs, Some("main"@));
    if 0 <= i < u.threads@.len() {
        lemma_count_bounds(vs, Some(u.threads@[i].0@));
    }
}

// -- rule inputs --------------------------------------------------------------

/// The text between an identifier's sigil and its first colon.
pub open spec fn localpart_in(id: Seq<char>) -> Option<Seq<char>> {
    match cut_at(id, ':') {
        Some((head, _)) => if head.len() > 0 {
            Some(head.skip(1))
        } else {
            None
        },
        None => None,
    }
}

/// The localpart of a user ID.
pub fn localpart_of(user_id: &str) -> (r: Option<String>)
    ensures
        r is Some <==> localpart_in(user_id@) is Some,
        r matches Some(l) ==> localpart_in(user_id@) == Some(l@),
{
    match split_once(user_id, ':') {
        Some((head, _)) => {
            let chars = chars_of(head.as_str());
            if chars.len() > 0 {
                proof {
                    assert(chars@.subrange(1, chars@.len() as int) =~= head@.skip(1));
                }
                Some(string_of_range(chars.as_slice(), 1, chars.len()))
            } else {
                None
            }
        },
        None => None,
    }
}

/// What the rules of a user look at in a room, beside its power levels.
#[derive(Debug)]
pub struct RuleInputs {
    pub display_name: String,
    pub member_count: u32,
}

/// What the rules of a user look at in a room: the name by which the user is
/// mentioned, which is the localpart where no display name is set, and how many
/// members there are.
pub fn rule_inputs(displayname: Option<String>, user_id: &str, members: usize) -> (r: RuleInputs)
    requires
        localpart_in(user_id@) is Some,
    ensures
        Some(r.display_name@) == (match displayname {
            Some(d) => Some(d@),
            None => localpart_in(user_id@),
        }),
        r.member_count == (if members <= u32::MAX {
            members as int
        } else {
            u32::MAX as int
        }),
{
    let display_name = match displayname {
        Some(d) => d,
        None => match localpart_of(user_id) {
            Some(l) => l,
            None => String::new(),
        },
    };
    let member_count: u32 = if members <= u32::MAX as usize {
        members as u32
    } else {
        u32::MAX
    };
    RuleInputs { display_name, member_count }
}

/// The actions of a rule on mentions: notify, with a sound and a highlight.
pub open spec fn are_mention_actions(a: Seq<ruma::push::Action>) -> bool {
    &&& a.len() == 3
    &&& action_in(a[0]) == ActionV::Notify
    &&& action_in(a[1]) == ActionV::Sound("default"@)
    &&& action_in(a[2]) == ActionV::Highlight(true)
}

fn mention_actions() -> (r: Vec<ruma::push::Action>)
    ensures
        are_mention_actions(r@),
{
    let mut v: Vec<ruma::push::Action> = Vec::new();
    v.push(notify_action());
    v.push(sound_action("default"));
    v.push(highlight_action(true));
    v
}

/// The rules with those on mentions in a body: of the display name, and of the
/// localpart.
pub open spec fn with_mention_rules(
    rules: Map<Seq<char>, Seq<RuleV>>,
    local: Seq<char>,
    a: Seq<ruma::push::Action>,
    b: Seq<ruma::push::Action>,
    c: Seq<ruma::push::PushCondition>,
) -> Map<Seq<char>, Seq<RuleV>> {
    with_appended(
        with_appended(
            rules,
            "override"@,
            server_rule(".m.rule.contains_display_name"@, a, None, c),
        ),
        "content"@,
        server_rule(".m.rule.contains_user_name"@, b, Some(local), Seq::empty()),
    )
}

/// Adds the body-mention rules that clients still rely on, where a ruleset lacks
/// them. They evaluate only: the served ruleset keeps its shape.
pub fn add_legacy_mention_rules(rules: &mut ruma::push::Ruleset, user_id: &str)
    requires
        localpart_in(user_id@) is Some,
    ensures
        exists|
            a: Seq<ruma::push::Action>,
            b: Seq<ruma::push::Action>,
            c: Seq<ruma::push::PushCondition>,
        |
            are_mention_actions(a) && are_mention_actions(b) && c.len() == 1
                && asks_for_display_name(c[0]) && rules_in(*final(rules))
                == #[trigger] with_mention_rules(
                rules_in(*old(rules)),
                localpart_in(user_id@)->0,
                a,
                b,
                c,
            ),
{
    let ghost before = rules_in(*rules);
    let mut conditions: Vec<ruma::push::PushCondition> = Vec::new();
    conditions.push(display_name_condition());
    let local = match localpart_of(user_id) {
        Some(l) => l,
        None => String::new(),
    };
    let first = mention_actions();
    let second = mention_actions();
    let ghost (a, b, c) = (first@, second@, conditions@);
    append_override_rule(rules, ".m.rule.contains_display_name", true, true, conditions, first);
    append_content_rule(
        rules,
        ".m.rule.contains_user_name",
        true,
        true,
        local.as_str(),
        second,
    );
    proof {
        assert(rules_in(*rules) == with_mention_rules(before, localpart_in(user_id@)->0, a, b, c));
    }
}

/// The integer in a value, where it is one that canonical JSON can hold.
pub open spec fn safe_int(j: Option<JsonV>) -> Option<int> {
    match j {
        Some(JsonV::Int(i)) => if is_safe_int(i) {
            Some(i)
        } else {
            None
        },
        _ => None,
    }
}

fn read_safe_int(j: Option<&Json>) -> (r: Option<i64>)
    ensures
        ({
            let v = match j {
                Some(x) => Some(x@),
                None => None,
            };
            &&& r is Some <==> safe_int(v) is Some
            &&& r matches Some(i) ==> safe_int(v) == Some(i as int)
        }),
{
    match j {
        Some(x) => match x.as_i64() {
            Some(i) => if -MAX_SAFE_INT <= i && i <= MAX_SAFE_INT {
                Some(i)
            } else {
                None
            },
            None => None,
        },
        None => None,
    }
}

/// The power levels that push conditions look at.
#[derive(Debug)]
pub struct PowerLevels {
    pub users: Vec<(String, i64)>,
    pub users_default: i64,
    /// The level needed to notify the whole room.
    pub room: i64,
}

/// The levels in a list, the last one of a user counting.
pub open spec fn levels_map(v: Seq<(String, i64)>) -> Map<Seq<char>, int>
    decreases v.len(),
{
    if v.len() == 0 {
        Map::empty()
    } else {
        levels_map(v.drop_last()).insert(v.last().0@, v.last().1 as int)
    }
}

/// The readable levels among the fields of an object: those of user IDs.
pub open spec fn user_levels(m: Map<Seq<char>, JsonV>) -> Map<Seq<char>, int> {
    Map::new(
        |k: Seq<char>| m.dom().contains(k) && is_user_id(k) && safe_int(Some(m[k])) is Some,
        |k: Seq<char>| safe_int(Some(m[k]))->0,
    )
}

fn read_user_levels(fields: &Vec<(String, Json)>) -> (r: Vec<(String, i64)>)
    ensures
        levels_map(r@) == user_levels(fields_view(fields@)),
{
    let mut out: Vec<(String, i64)> = Vec::new();
    let mut i: usize = 0;
    let ghost m = fields_view(fields@);
    let ghost want = user_levels(m);
    while i < fields.len()
        invariant
            i <= fields.len(),
            m == fields_view(fields@),
            want == user_levels(m),
            forall|k: Seq<char>|
                levels_map(out@).dom().contains(k) ==> #[trigger] want.dom().contains(k)
                    && levels_map(out@)[k] == want[k],
            forall|j: int|
                0 <= j < i && want.dom().contains((#[trigger] fields@[j]).0@) ==> levels_map(
                    out@,
                ).dom().contains(fields@[j].0@),
        decreases fields.len() - i,
    {
        let ghost before = levels_map(out@);
        let key = fields[i].0.as_str();
        let level = read_safe_int(get(fields, key));
        proof {
            lemma_field_of_key(fields@, key@);
            assert(fields@[i as int].0@ == key@);
            assert(m.dom().contains(key@));
        }
        match level {
            Some(level) => {
                if check_user_id(key).is_ok() {
                    let entry = (key.to_owned(), level);
                    proof {
                        assert(out@.push(entry).drop_last() =~= out@);
                        assert(want.dom().contains(key@));
                        assert(want[key@] == level);
                    }
                    out.push(entry);
                }
            },
            None => {},
        }
        i += 1;
    }
    proof {
        assert forall|k: Seq<char>| want.dom().contains(k) implies levels_map(out@).dom().contains(
            k,
        ) by {
            lemma_field_of_key(fields@, k);
            let j = choose|j: int| 0 <= j < fields@.len() && (#[trigger] fields@[j]).0@ == k;
            assert(want.dom().contains(fields@[j].0@));
        }
        assert(levels_map(out@) =~= want);
    }
    out
}

/// The power-levels half of the push context, from `m.room.power_levels`
/// content. What cannot be read counts as absent.
pub fn power_levels_ctx(content: &Json) -> (r: PowerLevels)
    ensures
        r.users_default == (match safe_int(field(content@, "users_default"@)) {
            Some(i) => i,
            None => 0,
        }),
        r.room == (match field(content@, "notifications"@) {
            Some(n) => match safe_int(field(n, "room"@)) {
                Some(i) => i,
                None => 50,
            },
            None => 50,
        }),
        levels_map(r.users@) == (match as_fields(field(content@, "users"@)) {
            Some(m) => user_levels(m),
            None => Map::empty(),
        }),
{
    let users_default: i64 = match read_safe_int(content.get("users_default")) {
        Some(i) => i,
        None => 0,
    };
    let room: i64 = match content.get("notifications") {
        Some(n) => match read_safe_int(n.get("room")) {
            Some(i) => i,
            None => 50,
        },
        None => 50,
    };
    let users: Vec<(String, i64)> = match content.get("users") {
        Some(u) => match u.as_object() {
            Some(fields) => read_user_levels(fields),
            None => Vec::new(),
        },
        None => Vec::new(),
    };
    PowerLevels { users, users_default, room }
}

/// How far a user has read is the furthest of their receipts, public or
/// private: those outside of threads for the room, and those in a thread for
/// the thread. No receipt of somebody else's counts.
pub proof fn law_the_furthest_receipt_counts(
    receipts: Seq<ReceiptPos>,
    user: Seq<char>,
    thread: Seq<char>,
    i: int,
)
    ensures
        0 <= i < receipts.len() && receipts[i].user_id@ == user && (receipts[i].receipt_type@
            == "m.read"@ || receipts[i].receipt_type@ == "m.read.private"@)
                && receipts[i].seq is Some
            ==> {
            &&& receipts[i].thread_id is None ==> unthreaded_pos(receipts, user)
                >= receipts[i].seq->0
            &&& (receipts[i].thread_id matches Some(t) && t@ == thread) ==> (thread_pos(
                receipts,
                user,
                thread,
            ) matches Some(p) && p >= receipts[i].seq->0)
        },
        unthreaded_pos(receipts, user) > 0 ==> exists|k: int|
            0 <= k < receipts.len() && (#[trigger] receipts[k]).user_id@ == user && (
            receipts[k].receipt_type@ == "m.read"@ || receipts[k].receipt_type@
                == "m.read.private"@) && receipts[k].thread_id is None && receipts[k].seq == Some(
                unthreaded_pos(receipts, user),
            ),
        thread_pos(receipts, user, thread) is Some ==> exists|k: int|
            0 <= k < receipts.len() && (#[trigger] receipts[k]).user_id@ == user && (
            receipts[k].receipt_type@ == "m.read"@ || receipts[k].receipt_type@
                == "m.read.private"@) && (receipts[k].thread_id matches Some(t) && t@ == thread)
                && receipts[k].seq == thread_pos(receipts, user, thread),
    decreases receipts.len(),
{
    if receipts.len() > 0 {
        let init = receipts.drop_last();
        law_the_furthest_receipt_counts(init, user, thread, i);
        assert forall|j: int| 0 <= j < init.len() implies #[trigger] init[j] == receipts[j] by {}
        let n = receipts.len() - 1;
        assert(receipts[n] == receipts.last());
        if unthreaded_pos(init, user) > 0 {
            let k = choose|k: int|
                0 <= k < init.len() && (#[trigger] init[k]).user_id@ == user && (
                init[k].receipt_type@ == "m.read"@ || init[k].receipt_type@ == "m.read.private"@)
                    && init[k].thread_id is None && init[k].seq == Some(
                    unthreaded_pos(init, user),
                );
            assert(receipts[k] == init[k]);
        }
        if thread_pos(init, user, thread) is Some {
            let k = choose|k: int|
                0 <= k < init.len() && (#[trigger] init[k]).user_id@ == user && (
                init[k].receipt_type@ == "m.read"@ || init[k].receipt_type@ == "m.read.private"@)
                    && (init[k].thread_id matches Some(t) && t@ == thread) && init[k].seq
                    == thread_pos(init, user, thread);
            assert(receipts[k] == init[k]);
        }
    }
}

/// An event is in the thread whose root it names, by a thread relation; any
/// other is on the main timeline.
pub proof fn law_events_are_in_the_thread_they_name(ev: JsonV, root: Seq<char>)
    ensures
        ({
            let rel = field2(ev, "content"@, "m.relates_to"@);
            &&& rel is Some && field(rel->0, "rel_type"@) == Some(JsonV::Str("m.thread"@)) && field(
                rel->0,
                "event_id"@,
            ) == Some(JsonV::Str(root)) ==> thread_name(ev) == root
            &&& rel is None || field(rel->0, "rel_type"@) != Some(JsonV::Str("m.thread"@))
                ==> thread_name(
                ev,
            ) == "main"@
        }),
{
}

/// What counts as unread: an event of somebody else's, beyond the user's
/// receipts of the room and of its thread, up to the end of the scan. Every
/// such event within the scan is judged.
pub proof fn law_what_others_sent_since_is_judged(
    rows: Seq<TimelineRow>,
    receipts: Seq<ReceiptPos>,
    user: Seq<char>,
    upto: u64,
    i: int,
)
    requires
        0 <= i < rows.len() <= 512,
        rows[i].event is Some,
        unthreaded_pos(receipts, user) < rows[i].seq <= upto,
        field(rows[i].event->0@, "sender"@) != Some(JsonV::Str(user)),
        thread_pos(receipts, user, thread_name(rows[i].event->0@)) matches Some(p) ==> p
            < rows[i].seq,
    ensures
        judged(rows, receipts, user, upto, rows.len() as int).contains(i),
{
    lemma_scanned_bound(rows, receipts, user, upto, i);
    law_all_unread_is_judged(rows, receipts, user, upto, i, rows.len() as int);
}

proof fn lemma_scanned_bound(
    rows: Seq<TimelineRow>,
    receipts: Seq<ReceiptPos>,
    user: Seq<char>,
    upto: u64,
    n: int,
)
    requires
        0 <= n,
    ensures
        scanned(rows, receipts, user, upto, n) <= n,
    decreases n,
{
    if n > 0 {
        lemma_scanned_bound(rows, receipts, user, upto, n - 1);
    }
}

/// Counts add up: what is counted of two stretches together is what is counted
/// of each. An event that notifies counts once, in all and in its thread, and
/// as a highlight where it highlights; one that does not counts nowhere.
pub proof fn law_counts_add_up(
    a: Seq<Verdict>,
    b: Seq<Verdict>,
    v: Verdict,
    thread: Option<Seq<char>>,
)
    ensures
        notify_count(a + b, thread) == notify_count(a, thread) + notify_count(b, thread),
        highlight_count(a + b, thread) == highlight_count(a, thread) + highlight_count(b, thread),
        ({
            let here = thread is None || thread == Some(v.thread@);
            &&& notify_count(seq![v], thread) == (if v.notify && here {
                1nat
            } else {
                0nat
            })
            &&& highlight_count(seq![v], thread) == (if v.notify && v.highlight && here {
                1nat
            } else {
                0nat
            })
        }),
    decreases b.len(),
{
    reveal_with_fuel(notify_count, 2);
    reveal_with_fuel(highlight_count, 2);
    assert(seq![v].drop_last() =~= Seq::<Verdict>::empty());
    if b.len() == 0 {
        assert(a + b =~= a);
    } else {
        law_counts_add_up(a, b.drop_last(), v, thread);
        assert((a + b).drop_last() =~= a + b.drop_last());
        assert((a + b).last() == b.last());
    }
}

/// The name that a user goes by without a profile is the part of their ID
/// between the sigil and the colon.
pub proof fn law_local_parts_stand_before_the_colon(name: Seq<char>, server: Seq<char>)
    requires
        !name.contains(':'),
    ensures
        localpart_in(seq!['@'] + name + seq![':'] + server) == Some(name),
{
    let id = seq!['@'] + name + seq![':'] + server;
    let n = 1 + name.len() as int;
    assert(id[n] == ':');
    assert forall|j: int| 0 <= j < n implies id[j] != ':' by {
        if j > 0 {
            assert(id[j] == name[j - 1]);
            assert(name.contains(name[j - 1]));
        }
    }
    lemma_find_char_at(id, ':', 0, n);
    assert(id.take(n).skip(1) =~= name);
}

/// A user's level counts where their ID is one and the level is a whole number
/// that JSON can hold.
pub proof fn law_levels_are_whole_numbers(m: Map<Seq<char>, JsonV>, u: Seq<char>, level: int)
    ensures
        (user_levels(m).dom().contains(u) && user_levels(m)[u] == level)
            <==> is_user_id(u) && field(
            JsonV::Object(m),
            u,
        ) == Some(JsonV::Int(level)) && is_safe_int(level),
{
}

/// Clients that know no mentions are served by two rules of the server's: one
/// that looks for the user's name, behind the other overrides, and one that
/// looks for the local part of their ID, behind the other content rules; where
/// they are there already nothing changes.
pub proof fn law_old_mentions_are_looked_for(
    rules: Map<Seq<char>, Seq<RuleV>>,
    local: Seq<char>,
    a: Seq<ruma::push::Action>,
    b: Seq<ruma::push::Action>,
    c: Seq<ruma::push::PushCondition>,
    other: Seq<char>,
)
    ensures
        ({
            let now = with_mention_rules(rules, local, a, b, c);
            &&& rule_at(rules, "override"@, ".m.rule.contains_display_name"@) is None ==> rules_of(
                now,
                "override"@,
            ) == rules_of(rules, "override"@).push(
                RuleV {
                    rule_id: ".m.rule.contains_display_name"@,
                    default: true,
                    enabled: true,
                    actions: a,
                    pattern: None,
                    conditions: c,
                },
            )
            &&& rule_at(rules, "content"@, ".m.rule.contains_user_name"@) is None ==> rules_of(
                now,
                "content"@,
            ) == rules_of(rules, "content"@).push(
                RuleV {
                    rule_id: ".m.rule.contains_user_name"@,
                    default: true,
                    enabled: true,
                    actions: b,
                    pattern: Some(local),
                    conditions: Seq::empty(),
                },
            )
            &&& other != "override"@ && other != "content"@ ==> rules_of(now, other) == rules_of(
                rules,
                other,
            )
        }),
{
    reveal_strlit("override");
    reveal_strlit("content");
    assert("override"@.len() == 8 && "content"@.len() == 7);
    let rule = server_rule(".m.rule.contains_display_name"@, a, None, c);
    let once = with_appended(rules, "override"@, rule);
    assert(rules_of(once, "content"@) == rules_of(rules, "content"@));
}

} // verus!

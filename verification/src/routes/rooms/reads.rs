//! Reading a room: history pages, event context, state and members.
use crate::decimal::{decimal, lemma_decimal_reads_back, parse_u64, parse_usize, read_number, show_u64};
use crate::error::{bad_json, forbidden, invalid_param, not_found, outcome, ApiError, ApiErrorV};
use crate::ids::{check_user_id, is_user_id};
use crate::json::{as_text, field, field2, fields_view, flag_set, is_true, items_view, no_fields, object_of, one_field, put_str, Json, JsonV};
use crate::room_util::{find_state, state_entry, state_text_in, visibility, StateEvent};
use crate::routes::rooms::opt_json;
use crate::routes::sync::{read_token, seq_number, token_room_seq};
use crate::text::{
    begins_with, cut_at, join_texts, lemma_find_char, lemma_find_char_at, list_has, opt_text,
    query_get, query_value, quote, quoted, same_text, split_once, strip_prefix, texts,
};
use vstd::prelude::*;
use vstd::string::StringExecFns;

verus! {

/// A pagination position. Topological tokens sit *at* an event: paging
/// backward from one leaves that event out. Sync tokens sit *after* the last
/// event seen.
#[derive(Clone, Copy, Debug, PartialEq, Eq, Structural)]
pub struct PaginationBound {
    pub seq: u64,
    pub at_event: bool,
    pub stream: Option<u64>,
}

impl PaginationBound {
    pub open spec fn upper_spec(self) -> int {
        if self.at_event && self.seq > 0 {
            self.seq - 1
        } else {
            self.seq as int
        }
    }

    /// The bound as an inclusive upper limit on event seqs.
    pub fn upper(self) -> (r: u64)
        ensures
            r == self.upper_spec(),
    {
        if self.at_event {
            self.seq.saturating_sub(1)
        } else {
            self.seq
        }
    }

    /// The bound as an exclusive lower limit on event seqs.
    pub fn lower(self) -> (r: u64)
        ensures
            r == self.seq,
    {
        self.seq
    }

    /// The stream position for `?at=` state snapshots: mint-time position
    /// when the token carries one, else the pagination upper bound.
    pub fn at_seq(self) -> (r: u64)
        ensures
            r == (match self.stream {
                Some(s) => s as int,
                None => self.upper_spec(),
            }),
    {
        match self.stream {
            Some(s) => s,
            None => self.upper(),
        }
    }
}

/// Where a page of `/messages` starts.
#[derive(Clone, Copy, Debug, PartialEq, Eq, Structural)]
pub enum PagePos {
    Timeline(PaginationBound),
    History(u64),
}

pub open spec fn bad_page_token() -> ApiErrorV {
    invalid_param("Invalid pagination token"@)
}

/// What a topological or sync token means to a reader of pages.
pub open spec fn read_topo(token: Seq<char>) -> Result<PaginationBound, ApiErrorV> {
    if token.len() > 0 && token[0] == 's' {
        match read_token(token) {
            Some(p) => Ok(PaginationBound { seq: p.room, at_event: false, stream: Some(p.room) }),
            None => Err(invalid_param("Invalid sync token"@)),
        }
    } else if token.len() > 0 && token[0] == 't' {
        let body = token.skip(1);
        match cut_at(body, '_') {
            Some((seq, stream)) => match (seq_number(seq), seq_number(stream)) {
                (Some(a), Some(b)) => Ok(
                    PaginationBound { seq: a as u64, at_event: true, stream: Some(b as u64) },
                ),
                _ => Err(bad_page_token()),
            },
            None => match seq_number(body) {
                Some(a) => Ok(PaginationBound { seq: a as u64, at_event: true, stream: None }),
                None => Err(bad_page_token()),
            },
        }
    } else {
        Err(bad_page_token())
    }
}

/// What a `/messages` token means.
pub open spec fn read_page(token: Seq<char>) -> Result<PagePos, ApiErrorV> {
    if token.len() > 0 && token[0] == 'h' {
        match seq_number(token.skip(1)) {
            Some(i) => Ok(PagePos::History(i as u64)),
            None => Err(bad_page_token()),
        }
    } else {
        match read_topo(token) {
            Ok(b) => Ok(PagePos::Timeline(b)),
            Err(e) => Err(e),
        }
    }
}

/// How a position at an event is written.
pub open spec fn topo_token(seq: nat, stream: Option<nat>) -> Seq<char> {
    match stream {
        Some(s) => seq!['t'] + decimal(seq).push('_') + decimal(s),
        None => seq!['t'] + decimal(seq),
    }
}

/// How a position in fetched history is written.
pub open spec fn history_token(index: nat) -> Seq<char> {
    seq!['h'] + decimal(index)
}

proof fn lemma_first_char(s: Seq<char>, lit: &str, c: char)
    requires
        lit@ == seq![c],
    ensures
        begins_with(s, lit@) <==> s.len() > 0 && s[0] == c,
{
    if s.len() > 0 {
        assert(s.take(1) =~= seq![s[0]]);
    }
    if begins_with(s, lit@) {
        assert(s.take(1)[0] == lit@[0]);
    }
}

/// A written position reads back as itself: at an event, with or without the
/// stream position it was minted at, and in fetched history.
pub proof fn law_page_tokens_read_back(seq: u64, stream: Option<u64>, index: u64)
    ensures
        read_page(
            topo_token(
                seq as nat,
                match stream {
                    Some(s) => Some(s as nat),
                    None => None,
                },
            ),
        ) == Ok::<PagePos, ApiErrorV>(
            PagePos::Timeline(PaginationBound { seq, at_event: true, stream }),
        ),
        read_page(history_token(index as nat)) == Ok::<PagePos, ApiErrorV>(PagePos::History(index)),
{
    let max = u64::MAX as nat;
    let a = decimal(seq as nat);
    lemma_decimal_reads_back(seq as nat, max);
    lemma_decimal_reads_back(index as nat, max);
    assert(history_token(index as nat).skip(1) =~= decimal(index as nat));
    match stream {
        Some(s) => {
            let b = decimal(s as nat);
            lemma_decimal_reads_back(s as nat, max);
            let t = topo_token(seq as nat, Some(s as nat));
            let body = a.push('_') + b;
            assert(t.skip(1) =~= body);
            assert forall|j: int| 0 <= j < a.len() implies #[trigger] body[j] != '_' by {
                assert(body[j] == a[j]);
            }
            lemma_find_char_at(body, '_', 0, a.len() as int);
            assert(body.take(a.len() as int) =~= a);
            assert(body.skip(a.len() as int + 1) =~= b);
        },
        None => {
            let t = topo_token(seq as nat, None);
            assert(t.skip(1) =~= a);
            lemma_find_char(a, '_', 0);
        },
    }
}

/// Writes a position at an event.
pub fn format_topo_token(seq: u64, stream: Option<u64>) -> (r: String)
    ensures
        r@ == topo_token(
            seq as nat,
            match stream {
                Some(s) => Some(s as nat),
                None => None,
            },
        ),
{
    let mut out = String::new();
    out.push('t');
    out.append(show_u64(seq).as_str());
    match stream {
        Some(s) => {
            out.push('_');
            out.append(show_u64(s).as_str());
            proof {
                assert(out@ =~= topo_token(seq as nat, Some(s as nat)));
            }
        },
        None => {
            proof {
                assert(out@ =~= topo_token(seq as nat, None));
            }
        },
    }
    out
}

/// Writes a position in fetched history.
pub fn format_history_token(index: u64) -> (r: String)
    ensures
        r@ == history_token(index as nat),
{
    let mut out = String::new();
    out.push('h');
    out.append(show_u64(index).as_str());
    proof {
        assert(out@ =~= history_token(index as nat));
    }
    out
}

/// Reads a `/messages` token: history positions, else as `parse_topo_token`.
pub fn parse_page_pos(token: &str) -> (r: Result<PagePos, ApiError>)
    ensures
        outcome(r) == read_page(token@),
{
    proof {
        reveal_strlit("h");
        assert("h"@ =~= seq!['h']);
        lemma_first_char(token@, "h", 'h');
    }
    match strip_prefix(token, "h") {
        Some(idx) => match parse_u64(idx.as_str()) {
            Some(i) => Ok(PagePos::History(i)),
            None => Err(ApiError::invalid_param("Invalid pagination token")),
        },
        None => match parse_topo_token(token) {
            Ok(b) => Ok(PagePos::Timeline(b)),
            Err(e) => Err(e),
        },
    }
}

/// Reads the bound in a token.
pub fn parse_pagination_bound(token: &str) -> (r: Result<PaginationBound, ApiError>)
    ensures
        outcome(r) == read_topo(token@),
{
    parse_topo_token(token)
}

/// Reads a topological or sync token.
pub fn parse_topo_token(token: &str) -> (r: Result<PaginationBound, ApiError>)
    ensures
        outcome(r) == read_topo(token@),
{
    proof {
        reveal_strlit("s");
        reveal_strlit("t");
        assert("s"@ =~= seq!['s']);
        assert("t"@ =~= seq!['t']);
        lemma_first_char(token@, "s", 's');
        lemma_first_char(token@, "t", 't');
    }
    if strip_prefix(token, "s").is_some() {
        return match token_room_seq(token) {
            Ok(seq) => Ok(PaginationBound { seq, at_event: false, stream: Some(seq) }),
            Err(e) => Err(e),
        };
    }
    let body = match strip_prefix(token, "t") {
        Some(b) => b,
        None => {
            return Err(ApiError::invalid_param("Invalid pagination token"));
        },
    };
    match split_once(body.as_str(), '_') {
        Some((seq, stream)) => match (parse_u64(seq.as_str()), parse_u64(stream.as_str())) {
            (Some(seq), Some(stream)) => Ok(
                PaginationBound { seq, at_event: true, stream: Some(stream) },
            ),
            _ => Err(ApiError::invalid_param("Invalid pagination token")),
        },
        None => match parse_u64(body.as_str()) {
            Some(seq) => Ok(PaginationBound { seq, at_event: true, stream: None }),
            None => Err(ApiError::invalid_param("Invalid pagination token")),
        },
    }
}

// -- /messages ----------------------------------------------------------------

/// Where a returned row came from — feeds the end-token mint.
#[derive(Clone, Copy, Debug, PartialEq, Eq, Structural)]
pub enum RowPos {
    Timeline(u64),
    History(u64),
}

/// A row of a page.
#[derive(Debug)]
pub struct Row {
    pub pos: RowPos,
    pub event_id: String,
}

/// A row as a value.
pub struct RowV {
    pub pos: RowPos,
    pub event_id: Seq<char>,
}

impl View for Row {
    type V = RowV;

    open spec fn view(&self) -> RowV {
        RowV { pos: self.pos, event_id: self.event_id@ }
    }
}

pub open spec fn row_views(v: Seq<Row>) -> Seq<RowV> {
    v.map_values(|r: Row| r@)
}

/// What a client asks `/messages` for.
#[derive(Clone, Copy, Debug, PartialEq, Eq, Structural)]
pub struct PageQuery {
    pub backward: bool,
    pub limit: usize,
    pub from: Option<PagePos>,
    pub to: Option<PagePos>,
}

/// The direction in a query: it must be there, and be `b` or `f`.
pub open spec fn query_dir(q: Seq<(String, String)>) -> Result<bool, ApiErrorV> {
    match query_value(q, "dir"@) {
        Some(d) => if d == "b"@ {
            Ok(true)
        } else if d == "f"@ {
            Ok(false)
        } else {
            Err(invalid_param("dir: unknown value "@ + quoted(d)))
        },
        None => Err(invalid_param("dir: required parameter is missing"@)),
    }
}

pub open spec fn clamp_int(n: int, low: int, high: int) -> int {
    if n < low {
        low
    } else if n > high {
        high
    } else {
        n
    }
}

/// The page size in a query: 10 unless it says otherwise, at least 1 and at
/// most 1000.
pub open spec fn query_limit(q: Seq<(String, String)>) -> Result<usize, ApiErrorV> {
    match query_value(q, "limit"@) {
        Some(l) => match read_number(l, usize::MAX as nat) {
            Some(n) => Ok(clamp_int(n as int, 1, 1000) as usize),
            None => Err(invalid_param("limit: not an integer"@)),
        },
        None => Ok(10),
    }
}

/// An optional position in a query.
pub open spec fn query_pos(q: Seq<(String, String)>, key: Seq<char>) -> Result<
    Option<PagePos>,
    ApiErrorV,
> {
    match query_value(q, key) {
        Some(t) => match read_page(t) {
            Ok(p) => Ok(Some(p)),
            Err(e) => Err(e),
        },
        None => Ok(None),
    }
}

/// What a query asks for; the first part that is wrong decides the error.
pub open spec fn read_query(q: Seq<(String, String)>) -> Result<PageQuery, ApiErrorV> {
    match (query_dir(q), query_limit(q), query_pos(q, "from"@), query_pos(q, "to"@)) {
        (Err(e), _, _, _) => Err(e),
        (Ok(_), Err(e), _, _) => Err(e),
        (Ok(_), Ok(_), Err(e), _) => Err(e),
        (Ok(_), Ok(_), Ok(_), Err(e)) => Err(e),
        (Ok(backward), Ok(limit), Ok(from), Ok(to)) => Ok(PageQuery { backward, limit, from, to }),
    }
}

fn pos_param(q: &Vec<(String, String)>, key: &str) -> (r: Result<Option<PagePos>, ApiError>)
    ensures
        outcome(r) == query_pos(q@, key@),
{
    match query_get(q, key) {
        Some(t) => match parse_page_pos(t.as_str()) {
            Ok(p) => Ok(Some(p)),
            Err(e) => Err(e),
        },
        None => Ok(None),
    }
}

/// Reads a `/messages` query.
pub fn parse_page_query(q: &Vec<(String, String)>) -> (r: Result<PageQuery, ApiError>)
    ensures
        outcome(r) == read_query(q@),
{
    let backward = match query_get(q, "dir") {
        Some(d) => if same_text(d.as_str(), "b") {
            true
        } else if same_text(d.as_str(), "f") {
            false
        } else {
            let message = join_texts("dir: unknown value ", quote(d.as_str()).as_str());
            return Err(ApiError::invalid_param(message.as_str()));
        },
        None => {
            return Err(ApiError::invalid_param("dir: required parameter is missing"));
        },
    };
    let limit: usize = match query_get(q, "limit") {
        Some(l) => match parse_usize(l.as_str()) {
            Some(n) => if n < 1 {
                1
            } else if n > 1000 {
                1000
            } else {
                n
            },
            None => {
                return Err(ApiError::invalid_param("limit: not an integer"));
            },
        },
        None => 10,
    };
    let from = match pos_param(q, "from") {
        Ok(p) => p,
        Err(e) => {
            return Err(e);
        },
    };
    let to = match pos_param(q, "to") {
        Ok(p) => p,
        Err(e) => {
            return Err(e);
        },
    };
    Ok(PageQuery { backward, limit, from, to })
}

/// What a scan needs next.
#[derive(Clone, Copy, Debug, PartialEq, Eq, Structural)]
pub enum ScanStep {
    /// Read at most `limit` timeline rows above `lower`, up to `upper`; newest
    /// first when backward.
    ReadTimeline { lower: u64, upper: Option<u64>, limit: usize, backward: bool },
    /// Ask whether the room's history visibility shows backfilled events.
    AskReadable,
    /// Read at most `limit` history rows with an index above `after`, up to
    /// `until`. History indexes grow older; `newest_last` asks for the
    /// descending order.
    ReadHistory { after: u64, until: Option<u64>, limit: usize, newest_last: bool },
    /// Ask whether history reaches the room's beginning.
    AskFrontier,
    /// Fetch a batch of older events from another server.
    FetchHistory,
    /// The page is complete.
    Done,
}

/// What came of a step.
#[derive(Debug)]
pub enum ScanEvent {
    /// Rows: the position of each and its event.
    Rows(Vec<(u64, String)>),
    Readable(bool),
    /// No unfetched history is left.
    FrontierEmpty(bool),
    /// How many events a fetch brought.
    Fetched(u64),
}

#[derive(Clone, Copy, Debug, PartialEq, Eq, Structural)]
pub enum ScanPhase {
    BackTimeline,
    Readable,
    BackHistory,
    Frontier,
    Fetch,
    ForwardHistory,
    ForwardTimeline,
    Done,
}

/// A page being collected: first the part of the timeline that the query
/// covers, then backfilled history, or the other way round when paging
/// forward.
#[derive(Debug)]
pub struct PageScan {
    pub query: PageQuery,
    /// The newest timeline position that the caller may read.
    pub cap: Option<u64>,
    pub rows: Vec<Row>,
    pub cursor: u64,
    pub fetches: usize,
    /// More history is known to exist than could be fetched.
    pub more_history: bool,
    pub phase: ScanPhase,
}

/// `PageScan` as a value.
pub struct PageScanV {
    pub query: PageQuery,
    pub cap: Option<u64>,
    pub rows: Seq<RowV>,
    pub cursor: u64,
    pub fetches: usize,
    pub more_history: bool,
    pub phase: ScanPhase,
}

impl View for PageScan {
    type V = PageScanV;

    open spec fn view(&self) -> PageScanV {
        PageScanV {
            query: self.query,
            cap: self.cap,
            rows: row_views(self.rows@),
            cursor: self.cursor,
            fetches: self.fetches,
            more_history: self.more_history,
            phase: self.phase,
        }
    }
}

/// `ScanEvent` as a value.
pub enum ScanEventV {
    Rows(Seq<(u64, Seq<char>)>),
    Readable(bool),
    FrontierEmpty(bool),
    Fetched(u64),
}

impl View for ScanEvent {
    type V = ScanEventV;

    open spec fn view(&self) -> ScanEventV {
        match self {
            ScanEvent::Rows(v) => ScanEventV::Rows(
                v@.map_values(|p: (u64, String)| (p.0, p.1@)),
            ),
            ScanEvent::Readable(b) => ScanEventV::Readable(*b),
            ScanEvent::FrontierEmpty(b) => ScanEventV::FrontierEmpty(*b),
            ScanEvent::Fetched(n) => ScanEventV::Fetched(*n),
        }
    }
}

pub open spec fn min_u64(a: u64, b: u64) -> u64 {
    if a <= b {
        a
    } else {
        b
    }
}

/// The newest timeline position that a scan may return.
pub open spec fn ceiling_of(cap: Option<u64>) -> u64 {
    match cap {
        Some(c) => c,
        None => u64::MAX,
    }
}

/// The inclusive upper timeline bound of a backward page.
pub open spec fn back_upper(q: PageQuery, cap: Option<u64>) -> u64 {
    min_u64(
        match q.from {
            Some(PagePos::Timeline(b)) => b.upper_spec() as u64,
            _ => u64::MAX,
        },
        ceiling_of(cap),
    )
}

pub open spec fn lower_of(p: Option<PagePos>) -> u64 {
    match p {
        Some(PagePos::Timeline(b)) => b.seq,
        _ => 0,
    }
}

/// How far back into history a backward page may go, where a history bound is
/// given.
pub open spec fn history_until(to: Option<PagePos>) -> Option<u64> {
    match to {
        Some(PagePos::History(idx)) => Some(
            if idx > 0 {
                (idx - 1) as u64
            } else {
                0
            },
        ),
        _ => None,
    }
}

/// May a backward page go on into history? Not past a timeline bound.
pub open spec fn history_allowed(to: Option<PagePos>) -> bool {
    match to {
        Some(PagePos::Timeline(b)) => b.seq == 0,
        _ => true,
    }
}

/// Enough round-trips to fill the page from a cold start, plus slack; each
/// fetch asks for 100 events.
pub open spec fn max_fetches(limit: usize) -> int {
    limit as int / 100 + 2
}

/// The inclusive upper timeline bound of a forward page.
pub open spec fn forward_upper(q: PageQuery, cap: Option<u64>) -> Option<u64> {
    match q.to {
        Some(PagePos::Timeline(b)) => Some(min_u64(b.upper_spec() as u64, ceiling_of(cap))),
        _ => cap,
    }
}

/// What a scan needs next.
pub open spec fn scan_step(s: PageScanV) -> ScanStep {
    let need = (s.query.limit - s.rows.len()) as usize;
    match s.phase {
        ScanPhase::BackTimeline => ScanStep::ReadTimeline {
            lower: lower_of(s.query.to),
            upper: Some(back_upper(s.query, s.cap)),
            limit: s.query.limit,
            backward: true,
        },
        ScanPhase::Readable => ScanStep::AskReadable,
        ScanPhase::BackHistory => ScanStep::ReadHistory {
            after: s.cursor,
            until: history_until(s.query.to),
            limit: need,
            newest_last: false,
        },
        ScanPhase::Frontier => ScanStep::AskFrontier,
        ScanPhase::Fetch => ScanStep::FetchHistory,
        ScanPhase::ForwardHistory => ScanStep::ReadHistory {
            after: match s.query.to {
                Some(PagePos::History(t)) => t,
                _ => 0,
            },
            until: history_until(s.query.from),
            limit: s.query.limit,
            newest_last: true,
        },
        ScanPhase::ForwardTimeline => ScanStep::ReadTimeline {
            lower: lower_of(s.query.from),
            upper: forward_upper(s.query, s.cap),
            limit: need,
            backward: false,
        },
        ScanPhase::Done => ScanStep::Done,
    }
}

/// The phase behind the timeline part of a backward page.
pub open spec fn past_timeline(query: PageQuery, len: nat) -> ScanPhase {
    if history_allowed(query.to) && len < query.limit {
        ScanPhase::Readable
    } else {
        ScanPhase::Done
    }
}

/// The phase behind the history part of a forward page.
pub open spec fn past_history(query: PageQuery, len: nat) -> ScanPhase {
    if len < query.limit && !(query.to matches Some(PagePos::History(_))) {
        ScanPhase::ForwardTimeline
    } else {
        ScanPhase::Done
    }
}

/// How a scan starts.
pub open spec fn scan_start(query: PageQuery, cap: Option<u64>) -> PageScanV {
    PageScanV {
        query,
        cap,
        rows: Seq::empty(),
        cursor: match query.from {
            Some(PagePos::History(idx)) => idx,
            _ => 0,
        },
        fetches: 0,
        more_history: false,
        phase: match (query.backward, query.from) {
            (true, Some(PagePos::History(_))) => past_timeline(query, 0),
            (true, _) => ScanPhase::BackTimeline,
            (false, Some(PagePos::History(_))) => ScanPhase::ForwardHistory,
            (false, _) => past_history(query, 0),
        },
    }
}

pub open spec fn timeline_rows(v: Seq<(u64, Seq<char>)>) -> Seq<RowV> {
    v.map_values(|p: (u64, Seq<char>)| RowV { pos: RowPos::Timeline(p.0), event_id: p.1 })
}

pub open spec fn history_rows(v: Seq<(u64, Seq<char>)>) -> Seq<RowV> {
    v.map_values(|p: (u64, Seq<char>)| RowV { pos: RowPos::History(p.0), event_id: p.1 })
}

/// Where an answer takes a scan. An event that does not answer the step
/// changes nothing.
pub open spec fn scan_next(s: PageScanV, event: ScanEventV) -> PageScanV {
    match (s.phase, event) {
        (ScanPhase::BackTimeline, ScanEventV::Rows(v)) => {
            let rows = s.rows + timeline_rows(v);
            PageScanV { rows, phase: past_timeline(s.query, rows.len()), ..s }
        },
        (ScanPhase::Readable, ScanEventV::Readable(b)) => PageScanV {
            phase: if b {
                ScanPhase::BackHistory
            } else {
                ScanPhase::Done
            },
            ..s
        },
        (ScanPhase::BackHistory, ScanEventV::Rows(v)) => {
            let rows = s.rows + history_rows(v);
            PageScanV {
                rows,
                cursor: if v.len() > 0 {
                    v.last().0
                } else {
                    s.cursor
                },
                phase: if rows.len() >= s.query.limit || history_until(s.query.to) is Some {
                    ScanPhase::Done
                } else {
                    ScanPhase::Frontier
                },
                ..s
            }
        },
        (ScanPhase::Frontier, ScanEventV::FrontierEmpty(empty)) => if empty {
            PageScanV { phase: ScanPhase::Done, ..s }
        } else if s.fetches >= max_fetches(s.query.limit) {
            PageScanV { phase: ScanPhase::Done, more_history: true, ..s }
        } else {
            PageScanV { phase: ScanPhase::Fetch, fetches: (s.fetches + 1) as usize, ..s }
        },
        (ScanPhase::Fetch, ScanEventV::Fetched(n)) => if n == 0 {
            PageScanV { phase: ScanPhase::Done, more_history: true, ..s }
        } else {
            PageScanV { phase: ScanPhase::BackHistory, ..s }
        },
        (ScanPhase::ForwardHistory, ScanEventV::Rows(v)) => {
            let rows = s.rows + history_rows(v);
            PageScanV { rows, phase: past_history(s.query, rows.len()), ..s }
        },
        (ScanPhase::ForwardTimeline, ScanEventV::Rows(v)) => PageScanV {
            rows: s.rows + timeline_rows(v),
            phase: ScanPhase::Done,
            ..s
        },
        _ => s,
    }
}

/// Fetches stay within the budget.
pub open spec fn scan_wf(s: PageScanV) -> bool {
    s.fetches <= max_fetches(s.query.limit)
}

fn after_timeline(query: &PageQuery, len: usize) -> (r: ScanPhase)
    ensures
        r == past_timeline(*query, len as nat),
{
    let allowed = match query.to {
        Some(PagePos::Timeline(b)) => b.lower() == 0,
        _ => true,
    };
    if allowed && len < query.limit {
        ScanPhase::Readable
    } else {
        ScanPhase::Done
    }
}

fn after_history(query: &PageQuery, len: usize) -> (r: ScanPhase)
    ensures
        r == past_history(*query, len as nat),
{
    let stops = match query.to {
        Some(PagePos::History(_)) => true,
        _ => false,
    };
    if len < query.limit && !stops {
        ScanPhase::ForwardTimeline
    } else {
        ScanPhase::Done
    }
}

fn until_of(to: Option<PagePos>) -> (r: Option<u64>)
    ensures
        r == history_until(to),
{
    match to {
        Some(PagePos::History(idx)) => Some(idx.saturating_sub(1)),
        _ => None,
    }
}

fn lower_bound(p: Option<PagePos>) -> (r: u64)
    ensures
        r == lower_of(p),
{
    match p {
        Some(PagePos::Timeline(b)) => b.lower(),
        _ => 0,
    }
}

fn least(a: u64, b: u64) -> (r: u64)
    ensures
        r == min_u64(a, b),
{
    if a <= b {
        a
    } else {
        b
    }
}

impl PageScan {
    /// Starts collecting a page.
    pub fn start(query: PageQuery, cap: Option<u64>) -> (r: PageScan)
        ensures
            r@ == scan_start(query, cap),
            scan_wf(r@),
    {
        let cursor: u64 = match query.from {
            Some(PagePos::History(idx)) => idx,
            _ => 0,
        };
        let in_history = match query.from {
            Some(PagePos::History(_)) => true,
            _ => false,
        };
        let phase = if query.backward {
            if in_history {
                after_timeline(&query, 0)
            } else {
                ScanPhase::BackTimeline
            }
        } else {
            if in_history {
                ScanPhase::ForwardHistory
            } else {
                after_history(&query, 0)
            }
        };
        let r = PageScan {
            query,
            cap,
            rows: Vec::new(),
            cursor,
            fetches: 0,
            more_history: false,
            phase,
        };
        proof {
            assert(row_views(r.rows@) =~= Seq::<RowV>::empty());
        }
        r
    }

    /// What the scan needs next.
    pub fn step(&self) -> (r: ScanStep)
        requires
            self.rows@.len() <= self.query.limit,
        ensures
            r == scan_step(self@),
    {
        let ceiling = match self.cap {
            Some(c) => c,
            None => u64::MAX,
        };
        let need = self.query.limit - self.rows.len();
        match self.phase {
            ScanPhase::BackTimeline => {
                let upper = match self.query.from {
                    Some(PagePos::Timeline(b)) => b.upper(),
                    _ => u64::MAX,
                };
                ScanStep::ReadTimeline {
                    lower: lower_bound(self.query.to),
                    upper: Some(least(upper, ceiling)),
                    limit: self.query.limit,
                    backward: true,
                }
            },
            ScanPhase::Readable => ScanStep::AskReadable,
            ScanPhase::BackHistory => ScanStep::ReadHistory {
                after: self.cursor,
                until: until_of(self.query.to),
                limit: need,
                newest_last: false,
            },
            ScanPhase::Frontier => ScanStep::AskFrontier,
            ScanPhase::Fetch => ScanStep::FetchHistory,
            ScanPhase::ForwardHistory => {
                let after = match self.query.to {
                    Some(PagePos::History(t)) => t,
                    _ => 0,
                };
                ScanStep::ReadHistory {
                    after,
                    until: until_of(self.query.from),
                    limit: self.query.limit,
                    newest_last: true,
                }
            },
            ScanPhase::ForwardTimeline => {
                let upper = match self.query.to {
                    Some(PagePos::Timeline(b)) => Some(least(b.upper(), ceiling)),
                    _ => self.cap,
                };
                ScanStep::ReadTimeline {
                    lower: lower_bound(self.query.from),
                    upper,
                    limit: need,
                    backward: false,
                }
            },
            ScanPhase::Done => ScanStep::Done,
        }
    }

    fn add_rows(&mut self, v: Vec<(u64, String)>, history: bool)
        ensures
            final(self)@ == (PageScanV {
                rows: old(self)@.rows + (if history {
                    history_rows(ScanEvent::Rows(v)@->Rows_0)
                } else {
                    timeline_rows(ScanEvent::Rows(v)@->Rows_0)
                }),
                ..old(self)@
            }),
    {
        let ghost before = self@;
        let ghost items = ScanEvent::Rows(v)@->Rows_0;
        let ghost want = if history {
            history_rows(items)
        } else {
            timeline_rows(items)
        };
        let mut i: usize = 0;
        proof {
            assert(before.rows + want.take(0) =~= before.rows);
        }
        while i < v.len()
            invariant
                i <= v.len(),
                items == v@.map_values(|p: (u64, String)| (p.0, p.1@)),
                want == (if history {
                    history_rows(items)
                } else {
                    timeline_rows(items)
                }),
                self@ == (PageScanV { rows: before.rows + want.take(i as int), ..before }),
            decreases v.len() - i,
        {
            let pos = if history {
                RowPos::History(v[i].0)
            } else {
                RowPos::Timeline(v[i].0)
            };
            let row = Row { pos, event_id: v[i].1.as_str().to_owned() };
            let ghost rv = row@;
            let ghost prev = self.rows@;
            self.rows.push(row);
            proof {
                assert(row_views(self.rows@) =~= row_views(prev).push(rv));
                assert(rv == want[i as int]);
                assert((before.rows + want.take(i as int)).push(rv) =~= before.rows + want.take(
                    i + 1,
                ));
            }
            i += 1;
        }
        proof {
            assert(want.take(want.len() as int) =~= want);
        }
    }

    /// Takes the answer to the step.
    pub fn feed(&mut self, event: ScanEvent)
        requires
            scan_wf(old(self)@),
        ensures
            final(self)@ == scan_next(old(self)@, event@),
            scan_wf(final(self)@),
    {
        let ghost before = self@;
        match (self.phase, event) {
            (ScanPhase::BackTimeline, ScanEvent::Rows(v)) => {
                self.add_rows(v, false);
                self.phase = after_timeline(&self.query, self.rows.len());
            },
            (ScanPhase::Readable, ScanEvent::Readable(b)) => {
                self.phase = if b {
                    ScanPhase::BackHistory
                } else {
                    ScanPhase::Done
                };
            },
            (ScanPhase::BackHistory, ScanEvent::Rows(v)) => {
                if v.len() > 0 {
                    self.cursor = v[v.len() - 1].0;
                }
                self.add_rows(v, true);
                self.phase = if self.rows.len() >= self.query.limit || until_of(
                    self.query.to,
                ).is_some() {
                    ScanPhase::Done
                } else {
                    ScanPhase::Frontier
                };
            },
            (ScanPhase::Frontier, ScanEvent::FrontierEmpty(empty)) => {
                if empty {
                    self.phase = ScanPhase::Done;
                } else if self.fetches >= self.query.limit / 100 + 2 {
                    self.more_history = true;
                    self.phase = ScanPhase::Done;
                } else {
                    self.fetches = self.fetches + 1;
                    self.phase = ScanPhase::Fetch;
                }
            },
            (ScanPhase::Fetch, ScanEvent::Fetched(n)) => {
                if n == 0 {
                    self.more_history = true;
                    self.phase = ScanPhase::Done;
                } else {
                    self.phase = ScanPhase::BackHistory;
                }
            },
            (ScanPhase::ForwardHistory, ScanEvent::Rows(v)) => {
                self.add_rows(v, true);
                self.phase = after_history(&self.query, self.rows.len());
            },
            (ScanPhase::ForwardTimeline, ScanEvent::Rows(v)) => {
                self.add_rows(v, false);
                self.phase = ScanPhase::Done;
            },
            _ => {},
        }
    }
}

/// `a` is older than `b`.
pub open spec fn older(a: RowPos, b: RowPos) -> bool {
    match (a, b) {
        (RowPos::Timeline(x), RowPos::Timeline(y)) => x < y,
        (RowPos::History(x), RowPos::History(y)) => x > y,
        (RowPos::History(_), RowPos::Timeline(_)) => true,
        (RowPos::Timeline(_), RowPos::History(_)) => false,
    }
}

/// A row may stand in a backward page that starts at `from`.
pub open spec fn behind(pos: RowPos, from: Option<PagePos>) -> bool {
    match (pos, from) {
        (RowPos::Timeline(x), Some(PagePos::Timeline(b))) => x <= b.upper_spec(),
        (RowPos::History(x), Some(PagePos::History(y))) => x > y,
        (RowPos::Timeline(_), Some(PagePos::History(_))) => false,
        _ => true,
    }
}

/// Does an answer keep to what was asked: positions in range, in order, no
/// more than asked for?
pub open spec fn answers(step: ScanStep, event: ScanEventV) -> bool {
    match (step, event) {
        (ScanStep::ReadTimeline { lower, upper, limit, backward }, ScanEventV::Rows(v)) => {
            &&& v.len() <= limit
            &&& forall|i: int|
                0 <= i < v.len() ==> lower < (#[trigger] v[i]).0 && (upper matches Some(u)
                    ==> v[i].0 <= u)
            &&& forall|i: int, j: int|
                #![trigger v[i], v[j]]
                0 <= i < j < v.len() ==> (if backward {
                    v[i].0 > v[j].0
                } else {
                    v[i].0 < v[j].0
                })
        },
        (ScanStep::ReadHistory { after, until, limit, newest_last }, ScanEventV::Rows(v)) => {
            &&& v.len() <= limit
            &&& forall|i: int|
                0 <= i < v.len() ==> after < (#[trigger] v[i]).0 && (until matches Some(u)
                    ==> v[i].0 <= u)
            &&& forall|i: int, j: int|
                #![trigger v[i], v[j]]
                0 <= i < j < v.len() ==> (if newest_last {
                    v[i].0 > v[j].0
                } else {
                    v[i].0 < v[j].0
                })
        },
        _ => true,
    }
}

/// A backward page in the making: no more rows than asked for, each older than
/// the one before it and behind the page's start, and the next read goes on
/// where the rows end.
pub open spec fn back_page_ok(s: PageScanV) -> bool {
    &&& s.query.backward
    &&& s.rows.len() <= s.query.limit
    &&& forall|i: int, j: int|
        #![trigger s.rows[i], s.rows[j]]
        0 <= i < j < s.rows.len() ==> older(s.rows[j].pos, s.rows[i].pos)
    &&& forall|i: int| 0 <= i < s.rows.len() ==> behind((#[trigger] s.rows[i]).pos, s.query.from)
    &&& forall|i: int|
        0 <= i < s.rows.len() ==> ((#[trigger] s.rows[i]).pos matches RowPos::History(x) ==> x
            <= s.cursor)
    &&& s.query.from matches Some(PagePos::History(y)) ==> y <= s.cursor && s.phase
        != ScanPhase::BackTimeline
    &&& s.phase == ScanPhase::BackTimeline ==> s.rows.len() == 0
    &&& s.phase != ScanPhase::ForwardHistory && s.phase != ScanPhase::ForwardTimeline
}

/// A backward page starts well.
pub proof fn law_back_page_starts(query: PageQuery, cap: Option<u64>)
    requires
        query.backward,
    ensures
        back_page_ok(scan_start(query, cap)),
{
}

/// Every answer that keeps to what was asked keeps a backward page in order:
/// newest first, nothing twice, nothing that was not behind its start, and no
/// more rows than asked for.
pub proof fn law_back_page_stays_in_order(s: PageScanV, event: ScanEventV)
    requires
        back_page_ok(s),
        answers(scan_step(s), event),
    ensures
        back_page_ok(scan_next(s, event)),
{
    let n = scan_next(s, event);
    match (s.phase, event) {
        (ScanPhase::BackTimeline, ScanEventV::Rows(v)) => {
            assert(s.rows + timeline_rows(v) =~= timeline_rows(v));
            assert forall|i: int| 0 <= i < n.rows.len() implies behind(
                (#[trigger] n.rows[i]).pos,
                n.query.from,
            ) by {
                assert(v[i].0 <= back_upper(s.query, s.cap));
            }
            assert forall|i: int, j: int|
                #![trigger n.rows[i], n.rows[j]]
                0 <= i < j < n.rows.len() implies older(n.rows[j].pos, n.rows[i].pos) by {
                assert(v[i].0 > v[j].0);
            }
        },
        (ScanPhase::BackHistory, ScanEventV::Rows(v)) => {
            let more = history_rows(v);
            assert forall|i: int| 0 <= i < n.rows.len() implies behind(
                (#[trigger] n.rows[i]).pos,
                n.query.from,
            ) && (n.rows[i].pos matches RowPos::History(x) ==> x <= n.cursor) by {
                if i < s.rows.len() {
                    assert(n.rows[i] == s.rows[i]);
                    if v.len() > 0 {
                        assert(v[v.len() - 1].0 > s.cursor);
                    }
                } else {
                    let k = i - s.rows.len();
                    assert(n.rows[i] == more[k]);
                    assert(v[k].0 > s.cursor);
                    assert(v[k].0 <= v[v.len() - 1].0);
                }
            }
            assert forall|i: int, j: int|
                #![trigger n.rows[i], n.rows[j]]
                0 <= i < j < n.rows.len() implies older(n.rows[j].pos, n.rows[i].pos) by {
                if j < s.rows.len() {
                    assert(n.rows[i] == s.rows[i] && n.rows[j] == s.rows[j]);
                } else {
                    let kj = j - s.rows.len();
                    assert(n.rows[j] == more[kj]);
                    assert(v[kj].0 > s.cursor);
                    if i < s.rows.len() {
                        assert(n.rows[i] == s.rows[i]);
                    } else {
                        let ki = i - s.rows.len();
                        assert(n.rows[i] == more[ki]);
                        assert(v[ki].0 < v[kj].0);
                    }
                }
            }
            if v.len() > 0 {
                assert(v[v.len() - 1].0 > s.cursor);
            }
        },
        _ => {},
    }
}

/// How a row's position is written as a token.
pub open spec fn row_token(pos: RowPos) -> Seq<char> {
    match pos {
        RowPos::Timeline(s) => topo_token(s as nat, None),
        RowPos::History(i) => history_token(i as nat),
    }
}

/// Pages do not overlap: a backward page that starts at the token of a row
/// holds only rows older than that row. (Timeline positions start from 1.)
pub proof fn law_next_page_is_older(pos: RowPos, s: PageScanV, i: int)
    requires
        pos matches RowPos::Timeline(x) ==> x > 0,
        back_page_ok(s),
        0 <= i < s.rows.len(),
        match read_page(row_token(pos)) {
            Ok(p) => s.query.from == Some(p),
            Err(_) => false,
        },
    ensures
        older(s.rows[i].pos, pos),
{
    match pos {
        RowPos::Timeline(x) => {
            law_page_tokens_read_back(x, None, 0);
        },
        RowPos::History(x) => {
            law_page_tokens_read_back(0, None, x);
        },
    }
    assert(behind(s.rows[i].pos, s.query.from));
}

/// The token of a row always reads back as a position.
pub proof fn law_row_tokens_are_tokens(pos: RowPos)
    ensures
        read_page(row_token(pos)) is Ok,
{
    match pos {
        RowPos::Timeline(x) => {
            law_page_tokens_read_back(x, None, 0);
        },
        RowPos::History(x) => {
            law_page_tokens_read_back(0, None, x);
        },
    }
}

/// Writes the position of a row.
pub fn format_row_token(pos: RowPos) -> (r: String)
    ensures
        r@ == row_token(pos),
{
    match pos {
        RowPos::Timeline(s) => format_topo_token(s, None),
        RowPos::History(i) => format_history_token(i),
    }
}

/// Does a content filter let an event through?
pub open spec fn url_filter_passes(ev: JsonV, contains_url: Option<bool>) -> bool {
    contains_url matches Some(want) ==> want == (field2(ev, "content"@, "url"@) matches Some(
        JsonV::Str(_),
    ))
}

/// Does the `contains_url` filter let an event through?
pub fn passes_url_filter(ev: &Json, contains_url: Option<bool>) -> (r: bool)
    ensures
        r == url_filter_passes(ev@, contains_url),
{
    match contains_url {
        Some(want) => {
            let has = match ev.get2("content", "url") {
                Some(u) => u.as_str().is_some(),
                None => false,
            };
            has == want
        },
        None => true,
    }
}

/// The senders of the events, each once, in the order of first appearance.
pub open spec fn senders_of(events: Seq<Json>) -> Seq<Seq<char>>
    decreases events.len(),
{
    if events.len() == 0 {
        Seq::empty()
    } else {
        let init = senders_of(events.drop_last());
        match as_text(field(events.last()@, "sender"@)) {
            Some(s) => if init.contains(s) {
                init
            } else {
                init.push(s)
            },
            None => init,
        }
    }
}

/// The senders of a page's events: lazily loaded members are theirs.
pub fn page_senders(events: &Vec<Json>) -> (r: Vec<String>)
    ensures
        texts(r@) == senders_of(events@),
{
    let mut out: Vec<String> = Vec::new();
    let mut i: usize = 0;
    proof {
        assert(texts(out@) =~= senders_of(events@.take(0)));
    }
    while i < events.len()
        invariant
            i <= events.len(),
            texts(out@) == senders_of(events@.take(i as int)),
        decreases events.len() - i,
    {
        proof {
            assert(events@.take(i + 1).drop_last() =~= events@.take(i as int));
            assert(events@.take(i + 1).last() == events@[i as int]);
        }
        match events[i].get_str("sender") {
            Some(s) => {
                if !list_has(&out, s) {
                    let t = s.to_owned();
                    proof {
                        assert(texts(out@.push(t)) =~= texts(out@).push(t@));
                    }
                    out.push(t);
                }
            },
            None => {},
        }
        i += 1;
    }
    proof {
        assert(events@.take(events@.len() as int) =~= events@);
    }
    out
}

/// The newest timeline position among rows.
pub open spec fn newest_seq(rows: Seq<RowV>) -> Option<u64>
    decreases rows.len(),
{
    if rows.len() == 0 {
        None
    } else {
        let init = newest_seq(rows.drop_last());
        match rows.last().pos {
            RowPos::Timeline(s) => Some(
                match init {
                    Some(m) => if m >= s {
                        m
                    } else {
                        s
                    },
                    None => s,
                },
            ),
            RowPos::History(_) => init,
        }
    }
}

/// The newest timeline position among a page's rows: lazily loaded members are
/// shown as of there. History rows predate local state and contribute none.
pub fn lazy_members_at(rows: &Vec<Row>) -> (r: Option<u64>)
    ensures
        r == newest_seq(row_views(rows@)),
{
    let mut best: Option<u64> = None;
    let mut i: usize = 0;
    let ghost all = row_views(rows@);
    while i < rows.len()
        invariant
            i <= rows.len(),
            all == row_views(rows@),
            best == newest_seq(all.take(i as int)),
        decreases rows.len() - i,
    {
        proof {
            assert(all.take(i + 1).drop_last() =~= all.take(i as int));
            assert(all.take(i + 1).last() == rows@[i as int]@);
        }
        match rows[i].pos {
            RowPos::Timeline(s) => {
                best = Some(
                    match best {
                        Some(m) => if m >= s {
                            m
                        } else {
                            s
                        },
                        None => s,
                    },
                );
            },
            RowPos::History(_) => {},
        }
        i += 1;
    }
    proof {
        assert(all.take(all.len() as int) =~= all);
    }
    best
}

/// The `end` token of a page: that of its last row, while there may be more; of
/// a page without rows behind which history is still open, the place in history
/// up to which the scan came, so that the client can resume there. It is left
/// out only when nothing was returned and the scan reached the start: clients
/// paginate until it disappears.
pub open spec fn end_token(s: PageScanV, chunk_len: nat) -> Option<Seq<char>> {
    if s.rows.len() == 0 {
        if s.more_history {
            Some(history_token(s.cursor as nat))
        } else {
            None
        }
    } else if s.rows.len() == s.query.limit || s.more_history || chunk_len > 0 {
        Some(row_token(s.rows.last().pos))
    } else {
        None
    }
}

/// The `end` token of a page with `chunk_len` returned events.
pub fn page_end(scan: &PageScan, chunk_len: usize) -> (r: Option<String>)
    ensures
        opt_text(r) == end_token(scan@, chunk_len as nat),
{
    let n = scan.rows.len();
    if n == 0 {
        return if scan.more_history {
            Some(format_history_token(scan.cursor))
        } else {
            None
        };
    }
    if n == scan.query.limit || scan.more_history || chunk_len > 0 {
        proof {
            assert(scan@.rows.last() == scan.rows@.last()@);
        }
        Some(format_row_token(scan.rows[n - 1].pos))
    } else {
        None
    }
}

/// While history is open behind a page, the client can resume: the page has an
/// `end` token, it reads back as a position, and a page without rows goes on at
/// the place in history up to which it came.
pub proof fn law_open_history_can_be_resumed(s: PageScanV, chunk_len: nat)
    requires
        s.more_history,
    ensures
        end_token(s, chunk_len) is Some,
        read_page(end_token(s, chunk_len)->0) is Ok,
        s.rows.len() == 0 ==> read_page(end_token(s, chunk_len)->0) == Ok::<PagePos, ApiErrorV>(
            PagePos::History(s.cursor),
        ),
{
    if s.rows.len() == 0 {
        law_page_tokens_read_back(0, None, s.cursor);
    } else {
        law_row_tokens_are_tokens(s.rows.last().pos);
    }
}

/// The `start` token of a page: the one the client sent, else the timeline's
/// floor.
pub fn page_start(q: &Vec<(String, String)>) -> (r: String)
    ensures
        r@ == (match query_value(q@, "from"@) {
            Some(t) => t,
            None => "t0"@,
        }),
{
    match query_get(q, "from") {
        Some(t) => t.as_str().to_owned(),
        None => "t0".to_owned(),
    }
}

/// How a refused reader is answered: an unknown room reads as one that the
/// caller is no member of, not as an existence oracle.
pub fn messages_refusal(e: ApiError) -> (r: ApiError)
    ensures
        e.status == 404 ==> r@ == forbidden("You aren't a member of the room"@),
        e.status != 404 ==> r@ == e@,
{
    if e.status == 404 {
        ApiError::forbidden("You aren't a member of the room")
    } else {
        e
    }
}

/// Departed members keep reading history up to their leave — unless they
/// forgot the room, which revokes that residual access.
pub fn ensure_not_forgotten(forgotten: bool) -> (r: Result<(), ApiError>)
    ensures
        !forgotten ==> r is Ok,
        forgotten ==> (r matches Err(e) && e@ == forbidden("You aren't a member of the room"@)),
{
    if forgotten {
        Err(ApiError::forbidden("You aren't a member of the room"))
    } else {
        Ok(())
    }
}

/// How a request for messages begins: access is checked before the query is
/// looked at, so a caller who may not read the room is refused however malformed
/// the request is. `access` is what the caller may read of the room: all of it,
/// or up to the position at which they left.
pub open spec fn messages_begin(
    forgotten: bool,
    access: Result<Option<u64>, ApiErrorV>,
    q: Seq<(String, String)>,
) -> Result<PageScanV, ApiErrorV> {
    if forgotten {
        Err(forbidden("You aren't a member of the room"@))
    } else {
        match access {
            Err(e) => Err(
                if e.status == 404 {
                    forbidden("You aren't a member of the room"@)
                } else {
                    e
                },
            ),
            Ok(cap) => match read_query(q) {
                Err(e) => Err(e),
                Ok(query) => Ok(scan_start(query, cap)),
            },
        }
    }
}

/// Begins a request for messages.
pub fn begin_messages(
    forgotten: bool,
    access: Result<Option<u64>, ApiError>,
    q: &Vec<(String, String)>,
) -> (r: Result<PageScan, ApiError>)
    ensures
        match messages_begin(forgotten, outcome(access), q@) {
            Ok(s) => r matches Ok(scan) && scan@ == s && scan_wf(scan@),
            Err(x) => r matches Err(e) && e@ == x,
        },
{
    match ensure_not_forgotten(forgotten) {
        Ok(_) => {},
        Err(e) => {
            return Err(e);
        },
    }
    let cap = match access {
        Ok(cap) => cap,
        Err(e) => {
            return Err(messages_refusal(e));
        },
    };
    match parse_page_query(q) {
        Ok(query) => Ok(PageScan::start(query, cap)),
        Err(e) => Err(e),
    }
}

/// Whoever may not read a room is answered 403, whatever the query holds: no
/// answer tells an unknown room from one that the caller is no member of, nor
/// what is wrong with the query.
pub proof fn law_strangers_are_forbidden(
    forgotten: bool,
    access: Result<Option<u64>, ApiErrorV>,
    q: Seq<(String, String)>,
)
    requires
        forgotten || (access matches Err(e) && (e.status == 404 || (e.status == 403 && e.errcode
            == "M_FORBIDDEN"@))),
    ensures
        messages_begin(forgotten, access, q) matches Err(e) && e.status == 403 && e.errcode
            == "M_FORBIDDEN"@,
{
}

/// Does a state's history visibility show backfilled events? They predate all
/// local state, so serving them is gated on the room's *current* visibility.
pub fn history_readable(current: &Vec<StateEvent>) -> (r: bool)
    ensures
        r == (visibility(current@) == "shared"@ || visibility(current@) == "world_readable"@),
{
    let v = match state_text_in(current, "m.room.history_visibility", "history_visibility") {
        Some(v) => v,
        None => "shared".to_owned(),
    };
    same_text(v.as_str(), "shared") || same_text(v.as_str(), "world_readable")
}

/// A forward page in the making: no more rows than asked for, each newer than
/// the one before it.
pub open spec fn forward_page_ok(s: PageScanV) -> bool {
    &&& !s.query.backward
    &&& s.rows.len() <= s.query.limit
    &&& forall|i: int, j: int|
        #![trigger s.rows[i], s.rows[j]]
        0 <= i < j < s.rows.len() ==> older(s.rows[i].pos, s.rows[j].pos)
    &&& s.phase == ScanPhase::ForwardHistory ==> s.rows.len() == 0
    &&& s.phase == ScanPhase::ForwardTimeline ==> forall|i: int|
        0 <= i < s.rows.len() ==> (#[trigger] s.rows[i]).pos is History
    &&& s.phase == ScanPhase::ForwardHistory || s.phase == ScanPhase::ForwardTimeline || s.phase
        == ScanPhase::Done
}

/// A forward page starts well.
pub proof fn law_forward_page_starts(query: PageQuery, cap: Option<u64>)
    requires
        !query.backward,
    ensures
        forward_page_ok(scan_start(query, cap)),
{
}

/// Every answer that keeps to what was asked keeps a forward page in order:
/// oldest first, nothing twice, and no more rows than asked for.
pub proof fn law_forward_page_stays_in_order(s: PageScanV, event: ScanEventV)
    requires
        forward_page_ok(s),
        answers(scan_step(s), event),
    ensures
        forward_page_ok(scan_next(s, event)),
{
    let n = scan_next(s, event);
    match (s.phase, event) {
        (ScanPhase::ForwardHistory, ScanEventV::Rows(v)) => {
            assert(n.rows =~= history_rows(v));
            assert forall|i: int, j: int|
                #![trigger n.rows[i], n.rows[j]]
                0 <= i < j < n.rows.len() implies older(n.rows[i].pos, n.rows[j].pos) by {
                assert(v[i].0 > v[j].0);
            }
        },
        (ScanPhase::ForwardTimeline, ScanEventV::Rows(v)) => {
            let more = timeline_rows(v);
            assert forall|i: int, j: int|
                #![trigger n.rows[i], n.rows[j]]
                0 <= i < j < n.rows.len() implies older(n.rows[i].pos, n.rows[j].pos) by {
                if j < s.rows.len() {
                    assert(n.rows[i] == s.rows[i] && n.rows[j] == s.rows[j]);
                } else {
                    let kj = j - s.rows.len();
                    assert(n.rows[j] == more[kj]);
                    if i < s.rows.len() {
                        assert(n.rows[i] == s.rows[i]);
                    } else {
                        let ki = i - s.rows.len();
                        assert(n.rows[i] == more[ki]);
                        assert(v[ki].0 < v[kj].0);
                    }
                }
            }
        },
        _ => {},
    }
}

/// What is stored of a room: the positions of its timeline, and the indexes of its
/// backfilled history.
pub struct StoredRows {
    pub timeline: Set<u64>,
    pub history: Set<u64>,
}

/// Is a position one of those that are stored?
pub open spec fn is_stored(pos: RowPos, store: StoredRows) -> bool {
    match pos {
        RowPos::Timeline(x) => store.timeline.contains(x),
        RowPos::History(x) => store.history.contains(x),
    }
}

/// Is there a row for a position?
pub open spec fn has_row(rows: Seq<RowV>, pos: RowPos) -> bool {
    exists|i: int| 0 <= i < rows.len() && (#[trigger] rows[i]).pos == pos
}

/// Is a position among those that were read?
pub open spec fn has_pos(v: Seq<(u64, Seq<char>)>, x: u64) -> bool {
    exists|i: int| 0 <= i < v.len() && (#[trigger] v[i]).0 == x
}

/// Does an answer to a step leave nothing out? It keeps to what was asked and to
/// what is stored, and what is stored in range and not in it lies behind a full
/// answer.
pub open spec fn answers_in_full(step: ScanStep, event: ScanEventV, store: StoredRows) -> bool {
    answers(step, event) && match (step, event) {
        (ScanStep::ReadTimeline { lower, upper, limit, backward }, ScanEventV::Rows(v)) => {
            &&& forall|i: int| 0 <= i < v.len() ==> store.timeline.contains((#[trigger] v[i]).0)
            &&& forall|x: u64| #[trigger]
                store.timeline.contains(x) && lower < x && (upper matches Some(u) ==> x <= u)
                    ==> has_pos(v, x) || (v.len() >= limit && forall|i: int|
                    0 <= i < v.len() ==> (if backward {
                        (#[trigger] v[i]).0 > x
                    } else {
                        v[i].0 < x
                    }))
        },
        (ScanStep::ReadHistory { after, until, limit, newest_last }, ScanEventV::Rows(v)) => {
            &&& forall|i: int| 0 <= i < v.len() ==> store.history.contains((#[trigger] v[i]).0)
            &&& forall|x: u64| #[trigger]
                store.history.contains(x) && after < x && (until matches Some(u) ==> x <= u)
                    ==> has_pos(v, x) || (v.len() >= limit && forall|i: int|
                    0 <= i < v.len() ==> (if newest_last {
                        (#[trigger] v[i]).0 > x
                    } else {
                        v[i].0 < x
                    }))
        },
        _ => true,
    }
}

/// Does a position belong to a forward page? It is newer than where the page
/// starts, not newer than where it is to end, and not past what the caller may
/// read. Backfilled history belongs to a page that starts in it.
pub open spec fn lies_ahead(pos: RowPos, q: PageQuery, cap: Option<u64>) -> bool {
    match pos {
        RowPos::Timeline(x) => {
            &&& x > 0
            &&& q.from matches Some(PagePos::Timeline(b)) ==> x > b.seq
            &&& cap matches Some(c) ==> x <= c
            &&& match q.to {
                Some(PagePos::Timeline(b)) => if b.at_event {
                    x < b.seq
                } else {
                    x <= b.seq
                },
                Some(PagePos::History(_)) => false,
                None => true,
            }
        },
        RowPos::History(x) => {
            &&& x > 0
            &&& q.from matches Some(PagePos::History(f)) && x < f
            &&& q.to matches Some(PagePos::History(t)) ==> x > t
        },
    }
}

/// Does a position belong to a backward page? It is older than where the page
/// starts, not older than where it is to end, and not past what the caller may
/// read. History lies behind the whole timeline.
pub open spec fn lies_behind(pos: RowPos, q: PageQuery, cap: Option<u64>) -> bool {
    match pos {
        RowPos::Timeline(x) => {
            &&& x > 0
            &&& match q.from {
                Some(PagePos::Timeline(b)) => if b.at_event {
                    x < b.seq
                } else {
                    x <= b.seq
                },
                Some(PagePos::History(_)) => false,
                None => true,
            }
            &&& cap matches Some(c) ==> x <= c
            &&& q.to matches Some(PagePos::Timeline(b)) ==> x > b.seq
        },
        RowPos::History(x) => {
            &&& x > 0
            &&& q.from matches Some(PagePos::History(f)) ==> x > f
            &&& match q.to {
                Some(PagePos::Timeline(b)) => b.seq == 0,
                Some(PagePos::History(t)) => x < t,
                None => true,
            }
        },
    }
}

/// A forward page in the making holds rows of the room that lie ahead, oldest
/// first; and of those that lie ahead and are behind it, none is missing.
pub open spec fn forward_page_holds(s: PageScanV, store: StoredRows) -> bool {
    &&& !s.query.backward
    &&& s.rows.len() <= s.query.limit
    &&& forall|i: int, j: int|
        #![trigger s.rows[i], s.rows[j]]
        0 <= i < j < s.rows.len() ==> older(s.rows[i].pos, s.rows[j].pos)
    &&& forall|i: int|
        0 <= i < s.rows.len() ==> lies_ahead((#[trigger] s.rows[i]).pos, s.query, s.cap)
            && is_stored(s.rows[i].pos, store)
    &&& match s.phase {
        ScanPhase::ForwardHistory => s.rows.len() == 0 && s.query.from matches Some(
            PagePos::History(_),
        ),
        ScanPhase::ForwardTimeline => {
            &&& !(s.query.to matches Some(PagePos::History(_)))
            &&& forall|i: int| 0 <= i < s.rows.len() ==> (#[trigger] s.rows[i]).pos is History
            &&& forall|x: u64| #[trigger]
                store.history.contains(x) && lies_ahead(RowPos::History(x), s.query, s.cap)
                    ==> has_row(s.rows, RowPos::History(x))
        },
        ScanPhase::Done => {
            &&& forall|x: u64| #[trigger]
                store.timeline.contains(x) && lies_ahead(RowPos::Timeline(x), s.query, s.cap)
                    ==> has_row(s.rows, RowPos::Timeline(x)) || (s.rows.len() == s.query.limit
                    && forall|i: int|
                    0 <= i < s.rows.len() ==> older(
                        (#[trigger] s.rows[i]).pos,
                        RowPos::Timeline(x),
                    ))
            &&& forall|x: u64| #[trigger]
                store.history.contains(x) && lies_ahead(RowPos::History(x), s.query, s.cap)
                    ==> has_row(s.rows, RowPos::History(x)) || (s.rows.len() == s.query.limit
                    && forall|i: int|
                    0 <= i < s.rows.len() ==> older(
                        (#[trigger] s.rows[i]).pos,
                        RowPos::History(x),
                    ))
        },
        _ => false,
    }
}

/// A forward page shows what follows its start, and all of it up to its size: it
/// begins that way, and every full answer to what it asks for keeps it that way.
pub proof fn law_forward_page_holds_what_follows(
    query: PageQuery,
    cap: Option<u64>,
    s: PageScanV,
    event: ScanEventV,
    store: StoredRows,
)
    ensures
        !query.backward ==> forward_page_holds(scan_start(query, cap), store),
        forward_page_holds(s, store) && answers_in_full(scan_step(s), event, store)
            ==> forward_page_holds(scan_next(s, event), store),
{
    if forward_page_holds(s, store) && answers_in_full(scan_step(s), event, store) {
        let n = scan_next(s, event);
        match (s.phase, event) {
            (ScanPhase::ForwardHistory, ScanEventV::Rows(v)) => {
                assert(n.rows =~= history_rows(v));
                assert forall|i: int| 0 <= i < n.rows.len() implies lies_ahead(
                    (#[trigger] n.rows[i]).pos,
                    n.query,
                    n.cap,
                ) && is_stored(n.rows[i].pos, store) by {
                    assert(store.history.contains(v[i].0));
                }
                assert forall|i: int, j: int|
                    #![trigger n.rows[i], n.rows[j]]
                    0 <= i < j < n.rows.len() implies older(n.rows[i].pos, n.rows[j].pos) by {
                    assert(v[i].0 > v[j].0);
                }
                assert forall|x: u64| #[trigger]
                    store.history.contains(x) && lies_ahead(
                        RowPos::History(x),
                        n.query,
                        n.cap,
                    ) implies has_row(n.rows, RowPos::History(x)) || (n.rows.len() == n.query.limit
                    && forall|i: int|
                    0 <= i < n.rows.len() ==> older(
                        (#[trigger] n.rows[i]).pos,
                        RowPos::History(x),
                    )) by {
                    if has_pos(v, x) {
                        let k = choose|k: int| 0 <= k < v.len() && (#[trigger] v[k]).0 == x;
                        assert(n.rows[k].pos == RowPos::History(x));
                    } else {
                        assert forall|i: int| 0 <= i < n.rows.len() implies older(
                            (#[trigger] n.rows[i]).pos,
                            RowPos::History(x),
                        ) by {
                            assert(v[i].0 > x);
                        }
                    }
                }
                assert forall|x: u64| #[trigger]
                    store.timeline.contains(x) && lies_ahead(
                        RowPos::Timeline(x),
                        n.query,
                        n.cap,
                    ) && n.phase == ScanPhase::Done implies n.rows.len() == n.query.limit
                    && forall|i: int|
                    0 <= i < n.rows.len() ==> older(
                        (#[trigger] n.rows[i]).pos,
                        RowPos::Timeline(x),
                    ) by {}
            },
            (ScanPhase::ForwardTimeline, ScanEventV::Rows(v)) => {
                let more = timeline_rows(v);
                assert forall|i: int| 0 <= i < n.rows.len() implies lies_ahead(
                    (#[trigger] n.rows[i]).pos,
                    n.query,
                    n.cap,
                ) && is_stored(n.rows[i].pos, store) by {
                    if i < s.rows.len() {
                        assert(n.rows[i] == s.rows[i]);
                    } else {
                        let k = i - s.rows.len();
                        assert(n.rows[i] == more[k]);
                        assert(store.timeline.contains(v[k].0));
                    }
                }
                assert forall|i: int, j: int|
                    #![trigger n.rows[i], n.rows[j]]
                    0 <= i < j < n.rows.len() implies older(n.rows[i].pos, n.rows[j].pos) by {
                    if j < s.rows.len() {
                        assert(n.rows[i] == s.rows[i] && n.rows[j] == s.rows[j]);
                    } else {
                        let kj = j - s.rows.len();
                        assert(n.rows[j] == more[kj]);
                        if i < s.rows.len() {
                            assert(n.rows[i] == s.rows[i]);
                        } else {
                            let ki = i - s.rows.len();
                            assert(n.rows[i] == more[ki]);
                            assert(v[ki].0 < v[kj].0);
                        }
                    }
                }
                assert forall|x: u64| #[trigger]
                    store.history.contains(x) && lies_ahead(
                        RowPos::History(x),
                        n.query,
                        n.cap,
                    ) implies has_row(n.rows, RowPos::History(x)) by {
                    let k = choose|k: int|
                        0 <= k < s.rows.len() && (#[trigger] s.rows[k]).pos == RowPos::History(x);
                    assert(n.rows[k] == s.rows[k]);
                }
                assert forall|x: u64| #[trigger]
                    store.timeline.contains(x) && lies_ahead(
                        RowPos::Timeline(x),
                        n.query,
                        n.cap,
                    ) implies has_row(n.rows, RowPos::Timeline(x)) || (n.rows.len()
                    == n.query.limit && forall|i: int|
                    0 <= i < n.rows.len() ==> older(
                        (#[trigger] n.rows[i]).pos,
                        RowPos::Timeline(x),
                    )) by {
                    if has_pos(v, x) {
                        let k = choose|k: int| 0 <= k < v.len() && (#[trigger] v[k]).0 == x;
                        assert(n.rows[s.rows.len() + k] == more[k]);
                    } else {
                        assert forall|i: int| 0 <= i < n.rows.len() implies older(
                            (#[trigger] n.rows[i]).pos,
                            RowPos::Timeline(x),
                        ) by {
                            if i < s.rows.len() {
                                assert(n.rows[i] == s.rows[i]);
                            } else {
                                let k = i - s.rows.len();
                                assert(n.rows[i] == more[k]);
                                assert(v[k].0 < x);
                            }
                        }
                    }
                }
            },
            _ => {},
        }
    }
}

/// Forward pages join up without overlap: a page that starts at the end token of
/// another holds only rows that are newer than every row of that page.
pub proof fn law_next_forward_page_is_newer(
    before: PageScanV,
    chunk_len: nat,
    s: PageScanV,
    store: StoredRows,
    i: int,
    j: int,
)
    requires
        forward_page_holds(before, store),
        forward_page_holds(s, store),
        end_token(before, chunk_len) matches Some(t) && read_page(t) matches Ok(p) && s.query.from
            == Some(p),
        0 <= i < before.rows.len(),
        0 <= j < s.rows.len(),
    ensures
        older(before.rows[i].pos, s.rows[j].pos),
{
    let last = before.rows.last().pos;
    match last {
        RowPos::Timeline(x) => {
            law_page_tokens_read_back(x, None, 0);
        },
        RowPos::History(x) => {
            law_page_tokens_read_back(0, None, x);
        },
    }
    assert(lies_ahead(s.rows[j].pos, s.query, s.cap));
    assert(older(last, s.rows[j].pos));
    if i < before.rows.len() - 1 {
        assert(older(before.rows[i].pos, before.rows[before.rows.len() - 1].pos));
    }
}

/// A backward page in the making holds rows of the room that lie behind its start,
/// newest first; past the timeline, no stored position of it that lies behind is
/// missing.
pub open spec fn back_page_holds(s: PageScanV, store: StoredRows) -> bool {
    &&& back_page_ok(s)
    &&& forall|i: int|
        0 <= i < s.rows.len() ==> lies_behind((#[trigger] s.rows[i]).pos, s.query, s.cap)
            && is_stored(s.rows[i].pos, store)
    &&& s.phase == ScanPhase::BackTimeline || forall|x: u64| #[trigger]
        store.timeline.contains(x) && lies_behind(RowPos::Timeline(x), s.query, s.cap)
            ==> has_row(s.rows, RowPos::Timeline(x)) || (s.rows.len() == s.query.limit && forall|
            i: int,
        |
            0 <= i < s.rows.len() ==> older(RowPos::Timeline(x), (#[trigger] s.rows[i]).pos))
    &&& s.phase == ScanPhase::Readable || s.phase == ScanPhase::BackHistory || s.phase
        == ScanPhase::Frontier || s.phase == ScanPhase::Fetch ==> s.rows.len() < s.query.limit
        && !(s.query.to matches Some(PagePos::Timeline(b)) && b.seq != 0)
    &&& s.phase == ScanPhase::BackHistory ==> forall|x: u64| #[trigger]
        store.history.contains(x) && x <= s.cursor && lies_behind(
            RowPos::History(x),
            s.query,
            s.cap,
        ) ==> has_row(s.rows, RowPos::History(x))
    &&& s.phase == ScanPhase::Frontier || s.phase == ScanPhase::Fetch ==> history_is_held(s, store)
    &&& s.phase == ScanPhase::BackTimeline || s.phase == ScanPhase::Readable ==> s.cursor == (
    match s.query.from {
        Some(PagePos::History(f)) => f,
        _ => 0,
    })
    &&& s.phase == ScanPhase::Readable ==> forall|i: int|
        0 <= i < s.rows.len() ==> (#[trigger] s.rows[i]).pos is Timeline
}

/// Is no stored history that lies behind a page's start missing from it?
pub open spec fn history_is_held(s: PageScanV, store: StoredRows) -> bool {
    forall|x: u64| #[trigger]
        store.history.contains(x) && lies_behind(RowPos::History(x), s.query, s.cap) ==> has_row(
            s.rows,
            RowPos::History(x),
        ) || (s.rows.len() == s.query.limit && forall|i: int|
            0 <= i < s.rows.len() ==> older(RowPos::History(x), (#[trigger] s.rows[i]).pos))
}

/// A backward page shows what is behind its start, and all of it up to its size:
/// it begins that way, and every full answer to what it asks for keeps it that way.
/// Once history was read, none of it is missing either.
pub proof fn law_back_page_holds_what_precedes(
    query: PageQuery,
    cap: Option<u64>,
    s: PageScanV,
    event: ScanEventV,
    store: StoredRows,
)
    ensures
        query.backward ==> back_page_holds(scan_start(query, cap), store),
        back_page_holds(s, store) && answers_in_full(scan_step(s), event, store) && s.phase
            != ScanPhase::Fetch ==> back_page_holds(scan_next(s, event), store),
        back_page_holds(s, store) && answers_in_full(scan_step(s), event, store) && s.phase
            == ScanPhase::BackHistory && event is Rows ==> history_is_held(
            scan_next(s, event),
            store,
        ),
{
    if query.backward {
        law_back_page_starts(query, cap);
    }
    if back_page_holds(s, store) && answers_in_full(scan_step(s), event, store) && s.phase
        != ScanPhase::Fetch {
        law_back_page_stays_in_order(s, event);
        let n = scan_next(s, event);
        match (s.phase, event) {
            (ScanPhase::BackTimeline, ScanEventV::Rows(v)) => {
                assert(n.rows =~= timeline_rows(v));
                assert forall|i: int| 0 <= i < n.rows.len() implies lies_behind(
                    (#[trigger] n.rows[i]).pos,
                    n.query,
                    n.cap,
                ) && is_stored(n.rows[i].pos, store) by {
                    assert(store.timeline.contains(v[i].0));
                }
                assert forall|x: u64| #[trigger]
                    store.timeline.contains(x) && lies_behind(
                        RowPos::Timeline(x),
                        n.query,
                        n.cap,
                    ) implies has_row(n.rows, RowPos::Timeline(x)) || (n.rows.len()
                    == n.query.limit && forall|i: int|
                    0 <= i < n.rows.len() ==> older(
                        RowPos::Timeline(x),
                        (#[trigger] n.rows[i]).pos,
                    )) by {
                    if has_pos(v, x) {
                        let k = choose|k: int| 0 <= k < v.len() && (#[trigger] v[k]).0 == x;
                        assert(n.rows[k].pos == RowPos::Timeline(x));
                    } else {
                        assert forall|i: int| 0 <= i < n.rows.len() implies older(
                            RowPos::Timeline(x),
                            (#[trigger] n.rows[i]).pos,
                        ) by {
                            assert(v[i].0 > x);
                        }
                    }
                }
            },
            (ScanPhase::BackHistory, ScanEventV::Rows(v)) => {
                lemma_history_step(s, v, store);
            },
            _ => {},
        }
    }
}

proof fn lemma_history_step(s: PageScanV, v: Seq<(u64, Seq<char>)>, store: StoredRows)
    requires
        back_page_holds(s, store),
        s.phase == ScanPhase::BackHistory,
        answers_in_full(scan_step(s), ScanEventV::Rows(v), store),
        back_page_ok(scan_next(s, ScanEventV::Rows(v))),
    ensures
        back_page_holds(scan_next(s, ScanEventV::Rows(v)), store),
        history_is_held(scan_next(s, ScanEventV::Rows(v)), store),
{
    let n = scan_next(s, ScanEventV::Rows(v));
    let more = history_rows(v);
    assert forall|i: int| 0 <= i < n.rows.len() implies lies_behind(
        (#[trigger] n.rows[i]).pos,
        n.query,
        n.cap,
    ) && is_stored(n.rows[i].pos, store) by {
        if i < s.rows.len() {
            assert(n.rows[i] == s.rows[i]);
        } else {
            let k = i - s.rows.len();
            assert(n.rows[i] == more[k]);
            assert(store.history.contains(v[k].0));
            assert(v[k].0 > s.cursor);
        }
    }
    assert forall|x: u64| #[trigger]
        store.timeline.contains(x) && lies_behind(RowPos::Timeline(x), n.query, n.cap) implies
        has_row(n.rows, RowPos::Timeline(x)) by {
        let k = choose|k: int|
            0 <= k < s.rows.len() && (#[trigger] s.rows[k]).pos == RowPos::Timeline(x);
        assert(n.rows[k] == s.rows[k]);
    }
    assert forall|x: u64| #[trigger]
        store.history.contains(x) && lies_behind(RowPos::History(x), n.query, n.cap) implies
        has_row(n.rows, RowPos::History(x)) || (n.rows.len() == n.query.limit && forall|i: int|
        0 <= i < n.rows.len() ==> older(RowPos::History(x), (#[trigger] n.rows[i]).pos)) by {
        if x <= s.cursor {
            let k = choose|k: int|
                0 <= k < s.rows.len() && (#[trigger] s.rows[k]).pos == RowPos::History(x);
            assert(n.rows[k] == s.rows[k]);
        } else if has_pos(v, x) {
            let k = choose|k: int| 0 <= k < v.len() && (#[trigger] v[k]).0 == x;
            assert(n.rows[s.rows.len() + k] == more[k]);
        } else {
            assert forall|i: int| 0 <= i < n.rows.len() implies older(
                RowPos::History(x),
                (#[trigger] n.rows[i]).pos,
            ) by {
                if i < s.rows.len() {
                    assert(n.rows[i] == s.rows[i]);
                } else {
                    let k = i - s.rows.len();
                    assert(n.rows[i] == more[k]);
                    assert(v[k].0 < x);
                }
            }
        }
    }
}

/// A page's rows are what was read for it, in the order in which it was read: each
/// with its position and its event, behind the rows that were there.
pub proof fn law_rows_are_what_was_read(s: PageScanV, v: Seq<(u64, Seq<char>)>)
    ensures
        ({
            let n = scan_next(s, ScanEventV::Rows(v));
            match scan_step(s) {
                ScanStep::ReadTimeline { .. } => {
                    &&& n.rows.len() == s.rows.len() + v.len()
                    &&& forall|i: int|
                        0 <= i < s.rows.len() ==> #[trigger] n.rows[i] == s.rows[i]
                    &&& forall|i: int|
                        0 <= i < v.len() ==> n.rows[s.rows.len() + i].pos == RowPos::Timeline(
                            (#[trigger] v[i]).0,
                        ) && n.rows[s.rows.len() + i].event_id == v[i].1
                },
                ScanStep::ReadHistory { .. } => {
                    &&& n.rows.len() == s.rows.len() + v.len()
                    &&& forall|i: int|
                        0 <= i < s.rows.len() ==> #[trigger] n.rows[i] == s.rows[i]
                    &&& forall|i: int|
                        0 <= i < v.len() ==> n.rows[s.rows.len() + i].pos == RowPos::History(
                            (#[trigger] v[i]).0,
                        ) && n.rows[s.rows.len() + i].event_id == v[i].1
                },
                _ => n.rows == s.rows,
            }
        }),
{
}

/// A page is collected to the end: it asks for more history only where history may
/// be shown, goes on while a fetch brings events, and gives up with history left
/// over only when a fetch brings none or as many as fit were made.
pub proof fn law_history_is_fetched_while_it_comes(s: PageScanV, n: u64, readable: bool,
    empty: bool)
    ensures
        scan_step(s) is AskReadable ==> {
            let next = scan_next(s, ScanEventV::Readable(readable));
            &&& readable ==> scan_step(next) is ReadHistory
            &&& !readable ==> scan_step(next) is Done && next.more_history == s.more_history
        },
        scan_step(s) is AskFrontier ==> {
            let next = scan_next(s, ScanEventV::FrontierEmpty(empty));
            &&& empty ==> scan_step(next) is Done && next.more_history == s.more_history
            &&& !empty && s.fetches < s.query.limit as int / 100 + 2 ==> scan_step(next)
                is FetchHistory && next.fetches == s.fetches + 1
            &&& !empty && s.fetches >= s.query.limit as int / 100 + 2 ==> scan_step(next) is Done
                && next.more_history
        },
        scan_step(s) is FetchHistory ==> {
            let next = scan_next(s, ScanEventV::Fetched(n));
            &&& n > 0 ==> scan_step(next) is ReadHistory && next.more_history == s.more_history
            &&& n == 0 ==> scan_step(next) is Done && next.more_history
        },
{
}

/// A page is no larger than was asked for, and asked for in full: what a step asks
/// for is what is missing.
pub proof fn law_steps_ask_for_what_is_missing(s: PageScanV)
    requires
        s.rows.len() <= s.query.limit,
        back_page_ok(s) || forward_page_ok(s),
    ensures
        match scan_step(s) {
            ScanStep::ReadTimeline { limit, backward, .. } => limit == s.query.limit - s.rows.len()
                && backward == s.query.backward,
            ScanStep::ReadHistory { limit, newest_last, .. } => limit == s.query.limit
                - s.rows.len() && newest_last == !s.query.backward,
            _ => true,
        },
{
}

// -- /context -----------------------------------------------------------------

/// What is stored of an event whose context is asked for.
#[derive(Clone, Copy, Debug, PartialEq, Eq, Structural)]
pub struct TargetFacts {
    /// The timeline position; 0 for an event of backfilled history.
    pub seq: u64,
    pub history_idx: Option<u64>,
}

/// Where the context of an event is collected.
#[derive(Clone, Copy, Debug, PartialEq, Eq, Structural)]
pub enum ContextPlace {
    Timeline { seq: u64 },
    History { idx: u64 },
}

pub open spec fn event_not_found() -> ApiErrorV {
    not_found("Event not found"@)
}

/// Does an event belong to a room?
pub open spec fn in_room(ev: Option<JsonV>, room_id: Seq<char>) -> bool {
    ev matches Some(e) && as_text(field(e, "room_id"@)) == Some(room_id)
}

/// Where the context of an event is, for a reader who may see it. What the
/// reader may not see is not told apart from what does not exist.
pub open spec fn context_place(
    target: Option<TargetFacts>,
    event: Option<JsonV>,
    room_id: Seq<char>,
    history_readable: bool,
    can_see: bool,
) -> Result<ContextPlace, ApiErrorV> {
    match target {
        Some(t) => if !in_room(event, room_id) {
            Err(event_not_found())
        } else if t.seq == 0 {
            match t.history_idx {
                Some(idx) => if history_readable {
                    Ok(ContextPlace::History { idx })
                } else {
                    Err(event_not_found())
                },
                None => Err(event_not_found()),
            }
        } else if can_see {
            Ok(ContextPlace::Timeline { seq: t.seq })
        } else {
            Err(event_not_found())
        },
        None => Err(event_not_found()),
    }
}

fn belongs_to(ev: &Option<Json>, room_id: &str) -> (r: bool)
    ensures
        r == in_room(opt_json(*ev), room_id@),
{
    match ev {
        Some(e) => match e.get_str("room_id") {
            Some(id) => same_text(id, room_id),
            None => false,
        },
        None => false,
    }
}

/// `GET /rooms/{roomId}/context/{eventId}`: may the reader see the target, and
/// where is it? A backfilled target has no state for a per-event check, so it
/// is gated on the room's current history visibility.
pub fn get_context(
    target: Option<TargetFacts>,
    event: &Option<Json>,
    room_id: &str,
    history_readable: bool,
    can_see: bool,
) -> (r: Result<ContextPlace, ApiError>)
    ensures
        outcome(r) == context_place(target, opt_json(*event), room_id@, history_readable, can_see),
{
    let t = match target {
        Some(t) => t,
        None => {
            return Err(ApiError::not_found("Event not found"));
        },
    };
    if !belongs_to(event, room_id) {
        return Err(ApiError::not_found("Event not found"));
    }
    if t.seq == 0 {
        return match t.history_idx {
            Some(idx) => if history_readable {
                Ok(ContextPlace::History { idx })
            } else {
                Err(ApiError::not_found("Event not found"))
            },
            None => Err(ApiError::not_found("Event not found")),
        };
    }
    if can_see {
        Ok(ContextPlace::Timeline { seq: t.seq })
    } else {
        Err(ApiError::not_found("Event not found"))
    }
}

/// How many events to show before and after a target: at most 100 together,
/// as evenly as can be, the odd one before.
pub fn context_limits(limit: u64) -> (r: (usize, usize))
    ensures
        r.0 + r.1 == (if limit <= 100 {
            limit as int
        } else {
            100
        }),
        r.0 == r.1 || r.0 == r.1 + 1,
{
    let total: usize = if limit <= 100 {
        limit as usize
    } else {
        100
    };
    let before: usize = total / 2 + total % 2;
    (before, total - before)
}

/// The position of the last row that is shown.
pub open spec fn last_shown(default: u64, rows: Seq<(u64, bool)>) -> u64
    decreases rows.len(),
{
    if rows.len() == 0 {
        default
    } else if rows.last().1 {
        rows.last().0
    } else {
        last_shown(default, rows.drop_last())
    }
}

/// The position of the last row that is shown, of rows and whether each can be
/// shown.
pub fn last_position(default: u64, rows: &Vec<(u64, bool)>) -> (r: u64)
    ensures
        r == last_shown(default, rows@),
{
    let mut i: usize = rows.len();
    proof {
        assert(rows@.take(i as int) =~= rows@);
    }
    while i > 0
        invariant
            i <= rows.len(),
            last_shown(default, rows@) == last_shown(default, rows@.take(i as int)),
        decreases i,
    {
        i -= 1;
        proof {
            assert(rows@.take(i + 1).drop_last() =~= rows@.take(i as int));
            assert(rows@.take(i + 1).last() == rows@[i as int]);
        }
        if rows[i].1 {
            return rows[i].0;
        }
    }
    proof {
        assert(rows@.take(0) =~= Seq::empty());
    }
    default
}

pub open spec fn step_back(n: u64) -> nat {
    if n > 0 {
        (n - 1) as nat
    } else {
        0
    }
}

/// The tokens round a context on the timeline, from its oldest and newest
/// shown positions.
pub fn timeline_context_tokens(oldest: u64, newest: u64) -> (r: (String, String))
    ensures
        r.0@ == topo_token(step_back(oldest), None),
        r.1@ == topo_token(newest as nat, None),
{
    (format_topo_token(oldest.saturating_sub(1), None), format_topo_token(newest, None))
}

/// The tokens round a context in history. Paginating backwards from `h{x}`
/// yields strictly older rows, so `start` names the oldest row shown and `end`
/// sits one step newer than the newest history row shown — unless the context
/// reached the timeline, where native tokens take over.
pub fn context_in_history(oldest: u64, newest_hist: u64, newest_seq: Option<u64>) -> (r: (
    String,
    String,
))
    ensures
        r.0@ == history_token(oldest as nat),
        r.1@ == (match newest_seq {
            Some(seq) => topo_token(seq as nat, None),
            None => history_token(step_back(newest_hist)),
        }),
{
    let end = match newest_seq {
        Some(seq) => format_topo_token(seq, None),
        None => format_history_token(newest_hist.saturating_sub(1)),
    };
    (format_history_token(oldest), end)
}

/// A `/context` response.
pub fn context_response(
    start: String,
    end: String,
    events_before: Vec<Json>,
    event: Json,
    events_after: Vec<Json>,
    state: Vec<Json>,
) -> (r: Json)
    ensures
        r@ == JsonV::Object(
            no_fields().insert("start"@, JsonV::Str(start@)).insert("end"@, JsonV::Str(end@)).insert(
                "events_before"@,
                JsonV::Array(items_view(events_before@)),
            ).insert("event"@, event@).insert(
                "events_after"@,
                JsonV::Array(items_view(events_after@)),
            ).insert("state"@, JsonV::Array(items_view(state@))),
        ),
{
    let mut m: Vec<(String, Json)> = Vec::new();
    put_str(&mut m, "start", Json::Str(start));
    put_str(&mut m, "end", Json::Str(end));
    put_str(&mut m, "events_before", Json::Array(events_before));
    put_str(&mut m, "event", event);
    put_str(&mut m, "events_after", Json::Array(events_after));
    put_str(&mut m, "state", Json::Array(state));
    Json::Object(m)
}

// -- single events, state and members -----------------------------------------

/// `GET /rooms/{roomId}/event/{eventId}`: a hidden event, and one of another
/// room, is answered as one that does not exist.
pub fn get_room_event(can_see: bool, event: &Option<Json>, room_id: &str) -> (r: Result<
    (),
    ApiError,
>)
    ensures
        can_see && in_room(opt_json(*event), room_id@) ==> r is Ok,
        !(can_see && in_room(opt_json(*event), room_id@)) ==> (r matches Err(e) && e@
            == event_not_found()),
{
    if can_see && belongs_to(event, room_id) {
        Ok(())
    } else {
        Err(ApiError::not_found("Event not found"))
    }
}

/// What `GET /rooms/{roomId}/state/{type}/{key}` answers with: the content of
/// the state event, an empty object if it has none.
pub open spec fn state_answer(
    state: Seq<StateEvent>,
    event_type: Seq<char>,
    state_key: Seq<char>,
) -> Result<JsonV, ApiErrorV> {
    match state_entry(state, event_type, state_key) {
        Some(e) => match e.event {
            Some(j) => if e.rejected {
                Err(not_found("State event missing"@))
            } else {
                match field(j@, "content"@) {
                    Some(c) => Ok(c),
                    None => Ok(JsonV::Object(no_fields())),
                }
            },
            None => Err(not_found("State event missing"@)),
        },
        None => Err(not_found("No state with this type/key"@)),
    }
}

/// The content of a state event.
pub fn get_state_event(state: &Vec<StateEvent>, event_type: &str, state_key: &str) -> (r: Result<
    Json,
    ApiError,
>)
    ensures
        match state_answer(state@, event_type@, state_key@) {
            Ok(c) => r matches Ok(j) && j@ == c,
            Err(e) => r matches Err(x) && x@ == e,
        },
{
    match find_state(state, event_type, state_key) {
        Some(e) => match &e.event {
            Some(j) => if e.rejected {
                Err(ApiError::not_found("State event missing"))
            } else {
                match j.get("content") {
                    Some(c) => Ok(c.copy()),
                    None => Ok(Json::Object(Vec::new())),
                }
            },
            None => Err(ApiError::not_found("State event missing")),
        },
        None => Err(ApiError::not_found("No state with this type/key")),
    }
}

/// The membership that a member event announces.
pub open spec fn announced_membership(ev: JsonV) -> Seq<char> {
    match as_text(field2(ev, "content"@, "membership"@)) {
        Some(m) => m,
        None => "leave"@,
    }
}

/// Does a member event pass the filters of `/members`?
pub open spec fn member_passes(
    ev: JsonV,
    membership: Option<Seq<char>>,
    not_membership: Option<Seq<char>>,
) -> bool {
    &&& membership matches Some(want) ==> announced_membership(ev) == want
    &&& not_membership matches Some(not) ==> announced_membership(ev) != not
}

/// `GET /rooms/{roomId}/members`: does a member event pass the filters?
pub fn get_members(ev: &Json, membership: &Option<String>, not_membership: &Option<String>) -> (r:
    bool)
    ensures
        r == member_passes(ev@, opt_text(*membership), opt_text(*not_membership)),
{
    let m = match ev.get2("content", "membership") {
        Some(j) => match j.as_str() {
            Some(s) => s.to_owned(),
            None => "leave".to_owned(),
        },
        None => "leave".to_owned(),
    };
    let wanted = match membership {
        Some(w) => same_text(m.as_str(), w.as_str()),
        None => true,
    };
    let excluded = match not_membership {
        Some(n) => same_text(m.as_str(), n.as_str()),
        None => false,
    };
    wanted && !excluded
}

/// The position at which `/members?at=` shows the room: that of the token, but
/// nothing past the caller's own ceiling.
pub fn members_at(token: &str, cap: Option<u64>) -> (r: Result<u64, ApiError>)
    ensures
        outcome(r) == (match read_topo(token@) {
            Ok(b) => {
                let at = match b.stream {
                    Some(s) => s,
                    None => b.upper_spec() as u64,
                };
                Ok::<u64, ApiErrorV>(min_u64(at, ceiling_of(cap)))
            },
            Err(e) => Err(e),
        }),
{
    match parse_topo_token(token) {
        Ok(b) => {
            let at = b.at_seq();
            Ok(
                match cap {
                    Some(c) => least(at, c),
                    None => at,
                },
            )
        },
        Err(e) => Err(e),
    }
}

pub open spec fn or_null(j: Option<JsonV>) -> JsonV {
    match j {
        Some(v) => v,
        None => JsonV::Null,
    }
}

/// How a joined member is listed: the keys are always there, null when unset.
pub open spec fn member_card(content: JsonV) -> JsonV {
    JsonV::Object(
        no_fields().insert("display_name"@, or_null(field(content, "displayname"@))).insert(
            "avatar_url"@,
            or_null(field(content, "avatar_url"@)),
        ),
    )
}

/// The joined members that a state lists.
pub open spec fn joined_cards(state: Seq<StateEvent>) -> Map<Seq<char>, JsonV>
    decreases state.len(),
{
    if state.len() == 0 {
        no_fields()
    } else {
        let init = joined_cards(state.drop_last());
        let e = state.last();
        if e.event_type@ == "m.room.member"@ && !e.rejected && is_user_id(e.state_key@) && (
        e.event matches Some(j) && as_text(field2(j@, "content"@, "membership"@)) == Some(
            "join"@,
        )) {
            init.insert(e.state_key@, member_card(field(e.event->0@, "content"@)->0))
        } else {
            init
        }
    }
}

fn copy_or_null(j: Option<&Json>) -> (r: Json)
    ensures
        r@ == or_null(
            match j {
                Some(x) => Some(x@),
                None => None,
            },
        ),
{
    match j {
        Some(x) => x.copy(),
        None => Json::Null,
    }
}

fn joined_content(e: &StateEvent) -> (r: Option<&Json>)
    ensures
        r is Some <==> (e.event_type@ == "m.room.member"@ && !e.rejected && is_user_id(
            e.state_key@,
        ) && (e.event matches Some(j) && as_text(field2(j@, "content"@, "membership"@)) == Some(
            "join"@,
        ))),
        r matches Some(c) ==> field(e.event->0@, "content"@) == Some(c@),
{
    if !same_text(e.event_type.as_str(), "m.room.member") || e.rejected {
        return None;
    }
    match &e.event {
        Some(j) => match j.get("content") {
            Some(c) => {
                let joined = match c.get_str("membership") {
                    Some(m) => same_text(m, "join"),
                    None => false,
                };
                if joined && check_user_id(e.state_key.as_str()).is_ok() {
                    Some(c)
                } else {
                    None
                }
            },
            None => None,
        },
        None => None,
    }
}

/// `GET /rooms/{roomId}/joined_members`: the members with their profiles.
pub fn get_joined_members(state: &Vec<StateEvent>) -> (r: Json)
    ensures
        r@ == one_field("joined"@, JsonV::Object(joined_cards(state@))),
{
    let mut joined: Vec<(String, Json)> = Vec::new();
    let mut i: usize = 0;
    while i < state.len()
        invariant
            i <= state.len(),
            fields_view(joined@) == joined_cards(state@.take(i as int)),
        decreases state.len() - i,
    {
        proof {
            assert(state@.take(i + 1).drop_last() =~= state@.take(i as int));
            assert(state@.take(i + 1).last() == state@[i as int]);
        }
        match joined_content(&state[i]) {
            Some(c) => {
                let mut card: Vec<(String, Json)> = Vec::new();
                put_str(&mut card, "display_name", copy_or_null(c.get("displayname")));
                put_str(&mut card, "avatar_url", copy_or_null(c.get("avatar_url")));
                put_str(&mut joined, state[i].state_key.as_str(), Json::Object(card));
            },
            None => {},
        }
        i += 1;
    }
    proof {
        assert(state@.take(state@.len() as int) =~= state@);
    }
    object_of("joined", Json::Object(joined))
}

// -- timestamp_to_event -------------------------------------------------------

/// A timeline event and its time, where it has a readable one.
#[derive(Debug)]
pub struct Dated {
    pub seq: u64,
    pub event_id: String,
    pub ts: Option<u64>,
}

/// Does a time lie in the direction that was asked for?
pub open spec fn on_side(ts: u64, at: u64, backward: bool) -> bool {
    if backward {
        ts <= at
    } else {
        ts >= at
    }
}

/// Is `(ts, seq)` a better answer than `(best_ts, best_seq)`? Ties resolve to
/// the earliest event forwards and the latest backwards.
pub open spec fn closer(ts: u64, seq: u64, best_ts: u64, best_seq: u64, backward: bool) -> bool {
    if backward {
        ts > best_ts || (ts == best_ts && seq > best_seq)
    } else {
        ts < best_ts || (ts == best_ts && seq < best_seq)
    }
}

/// The index `i` is the closest event to `at`: on the right side, and no other
/// on that side is closer.
pub open spec fn is_closest(events: Seq<Dated>, at: u64, backward: bool, i: int) -> bool {
    &&& 0 <= i < events.len()
    &&& events[i].ts matches Some(t) && on_side(t, at, backward)
    &&& forall|j: int|
        #![trigger events[j]]
        0 <= j < events.len() && (events[j].ts matches Some(u) && on_side(u, at, backward))
            ==> !closer(events[j].ts->0, events[j].seq, events[i].ts->0, events[i].seq, backward)
}

/// Lies no event on the asked side of a time?
pub open spec fn none_on_side(events: Seq<Dated>, at: u64, backward: bool) -> bool {
    forall|j: int|
        #![trigger events[j]]
        0 <= j < events.len() ==> !(events[j].ts matches Some(u) && on_side(u, at, backward))
}

/// The event closest to `at` in a direction: the first at or after it, or the
/// last at or before it. `None` where there is none.
pub fn closest_event(events: &Vec<Dated>, at: u64, backward: bool) -> (r: Option<usize>)
    ensures
        r matches Some(i) ==> is_closest(events@, at, backward, i as int),
        r is None ==> forall|j: int|
            #![trigger events@[j]]
            0 <= j < events@.len() ==> !(events@[j].ts matches Some(u) && on_side(u, at, backward)),
        r is None ==> none_on_side(events@, at, backward),
{
    let mut best: Option<usize> = None;
    let mut i: usize = 0;
    while i < events.len()
        invariant
            i <= events.len(),
            best matches Some(b) ==> b < i && is_closest(
                events@.take(i as int),
                at,
                backward,
                b as int,
            ),
            best is None ==> forall|j: int|
                #![trigger events@[j]]
                0 <= j < i ==> !(events@[j].ts matches Some(u) && on_side(u, at, backward)),
        decreases events.len() - i,
    {
        let ghost before = events@.take(i as int);
        let ghost after = events@.take(i + 1);
        proof {
            assert forall|j: int| 0 <= j < i implies #[trigger] after[j] == before[j] by {}
            assert(after[i as int] == events@[i as int]);
        }
        match events[i].ts {
            Some(t) => {
                let here = if backward {
                    t <= at
                } else {
                    t >= at
                };
                if here {
                    let better = match best {
                        None => true,
                        Some(b) => {
                            let bt = match events[b].ts {
                                Some(bt) => bt,
                                None => 0,
                            };
                            let bs = events[b].seq;
                            let s = events[i].seq;
                            proof {
                                assert(before[b as int] == events@[b as int]);
                            }
                            if backward {
                                t > bt || (t == bt && s > bs)
                            } else {
                                t < bt || (t == bt && s < bs)
                            }
                        },
                    };
                    if better {
                        proof {
                            assert forall|j: int|
                                #![trigger after[j]]
                                0 <= j < after.len() && (after[j].ts matches Some(u) && on_side(
                                    u,
                                    at,
                                    backward,
                                )) implies !closer(
                                after[j].ts->0,
                                after[j].seq,
                                after[i as int].ts->0,
                                after[i as int].seq,
                                backward,
                            ) by {
                                if j < i {
                                    assert(after[j] == before[j]);
                                    assert(before[j] == events@[j]);
                                }
                            }
                        }
                        best = Some(i);
                    } else {
                        proof {
                            let b = best->0;
                            assert(after[b as int] == before[b as int]);
                            assert forall|j: int|
                                #![trigger after[j]]
                                0 <= j < after.len() && (after[j].ts matches Some(u) && on_side(
                                    u,
                                    at,
                                    backward,
                                )) implies !closer(
                                after[j].ts->0,
                                after[j].seq,
                                after[b as int].ts->0,
                                after[b as int].seq,
                                backward,
                            ) by {
                                if j < i {
                                    assert(after[j] == before[j]);
                                }
                            }
                        }
                    }
                } else {
                    proof {
                        lemma_closest_extends(events@, at, backward, i as int, best);
                    }
                }
            },
            None => {
                proof {
                    lemma_closest_extends(events@, at, backward, i as int, best);
                }
            },
        }
        i += 1;
    }
    proof {
        assert(events@.take(events@.len() as int) =~= events@);
    }
    best
}

proof fn lemma_closest_extends(
    events: Seq<Dated>,
    at: u64,
    backward: bool,
    i: int,
    best: Option<usize>,
)
    requires
        0 <= i < events.len(),
        best matches Some(b) ==> b < i && is_closest(events.take(i), at, backward, b as int),
        !(events[i].ts matches Some(u) && on_side(u, at, backward)),
    ensures
        best matches Some(b) ==> is_closest(events.take(i + 1), at, backward, b as int),
{
    if best is Some {
        let b = best->0 as int;
        let before = events.take(i);
        let after = events.take(i + 1);
        assert(after[b] == before[b]);
        assert forall|j: int|
            #![trigger after[j]]
            0 <= j < after.len() && (after[j].ts matches Some(u) && on_side(u, at, backward)) implies !closer(
            after[j].ts->0,
            after[j].seq,
            after[b].ts->0,
            after[b].seq,
            backward,
        ) by {
            if j < i {
                assert(after[j] == before[j]);
            } else {
                assert(after[j] == events[i]);
            }
        }
    }
}

pub open spec fn distance(a: u64, b: u64) -> int {
    if a >= b {
        a - b
    } else {
        b - a
    }
}

/// An event and its time.
#[derive(Debug)]
pub struct TimedEvent {
    pub event_id: String,
    pub ts: u64,
}

/// What `GET /rooms/{roomId}/timestamp_to_event` answers with: another
/// server's event where it is strictly closer than ours, else ours.
pub open spec fn timed_answer(
    local: Option<TimedEvent>,
    remote: Option<TimedEvent>,
    at: u64,
) -> Option<(Seq<char>, u64, bool)> {
    match (local, remote) {
        (None, Some(r)) => Some((r.event_id@, r.ts, true)),
        (Some(l), Some(r)) => if distance(r.ts, at) < distance(l.ts, at) {
            Some((r.event_id@, r.ts, true))
        } else {
            Some((l.event_id@, l.ts, false))
        },
        (Some(l), None) => Some((l.event_id@, l.ts, false)),
        (None, None) => None,
    }
}

/// The event that answers, and whether it came from another server and should
/// be backfilled.
pub fn timestamp_to_event(local: Option<TimedEvent>, remote: Option<TimedEvent>, at: u64) -> (r:
    Result<(TimedEvent, bool), ApiError>)
    ensures
        match timed_answer(local, remote, at) {
            Some((id, ts, fetched)) => r matches Ok(p) && p.0.event_id@ == id && p.0.ts == ts
                && p.1 == fetched,
            None => r matches Err(e) && e@ == not_found("No event found for the given timestamp"@),
        },
{
    match (local, remote) {
        (None, Some(r)) => Ok((r, true)),
        (Some(l), Some(r)) => {
            let rd: u64 = if r.ts >= at {
                r.ts - at
            } else {
                at - r.ts
            };
            let ld: u64 = if l.ts >= at {
                l.ts - at
            } else {
                at - l.ts
            };
            if rd < ld {
                Ok((r, true))
            } else {
                Ok((l, false))
            }
        },
        (Some(l), None) => Ok((l, false)),
        (None, None) => Err(ApiError::not_found("No event found for the given timestamp")),
    }
}

/// Reads a `timestamp_to_event` query: the time, and whether to look backward.
pub fn timestamp_query(q: &Vec<(String, String)>) -> (r: Result<(u64, bool), ApiError>)
    ensures
        outcome(r) == (match query_value(q@, "ts"@) {
            Some(t) => match seq_number(t) {
                Some(n) => Ok::<(u64, bool), ApiErrorV>(
                    (n as u64, query_value(q@, "dir"@) == Some("b"@)),
                ),
                None => Err(invalid_param("ts: required integer (ms)"@)),
            },
            None => Err(invalid_param("ts: required integer (ms)"@)),
        }),
{
    let ts = match query_get(q, "ts") {
        Some(t) => parse_u64(t.as_str()),
        None => None,
    };
    let backward = match query_get(q, "dir") {
        Some(d) => same_text(d.as_str(), "b"),
        None => false,
    };
    match ts {
        Some(n) => Ok((n, backward)),
        None => Err(ApiError::invalid_param("ts: required integer (ms)")),
    }
}

// -- other servers ------------------------------------------------------------

/// `list` with the names of `more` that are not in it yet, each once.
pub open spec fn extended(list: Seq<Seq<char>>, more: Seq<Seq<char>>) -> Seq<Seq<char>>
    decreases more.len(),
{
    if more.len() == 0 {
        list
    } else {
        let init = extended(list, more.drop_last());
        if init.contains(more.last()) {
            init
        } else {
            init.push(more.last())
        }
    }
}

/// The servers to ask about a room's history: the one that the room ID names,
/// unless it is us, then the others in the room, each once.
pub open spec fn history_servers(
    resident: Option<Seq<char>>,
    in_room: Seq<Seq<char>>,
    our_name: Seq<char>,
) -> Seq<Seq<char>> {
    let head = match resident {
        Some(r) => if r != our_name {
            seq![r]
        } else {
            Seq::empty()
        },
        None => Seq::empty(),
    };
    extended(head, in_room)
}

/// Adds the names that are not in the list yet.
pub fn extend_unique(list: Vec<String>, more: &Vec<String>) -> (r: Vec<String>)
    ensures
        texts(r@) == extended(texts(list@), texts(more@)),
{
    let ghost base = texts(list@);
    let ghost names = texts(more@);
    let mut out = list;
    let mut i: usize = 0;
    proof {
        assert(names.take(0) =~= Seq::<Seq<char>>::empty());
    }
    while i < more.len()
        invariant
            i <= more.len(),
            names == texts(more@),
            texts(out@) == extended(base, names.take(i as int)),
        decreases more.len() - i,
    {
        proof {
            assert(names.take(i + 1).drop_last() =~= names.take(i as int));
            assert(names.take(i + 1).last() == more@[i as int]@);
        }
        if !list_has(&out, more[i].as_str()) {
            let s = more[i].as_str().to_owned();
            proof {
                assert(texts(out@.push(s)) =~= texts(out@).push(s@));
            }
            out.push(s);
        }
        i += 1;
    }
    proof {
        assert(names.take(names.len() as int) =~= names);
    }
    out
}

/// The servers to ask about a room's history, best first.
pub fn fetch_history(resident: Option<String>, in_room: &Vec<String>, our_name: &str) -> (r: Vec<
    String,
>)
    ensures
        texts(r@) == history_servers(opt_text(resident), texts(in_room@), our_name@),
{
    let mut head: Vec<String> = Vec::new();
    proof {
        assert(texts(head@) =~= Seq::<Seq<char>>::empty());
    }
    match resident {
        Some(r) => {
            if !same_text(r.as_str(), our_name) {
                let ghost rv = r@;
                head.push(r);
                proof {
                    assert(texts(head@) =~= seq![rv]);
                }
            }
        },
        None => {},
    }
    extend_unique(head, in_room)
}

/// A list extended by new names has no repeats if it had none, and holds
/// exactly the names of both.
pub proof fn lemma_extended(list: Seq<Seq<char>>, more: Seq<Seq<char>>)
    requires
        list.no_duplicates(),
    ensures
        extended(list, more).no_duplicates(),
        forall|x: Seq<char>| #[trigger]
            extended(list, more).contains(x) <==> list.contains(x) || more.contains(x),
    decreases more.len(),
{
    if more.len() > 0 {
        let t = more.drop_last();
        lemma_extended(list, t);
        let init = extended(list, t);
        let all = extended(list, more);
        let last = more.last();
        assert forall|x: Seq<char>| #[trigger] all.contains(x) <==> list.contains(x)
            || more.contains(x) by {
            assert(init.contains(x) <==> list.contains(x) || t.contains(x));
            if more.contains(x) {
                let i = choose|i: int| 0 <= i < more.len() && more[i] == x;
                if i < t.len() {
                    assert(t[i] == x);
                }
            }
            if t.contains(x) {
                let i = choose|i: int| 0 <= i < t.len() && t[i] == x;
                assert(more[i] == x);
            }
            assert(more[more.len() - 1] == last);
            if all.contains(x) && !init.contains(last) {
                let i = choose|i: int| 0 <= i < all.len() && all[i] == x;
                if i < init.len() {
                    assert(init[i] == x);
                }
            }
            if init.contains(x) {
                let i = choose|i: int| 0 <= i < init.len() && init[i] == x;
                assert(all[i] == x);
            }
            if !init.contains(last) {
                assert(all[init.len() as int] == last);
            }
        }
        if !init.contains(last) {
            assert forall|i: int, j: int| 0 <= i < j < all.len() implies all[i] != all[j] by {
                if j == init.len() {
                    assert(init.contains(init[i]));
                }
            }
        }
    }
}

/// No server is asked twice, and we never ask ourselves.
pub proof fn law_history_servers_are_others(
    resident: Option<Seq<char>>,
    in_room: Seq<Seq<char>>,
    our_name: Seq<char>,
)
    requires
        !in_room.contains(our_name),
    ensures
        history_servers(resident, in_room, our_name).no_duplicates(),
        !history_servers(resident, in_room, our_name).contains(our_name),
{
    let head = match resident {
        Some(r) => if r != our_name {
            seq![r]
        } else {
            Seq::empty()
        },
        None => Seq::empty(),
    };
    lemma_extended(head, in_room);
}

/// A page of messages as it is answered.
#[derive(Debug)]
pub struct MessagesPage {
    pub start: String,
    pub end: Option<String>,
    pub chunk: Vec<Json>,
    /// The senders whose member events are to be loaded, and as of where.
    pub members_of: Vec<String>,
    pub members_at: Option<u64>,
}

/// The events that a content filter lets through, in order.
pub open spec fn filtered(events: Seq<Json>, contains_url: Option<bool>) -> Seq<JsonV>
    decreases events.len(),
{
    if events.len() == 0 {
        Seq::empty()
    } else {
        let init = filtered(events.drop_last(), contains_url);
        if url_filter_passes(events.last()@, contains_url) {
            init.push(events.last()@)
        } else {
            init
        }
    }
}

/// The boolean in a value that may be none.
pub open spec fn as_flag(j: Option<JsonV>) -> Option<bool> {
    match j {
        Some(JsonV::Bool(b)) => Some(b),
        _ => None,
    }
}

fn flag_in(j: Option<&Json>) -> (r: Option<bool>)
    ensures
        r == as_flag(
            match j {
                Some(x) => Some(x@),
                None => None,
            },
        ),
{
    match j {
        Some(Json::Bool(b)) => Some(*b),
        _ => None,
    }
}

/// What a filter of messages asks for.
#[derive(Clone, Copy, Debug, PartialEq, Eq, Structural)]
pub struct MessageFilter {
    /// Only events with a URL, or only those without.
    pub contains_url: Option<bool>,
    pub lazy_load_members: bool,
}

/// The filter of a request for messages, as the parameter was parsed, or what was
/// wrong with it: `contains_url` and `lazy_load_members` are honoured.
pub fn message_filter(parsed: Option<Result<Json, String>>) -> (r: Result<
    MessageFilter,
    ApiError,
>)
    ensures
        match parsed {
            None => r == Ok::<MessageFilter, ApiError>(
                (MessageFilter { contains_url: None, lazy_load_members: false }),
            ),
            Some(Ok(j)) => r == Ok::<MessageFilter, ApiError>(
                (MessageFilter {
                    contains_url: as_flag(field(j@, "contains_url"@)),
                    lazy_load_members: is_true(field(j@, "lazy_load_members"@)),
                }),
            ),
            Some(Err(fault)) => r matches Err(e) && e@ == bad_json("filter: "@ + fault@),
        },
{
    match parsed {
        None => Ok(MessageFilter { contains_url: None, lazy_load_members: false }),
        Some(Ok(j)) => {
            Ok(
                MessageFilter {
                    contains_url: flag_in(j.get("contains_url")),
                    lazy_load_members: flag_set(j.get("lazy_load_members")),
                },
            )
        },
        Some(Err(fault)) => Err(
            ApiError::bad_json(join_texts("filter: ", fault.as_str()).as_str()),
        ),
    }
}

/// Answers a request for messages from the rows that a scan found and the events
/// among them that the caller may see.
pub fn get_messages(
    q: &Vec<(String, String)>,
    scan: &PageScan,
    events: &Vec<Json>,
    filter: MessageFilter,
) -> (r: MessagesPage)
    ensures
        r.start@ == (match query_value(q@, "from"@) {
            Some(t) => t,
            None => "t0"@,
        }),
        items_view(r.chunk@) == filtered(events@, filter.contains_url),
        opt_text(r.end) == end_token(scan@, r.chunk@.len()),
        texts(r.members_of@) == (if filter.lazy_load_members {
            senders_of(r.chunk@)
        } else {
            Seq::empty()
        }),
        r.members_at == (if filter.lazy_load_members {
            newest_seq(scan@.rows)
        } else {
            None
        }),
{
    let mut chunk: Vec<Json> = Vec::new();
    let mut i: usize = 0;
    while i < events.len()
        invariant
            i <= events.len(),
            items_view(chunk@) == filtered(events@.take(i as int), filter.contains_url),
        decreases events.len() - i,
    {
        proof {
            assert(events@.take(i + 1).drop_last() =~= events@.take(i as int));
        }
        if passes_url_filter(&events[i], filter.contains_url) {
            let j = events[i].copy();
            proof {
                assert(chunk@.push(j).drop_last() =~= chunk@);
            }
            chunk.push(j);
        }
        i += 1;
    }
    proof {
        assert(events@.take(events@.len() as int) =~= events@);
    }
    let members_of = if filter.lazy_load_members {
        page_senders(&chunk)
    } else {
        let none: Vec<String> = Vec::new();
        proof {
            assert(texts(none@) =~= Seq::<Seq<char>>::empty());
        }
        none
    };
    let members_at = if filter.lazy_load_members {
        lazy_members_at(&scan.rows)
    } else {
        None
    };
    let end = page_end(scan, chunk.len());
    MessagesPage { start: page_start(q), end, chunk, members_of, members_at }
}

/// The servers that are asked for the event closest to a time: the one that the
/// room ID names, then the others in the room, each once.
pub fn remote_timestamp_to_event(
    resident: Option<String>,
    in_room: &Vec<String>,
    our_name: &str,
) -> (r: Vec<String>)
    ensures
        texts(r@) == extended(
            match resident {
                Some(s) => if s@ != our_name@ {
                    seq![s@]
                } else {
                    Seq::empty()
                },
                None => Seq::empty(),
            },
            texts(in_room@),
        ),
{
    let mut first: Vec<String> = Vec::new();
    match resident {
        Some(s) => {
            if !same_text(s.as_str(), our_name) {
                first.push(s);
                proof {
                    assert(texts(first@) =~= seq![s@]);
                }
            } else {
                proof {
                    assert(texts(first@) =~= Seq::<Seq<char>>::empty());
                }
            }
        },
        None => {
            proof {
                assert(texts(first@) =~= Seq::<Seq<char>>::empty());
            }
        },
    }
    extend_unique(first, in_room)
}

/// What the search for a missing event does next.
#[derive(Clone, Copy, Debug, PartialEq, Eq, Structural)]
pub enum Backfill {
    Done,
    Fetch,
}

/// How often the search for a missing event fetches history.
pub const BACKFILL_ROUNDS: usize = 5;

/// The search for a missing event fetches history until the event is here, the
/// frontier closes, a fetch brings nothing, or it has tried often enough.
/// `found` is empty where the store could not be asked, and so is `frontier`.
pub fn backfill_until_present(
    round: usize,
    found: Option<bool>,
    frontier: Option<usize>,
    last_fetched: Option<u64>,
) -> (r: Backfill)
    ensures
        r == (if round < BACKFILL_ROUNDS && found == Some(false) && (frontier matches Some(n) && n
            > 0) && (round > 0 ==> (last_fetched matches Some(k) && k > 0)) {
            Backfill::Fetch
        } else {
            Backfill::Done
        }),
{
    let moved = match last_fetched {
        Some(k) => k > 0,
        None => false,
    };
    let missing = match found {
        Some(f) => !f,
        None => false,
    };
    let open = match frontier {
        Some(n) => n > 0,
        None => false,
    };
    if round < BACKFILL_ROUNDS && missing && open && (round == 0 || moved) {
        Backfill::Fetch
    } else {
        Backfill::Done
    }
}

/// A backward page goes on into history where the timeline does not fill it:
/// unless it is to end on the timeline it asks for history, and having read too
/// little of it asks whether there is more.
pub proof fn law_short_pages_go_into_history(
    query: PageQuery,
    cap: Option<u64>,
    s: PageScanV,
    v: Seq<(u64, Seq<char>)>,
)
    requires
        !(query.to matches Some(PagePos::Timeline(b)) && b.seq > 0),
        s.query == query,
        s.rows.len() + v.len() < query.limit,
    ensures
        query.backward && (query.from matches Some(PagePos::History(_))) ==> scan_step(
            scan_start(query, cap),
        ) is AskReadable,
        query.backward && !(query.from matches Some(PagePos::History(_))) ==> scan_step(
            scan_start(query, cap),
        ) is ReadTimeline,
        s.phase == ScanPhase::BackTimeline ==> scan_step(scan_next(s, ScanEventV::Rows(v)))
            is AskReadable,
        s.phase == ScanPhase::BackHistory && !(query.to matches Some(PagePos::History(_)))
            ==> scan_step(scan_next(s, ScanEventV::Rows(v))) is AskFrontier,
        !query.backward && (query.from matches Some(PagePos::History(_))) ==> scan_step(
            scan_start(query, cap),
        ) is ReadHistory,
        s.phase == ScanPhase::ForwardHistory && !(query.to matches Some(PagePos::History(_)))
            ==> scan_step(scan_next(s, ScanEventV::Rows(v))) is ReadTimeline,
{
}

/// A page has an end token while there may be more behind it, and that token is
/// the place of its last row; it has none only where nothing was returned and
/// nothing is left.
pub proof fn law_pages_end_at_their_last_row(s: PageScanV, chunk_len: nat)
    ensures
        s.rows.len() > 0 && (s.rows.len() == s.query.limit || chunk_len > 0 || s.more_history)
            ==> (end_token(s, chunk_len) matches Some(t) && match s.rows.last().pos {
            RowPos::Timeline(x) => read_page(t) == Ok::<PagePos, ApiErrorV>(
                PagePos::Timeline(PaginationBound { seq: x, at_event: true, stream: None }),
            ),
            RowPos::History(x) => read_page(t) == Ok::<PagePos, ApiErrorV>(PagePos::History(x)),
        }),
        end_token(s, chunk_len) is None <==> !s.more_history && (s.rows.len() == 0 || (chunk_len
            == 0 && s.rows.len() != s.query.limit)),
{
    if s.rows.len() > 0 {
        match s.rows.last().pos {
            RowPos::Timeline(x) => {
                law_page_tokens_read_back(x, None, 0);
            },
            RowPos::History(x) => {
                law_page_tokens_read_back(0, None, x);
            },
        }
    }
}

/// A query is read as it was written: `b` looks back and `f` ahead, a page is
/// as large as it says within its bounds and ten rows where it says nothing,
/// and it starts and ends where its tokens say.
pub proof fn law_queries_mean_what_they_say(q: Seq<(String, String)>)
    ensures
        read_query(q) matches Ok(p) ==> {
            &&& p.backward ==> query_value(q, "dir"@) == Some("b"@)
            &&& !p.backward ==> query_value(q, "dir"@) == Some("f"@)
            &&& 1 <= p.limit <= 1000
            &&& query_value(q, "limit"@) is None ==> p.limit == 10
            &&& match query_value(q, "limit"@) {
                Some(l) => read_number(l, usize::MAX as nat) matches Some(n) && (1 <= n <= 1000
                    ==> p.limit == n) && (n > 1000 ==> p.limit == 1000) && (n == 0 ==> p.limit
                    == 1),
                None => true,
            }
            &&& match query_value(q, "from"@) {
                Some(t) => p.from is Some && read_page(t) == Ok::<PagePos, ApiErrorV>(p.from->0),
                None => p.from is None,
            }
            &&& match query_value(q, "to"@) {
                Some(t) => p.to is Some && read_page(t) == Ok::<PagePos, ApiErrorV>(p.to->0),
                None => p.to is None,
            }
        },
        read_query(q) matches Err(e) ==> e.status == 400,
        read_query(q) is Ok <==> {
            &&& query_value(q, "dir"@) == Some("b"@) || query_value(q, "dir"@) == Some("f"@)
            &&& query_value(q, "limit"@) matches Some(l)
                ==> read_number(l, usize::MAX as nat) is Some
            &&& query_value(q, "from"@) matches Some(t) ==> read_page(t) is Ok
            &&& query_value(q, "to"@) matches Some(t) ==> read_page(t) is Ok
        },
{
    reveal_strlit("b");
    reveal_strlit("f");
    assert("b"@[0] == 'b' && "f"@[0] == 'f');
    assert forall|t: Seq<char>| read_page(t) is Err implies (#[trigger] read_page(t))->Err_0.status
        == 400 by {}
}

/// A page shows the events that its filter lets through, in order and as they
/// are: without a filter all of them, else those whose content has a URL, or
/// those whose content has none.
pub proof fn law_a_page_shows_what_passes(
    a: Seq<Json>,
    b: Seq<Json>,
    x: Json,
    contains_url: Option<bool>,
)
    ensures
        filtered(a + b, contains_url) == filtered(a, contains_url) + filtered(b, contains_url),
        filtered(seq![x], contains_url) == (match contains_url {
            None => seq![x@],
            Some(want) => if want == (field2(x@, "content"@, "url"@) matches Some(JsonV::Str(_))) {
                seq![x@]
            } else {
                Seq::empty()
            },
        }),
    decreases b.len(),
{
    reveal_with_fuel(filtered, 2);
    assert(seq![x].drop_last() =~= Seq::<Json>::empty());
    if b.len() == 0 {
        assert(a + b =~= a);
    } else {
        law_a_page_shows_what_passes(a, b.drop_last(), x, contains_url);
        assert((a + b).drop_last() =~= a + b.drop_last());
        assert((a + b).last() == b.last());
    }

    assert(filtered(a + b, contains_url) =~= filtered(a, contains_url) + filtered(b, contains_url));
}

/// Lazily loaded members are the senders of a page, each once: whoever sent an
/// event of it is among them, and nobody else.
pub proof fn law_senders_are_listed_once(events: Seq<Json>)
    ensures
        senders_of(events).no_duplicates(),
        forall|u: Seq<char>| #[trigger]
            senders_of(events).contains(u) <==> exists|i: int|
                0 <= i < events.len() && field((#[trigger] events[i])@, "sender"@) == Some(
                    JsonV::Str(u),
                ),
    decreases events.len(),
{
    if events.len() > 0 {
        let init = events.drop_last();
        law_senders_are_listed_once(init);
        let a = senders_of(init);
        let all = senders_of(events);
        let last = events.last();
        assert forall|u: Seq<char>| #[trigger] all.contains(u) <==> exists|i: int|
            0 <= i < events.len() && field((#[trigger] events[i])@, "sender"@) == Some(
                JsonV::Str(u),
            ) by {
            if all.contains(u) {
                let k = choose|k: int| 0 <= k < all.len() && all[k] == u;
                if k < a.len() {
                    assert(a[k] == u);
                    assert(a.contains(u));
                    let i = choose|i: int|
                        0 <= i < init.len() && field((#[trigger] init[i])@, "sender"@) == Some(
                            JsonV::Str(u),
                        );
                    assert(events[i] == init[i]);
                } else {
                    assert(field(events[events.len() - 1]@, "sender"@) == Some(JsonV::Str(u)));
                }
            }
            if exists|i: int|
                0 <= i < events.len() && field((#[trigger] events[i])@, "sender"@) == Some(
                    JsonV::Str(u),
                ) {
                let i = choose|i: int|
                    0 <= i < events.len() && field((#[trigger] events[i])@, "sender"@) == Some(
                        JsonV::Str(u),
                    );
                if i < init.len() {
                    assert(init[i] == events[i]);
                    assert(a.contains(u));
                    let k = choose|k: int| 0 <= k < a.len() && a[k] == u;
                    assert(all[k] == u);
                } else if a.contains(u) {
                    let k = choose|k: int| 0 <= k < a.len() && a[k] == u;
                    assert(all[k] == u);
                } else {
                    assert(all[a.len() as int] == u);
                }
            }
        }
    }
}

/// The position as of which members are shown is the newest timeline position
/// of a page.
pub proof fn law_members_are_shown_as_of_the_newest_row(rows: Seq<RowV>)
    ensures
        match newest_seq(rows) {
            Some(m) => has_row(rows, RowPos::Timeline(m)) && forall|i: int|
                0 <= i < rows.len() ==> ((#[trigger] rows[i]).pos matches RowPos::Timeline(x) ==> x
                    <= m),
            None => forall|i: int| 0 <= i < rows.len() ==> (#[trigger] rows[i]).pos is History,
        },
    decreases rows.len(),
{
    if rows.len() > 0 {
        let init = rows.drop_last();
        law_members_are_shown_as_of_the_newest_row(init);
        assert(rows[rows.len() - 1] == rows.last());
        assert forall|i: int| 0 <= i < init.len() implies init[i] == #[trigger] rows[i] by {}
        match newest_seq(init) {
            Some(m) => {
                let k = choose|k: int|
                    0 <= k < init.len() && (#[trigger] init[k]).pos == RowPos::Timeline(m);
                assert(rows[k].pos == RowPos::Timeline(m));
            },
            None => {},
        }
    }
}

/// An event and its context are shown where they can be seen: a reader who may
/// see an event of the room on the timeline gets it, one of backfilled history
/// is shown where history is readable, and everything else is answered as what
/// does not exist.
pub proof fn law_context_is_shown_to_who_may_see(
    target: Option<TargetFacts>,
    event: Option<JsonV>,
    room_id: Seq<char>,
    readable: bool,
    visible: bool,
)
    ensures
        context_place(target, event, room_id, readable, visible) matches Err(e) ==> e.status == 404,
        context_place(target, event, room_id, readable, visible) is Ok <==> {
            &&& target matches Some(t) && (if t.seq > 0 {
                visible
            } else {
                readable && t.history_idx is Some
            })
            &&& event matches Some(e) && field(e, "room_id"@) == Some(JsonV::Str(room_id))
        },
        context_place(target, event, room_id, readable, visible) matches Ok(
            ContextPlace::Timeline { seq },
        ) ==> seq > 0 && target->0.seq == seq,
        context_place(target, event, room_id, readable, visible) matches Ok(
            ContextPlace::History { idx },
        ) ==> target->0.seq == 0 && target->0.history_idx == Some(idx),
{
}

/// The last position that is shown is that of a shown row behind which none is
/// shown; without one it is the default.
pub proof fn law_last_shown_row_decides(default: u64, rows: Seq<(u64, bool)>)
    ensures
        forall|i: int|
            0 <= i < rows.len() && (#[trigger] rows[i]).1 && (forall|j: int|
                i < j < rows.len() ==> !(#[trigger] rows[j]).1) ==> last_shown(default, rows)
                == rows[i].0,
        (forall|i: int| 0 <= i < rows.len() ==> !(#[trigger] rows[i]).1) ==> last_shown(
            default,
            rows,
        ) == default,
    decreases rows.len(),
{
    if rows.len() > 0 {
        let init = rows.drop_last();
        law_last_shown_row_decides(default, init);
        assert(rows[rows.len() - 1] == rows.last());
        assert forall|i: int| 0 <= i < init.len() implies init[i] == #[trigger] rows[i] by {}
        assert forall|i: int|
            0 <= i < rows.len() && (#[trigger] rows[i]).1 && (forall|j: int|
                i < j < rows.len() ==> !(#[trigger] rows[j]).1) implies last_shown(default, rows)
            == rows[i].0 by {
            if i < init.len() {
                assert(!rows[rows.len() - 1].1);
                assert(init[i].1);
                assert forall|j: int| i < j < init.len() implies !(#[trigger] init[j]).1 by {
                    assert(!rows[j].1);
                }
            }
        }
    }
}

/// A state event is answered with what it holds: its content, an empty object
/// where it has none; and where there is none, or it was rejected, with 404.
pub proof fn law_state_is_answered_with_its_content(
    state: Seq<StateEvent>,
    event_type: Seq<char>,
    state_key: Seq<char>,
)
    ensures
        match state_entry(state, event_type, state_key) {
            Some(e) => if e.event is Some && !e.rejected {
                match field(e.event->0@, "content"@) {
                    Some(c) => state_answer(state, event_type, state_key) == Ok::<JsonV, ApiErrorV>(
                        c,
                    ),
                    None => state_answer(state, event_type, state_key) == Ok::<JsonV, ApiErrorV>(
                        JsonV::Object(Map::empty()),
                    ),
                }
            } else {
                state_answer(state, event_type, state_key) matches Err(x) && x.status == 404
            },
            None => state_answer(state, event_type, state_key) matches Err(x) && x.status == 404,
        },
{
}

/// A filter of members asks for the membership that an event announces: a
/// wanted one shows just those with it, an unwanted one all but those, and no
/// filter all.
pub proof fn law_member_filters_part_the_members(ev: JsonV, m: Seq<char>)
    ensures
        member_passes(ev, None, None),
        member_passes(ev, Some(m), None) != member_passes(ev, None, Some(m)),
        field2(ev, "content"@, "membership"@) matches Some(JsonV::Str(s)) ==> member_passes(
            ev,
            Some(s),
            None,
        ),
        member_passes(ev, Some(m), None) && (field2(ev, "content"@, "membership"@) matches Some(
            JsonV::Str(_),
        )) ==> field2(ev, "content"@, "membership"@) == Some(JsonV::Str(m)),
{
}

/// Everyone who is joined is listed with their name and picture, null where
/// they have none, and nobody else is listed.
pub proof fn law_joined_members_are_listed(state: Seq<StateEvent>, u: Seq<char>)
    ensures
        joined_cards(state).dom().contains(u) ==> exists|i: int|
            0 <= i < state.len() && (#[trigger] state[i]).event_type@ == "m.room.member"@
                && state[i].state_key@ == u && !state[i].rejected
                    && (state[i].event matches Some(ev)
                    && field2(ev@, "content"@, "membership"@) == Some(JsonV::Str("join"@))),
        forall|i: int|
            0 <= i < state.len() && (#[trigger] state[i]).event_type@ == "m.room.member"@
                && state[i].state_key@ == u && is_user_id(u) && !state[i].rejected && (
            state[i].event matches Some(ev) && field2(ev@, "content"@, "membership"@) == Some(
                JsonV::Str("join"@),
            )) && (forall|j: int|
                i < j < state.len() ==> !((#[trigger] state[j]).event_type@ == "m.room.member"@
                    && state[j].state_key@ == u)) ==> joined_cards(state).dom().contains(u)
                        && field(
                joined_cards(state)[u],
                "display_name"@,
            ) == Some(
                match field2(state[i].event->0@, "content"@, "displayname"@) {
                    Some(n) => n,
                    None => JsonV::Null,
                },
            ) && field(joined_cards(state)[u], "avatar_url"@) == Some(
                match field2(state[i].event->0@, "content"@, "avatar_url"@) {
                    Some(n) => n,
                    None => JsonV::Null,
                },
            ),
    decreases state.len(),
{
    reveal_strlit("display_name");
    reveal_strlit("avatar_url");
    assert("display_name"@.len() == 12 && "avatar_url"@.len() == 10);
    if state.len() > 0 {
        let init = state.drop_last();
        law_joined_members_are_listed(init, u);
        assert(state[state.len() - 1] == state.last());
        assert forall|i: int| 0 <= i < init.len() implies init[i] == #[trigger] state[i] by {}
        if joined_cards(init).dom().contains(u) {
            let i = choose|i: int|
                0 <= i < init.len() && (#[trigger] init[i]).event_type@ == "m.room.member"@
                    && init[i].state_key@ == u && !init[i].rejected
                        && (init[i].event matches Some(ev)
                        && field2(ev@, "content"@, "membership"@) == Some(JsonV::Str("join"@)));
            assert(state[i].state_key@ == u);
        }
        assert forall|i: int|
            0 <= i < init.len() && (#[trigger] state[i]).event_type@ == "m.room.member"@
                && state[i].state_key@ == u && (forall|j: int|
                i < j < state.len() ==> !((#[trigger] state[j]).event_type@ == "m.room.member"@
                    && state[j].state_key@ == u)) implies joined_cards(state).dom().contains(u)
            == joined_cards(init).dom().contains(u) && joined_cards(state)[u] == joined_cards(
            init,
        )[u] && init[i] == state[i] && (forall|j: int|
            i < j < init.len() ==> !((#[trigger] init[j]).event_type@ == "m.room.member"@
                && init[j].state_key@ == u)) by {
            assert(!(state[state.len() - 1].event_type@ == "m.room.member"@
                && state[state.len() - 1].state_key@ == u));
            assert forall|j: int| i < j < init.len() implies !((
            #[trigger] init[j]).event_type@ == "m.room.member"@ && init[j].state_key@ == u) by {
                assert(!(state[j].event_type@ == "m.room.member"@ && state[j].state_key@ == u));
            }
        }
    }
}

/// How far two times are apart.
pub open spec fn far(a: u64, b: u64) -> int {
    vstd::math::abs(a - b) as int
}

/// Of our own event and another server's, the one that is answered with lies no
/// farther from the time asked for than the other, and ours is answered with
/// where they are equally far.
pub proof fn law_the_nearer_event_answers(
    local: Option<TimedEvent>,
    remote: Option<TimedEvent>,
    at: u64,
)
    ensures
        timed_answer(local, remote, at) is None <==> local is None && remote is None,
        timed_answer(local, remote, at) matches Some((id, ts, fetched)) ==> {
            &&& fetched ==> (remote matches Some(r) && r.event_id@ == id && r.ts == ts)
            &&& !fetched ==> (local matches Some(l) && l.event_id@ == id && l.ts == ts)
            &&& local matches Some(l) ==> far(ts, at) <= far(l.ts, at) && (fetched ==> far(ts, at)
                < far(l.ts, at))
            &&& remote matches Some(r) ==> far(ts, at) <= far(r.ts, at)
        },
{
}

/// A list of servers keeps its order when others are added: those it had come
/// first, each name stands in it once if it did before, and it holds what it
/// had and what was added.
pub proof fn law_added_servers_come_behind(list: Seq<Seq<char>>, more: Seq<Seq<char>>)
    ensures
        extended(list, more).len() >= list.len(),
        extended(list, more).take(list.len() as int) == list,
        list.no_duplicates() ==> extended(list, more).no_duplicates(),
        forall|x: Seq<char>| #[trigger]
            extended(list, more).contains(x) <==> list.contains(x) || more.contains(x),
    decreases more.len(),
{
    if more.len() == 0 {
        assert(list.take(list.len() as int) =~= list);
    } else {
        let init = more.drop_last();
        law_added_servers_come_behind(list, init);
        let a = extended(list, init);
        let all = extended(list, more);
        assert(all.take(list.len() as int) =~= a.take(list.len() as int));
        assert forall|x: Seq<char>| #[trigger] all.contains(x) <==> list.contains(x)
            || more.contains(x) by {
            if all.contains(x) {
                let k = choose|k: int| 0 <= k < all.len() && all[k] == x;
                if k < a.len() {
                    assert(a[k] == x);
                    assert(a.contains(x));
                    if init.contains(x) {
                        let i = choose|i: int| 0 <= i < init.len() && init[i] == x;
                        assert(more[i] == x);
                    }
                } else {
                    assert(more[more.len() - 1] == x);
                }
            }
            if list.contains(x) || more.contains(x) {
                if a.contains(x) {
                    let k = choose|k: int| 0 <= k < a.len() && a[k] == x;
                    assert(all[k] == x);
                } else {
                    assert(!init.contains(x) && !list.contains(x));
                    let i = choose|i: int| 0 <= i < more.len() && more[i] == x;
                    if i < init.len() {
                        assert(init[i] == x);
                    }
                    assert(all[a.len() as int] == x);
                }
            }
        }
    }
}

/// A room that is not there is answered as one that the user is not in; any
/// other refusal stands.
pub proof fn law_strangers_are_told_nothing(
    e: ApiError,
    r: ApiError,
)
    requires
        call_ensures(messages_refusal, (e,), r),
    ensures
        e.status == 404 ==> r@.status == 403,
        e.status != 404 ==> r@ == e@,
{
}

/// A room that was forgotten is not read.
pub proof fn law_forgotten_rooms_are_closed(
    forgotten: bool,
    r: Result<(), ApiError>,
)
    requires
        call_ensures(ensure_not_forgotten, (forgotten,), r),
    ensures
        r is Ok <==> !forgotten,
        r matches Err(e) ==> e@.status == 403,
{
}

/// The limit of a context, a hundred at most, is shared out before and behind
/// the event, with one more before where it is odd.
pub proof fn law_context_is_shared_out(
    limit: u64,
    r: (usize, usize),
)
    requires
        call_ensures(context_limits, (limit,), r),
    ensures
        limit <= 100 ==> r.0 + r.1 == limit,
        limit > 100 ==> r.0 + r.1 == 100,
        r.1 <= r.0 <= r.1 + 1,
{
}

/// A context shows the event, what stands before and behind it, the state, and
/// where paging goes on.
pub proof fn law_contexts_show_the_event(
    start: String,
    end: String,
    before: Vec<Json>,
    event: Json,
    after: Vec<Json>,
    state: Vec<Json>,
    r: Json,
)
    requires
        call_ensures(context_response, (start, end, before, event, after, state), r),
    ensures
        field(r@, "event"@) == Some(event@),
        field(r@, "events_before"@) == Some(JsonV::Array(items_view(before@))),
        field(r@, "events_after"@) == Some(JsonV::Array(items_view(after@))),
        field(r@, "state"@) == Some(JsonV::Array(items_view(state@))),
        field(r@, "start"@) == Some(JsonV::Str(start@)),
        field(r@, "end"@) == Some(JsonV::Str(end@)),
{
    reveal_strlit("start");
    reveal_strlit("end");
    reveal_strlit("events_before");
    reveal_strlit("event");
    reveal_strlit("events_after");
    reveal_strlit("state");
    assert("start"@.len() == 5 && "end"@.len() == 3 && "events_before"@.len() == 13
        && "event"@.len() == 5 && "events_after"@.len() == 12 && "state"@.len() == 5);
    assert("start"@[0] == 's' && "event"@[0] == 'e');
    assert("start"@[3] == 'r' && "state"@[3] == 't');
    assert("event"@[0] == 'e' && "state"@[0] == 's');
}

/// The event that is found by its time lies on the side that was asked for, and
/// none on that side lies closer; where there is one on that side, one is
/// found. Of two events of one time the later counts when looking back, and else
/// the earlier.
pub proof fn law_the_closest_event_is_found(
    events: &Vec<Dated>,
    at: u64,
    backward: bool,
    j: int,
    u: u64,
    r: Option<usize>,
)
    requires
        call_ensures(closest_event, (events, at, backward), r),
    ensures
        0 <= j < events@.len() && events@[j].ts == Some(u) && (if backward {
            u <= at
        } else {
            u >= at
        }) ==> (r matches Some(i) && i < events@.len() && (events@[i as int].ts matches Some(t)
            && (if backward {
            u <= t <= at && (t == u ==> events@[j].seq <= events@[i as int].seq)
        } else {
            at <= t <= u && (t == u ==> events@[i as int].seq <= events@[j].seq)
        }))),
{
    if 0 <= j < events@.len() && events@[j].ts == Some(u) && on_side(u, at, backward) {
        let e = events@[j];
        assert(!none_on_side(events@, at, backward));
        assert(r is Some);
        let i = r->0 as int;
        assert(is_closest(events@, at, backward, i));
        assert(!closer(e.ts->0, e.seq, events@[i].ts->0, events@[i].seq, backward));
    }
}

/// A filter asks for messages with or without addresses, and for members as
/// they are needed, where it says so.
pub proof fn law_filters_say_what_they_say(
    parsed: Option<Result<Json, String>>,
    r: Result<MessageFilter, ApiError>,
)
    requires
        call_ensures(message_filter, (parsed,), r),
    ensures
        parsed is None ==> (r matches Ok(f) && f.contains_url is None && !f.lazy_load_members),
        parsed matches Some(Ok(j)) ==> (field(j@, "contains_url"@) matches Some(JsonV::Bool(b))
            ==> (r matches Ok(f) && f.contains_url == Some(b))),
        parsed matches Some(Ok(j)) ==> (r matches Ok(f) && (f.lazy_load_members
            <==> field(j@, "lazy_load_members"@) == Some(JsonV::Bool(true)))),
        parsed matches Some(Err(_)) ==> (r matches Err(e) && e@.status == 400),
{
}

} // verus!

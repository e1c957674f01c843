//! Search over room events and over the user directory.
use crate::decimal::{decimal, lemma_decimal_reads_back, parse_usize, read_number, show_u64};
use crate::error::{invalid_param, ApiError, ApiErrorV};
use crate::json::{as_text, entry, field, field2, fields_view, get, items_view, lemma_items, no_fields, object_of, one_field, put_str,
    text_json, Json, JsonV};
use crate::order::{ascending, insert_text};
use crate::routes::rooms::reads::clamp_int;
use crate::text::{ascii_lower, chars_of, copy_texts, has_text, list_has, occurs_in, opt_str, opt_text, same_text, texts};
use vstd::prelude::*;

verus! {

/// What `str::to_lowercase` makes of a text that is not all ASCII.
pub uninterp spec fn unicode_lowercase(s: Seq<char>) -> Seq<char>;

/// Is every character of a text ASCII?
pub open spec fn is_ascii_text(s: Seq<char>) -> bool {
    forall|i: int| 0 <= i < s.len() ==> #[trigger] s[i] <= '\x7f'
}

/// A text in lower case: of an ASCII text its letters, one by one.
pub open spec fn lowercase(s: Seq<char>) -> Seq<char> {
    if is_ascii_text(s) {
        ascii_lower(s)
    } else {
        unicode_lowercase(s)
    }
}

/// What `char::is_alphanumeric` answers beyond ASCII.
pub uninterp spec fn is_unicode_word_char(c: char) -> bool;

/// Is a character a letter or a digit of ASCII?
pub open spec fn is_ascii_word_char(c: char) -> bool {
    'a' <= c <= 'z' || 'A' <= c <= 'Z' || '0' <= c <= '9'
}

/// Is a character a letter or a number?
pub open spec fn is_word_char(c: char) -> bool {
    if c <= '\x7f' {
        is_ascii_word_char(c)
    } else {
        is_unicode_word_char(c)
    }
}

/// `str::to_lowercase`: the text in lower case as Unicode defines it. On an ASCII
/// text it maps `A` to `Z` to `a` to `z` and keeps the rest. Beyond ASCII the
/// Unicode tables are named and not stated.
#[verifier::external_body]
pub(crate) fn to_lowercase(s: &str) -> (r: String)
    ensures
        r@ == (if is_ascii_text(s@) {
            ascii_lower(s@)
        } else {
            unicode_lowercase(s@)
        }),
{
    s.to_lowercase()
}

/// `char::is_alphanumeric`: whether the character is a letter or a number as
/// Unicode defines them. Up to `'\x7f'` these are the letters and digits of ASCII;
/// beyond, the Unicode tables are named and not stated.
pub assume_specification[ char::is_alphanumeric ](c: char) -> (r: bool)
    ensures
        r == (if c <= '\x7f' {
            is_ascii_word_char(c)
        } else {
            is_unicode_word_char(c)
        }),
;

/// The maximal runs of letters and numbers in `s`, then the run at its end.
pub open spec fn runs(s: Seq<char>) -> (Seq<Seq<char>>, Seq<char>)
    decreases s.len(),
{
    if s.len() == 0 {
        (Seq::empty(), Seq::empty())
    } else {
        let (done, run) = runs(s.drop_last());
        if is_word_char(s.last()) {
            (done, run.push(s.last()))
        } else if run.len() > 0 {
            (done.push(run), Seq::empty())
        } else {
            (done, run)
        }
    }
}

/// The words of a text: its maximal runs of letters and numbers.
pub open spec fn words(s: Seq<char>) -> Seq<Seq<char>> {
    let (done, run) = runs(s);
    if run.len() > 0 {
        done.push(run)
    } else {
        done
    }
}

/// The terms of a text: the words of its lower-case form.
pub open spec fn terms(s: Seq<char>) -> Seq<Seq<char>> {
    words(lowercase(s))
}

/// Nothing but letters and numbers, and at least one.
pub open spec fn is_word(w: Seq<char>) -> bool {
    w.len() > 0 && forall|i: int| 0 <= i < w.len() ==> is_word_char(#[trigger] w[i])
}

/// Every word is made of letters and numbers only.
pub proof fn law_words_are_words(s: Seq<char>)
    ensures
        forall|i: int| 0 <= i < words(s).len() ==> is_word(#[trigger] words(s)[i]),
{
    lemma_runs(s);
}

proof fn lemma_runs(s: Seq<char>)
    ensures
        forall|i: int| 0 <= i < runs(s).0.len() ==> is_word(#[trigger] runs(s).0[i]),
        runs(s).1.len() > 0 ==> is_word(runs(s).1),
    decreases s.len(),
{
    if s.len() > 0 {
        lemma_runs(s.drop_last());
    }
}

/// Splits characters into words.
fn split_words(chars: &[char]) -> (r: Vec<String>)
    ensures
        texts(r@) == words(chars@),
{
    let mut out: Vec<String> = Vec::new();
    let mut run = String::new();
    let mut i: usize = 0;
    proof {
        assert(chars@.take(0) =~= Seq::<char>::empty());
        assert(texts(out@) =~= Seq::<Seq<char>>::empty());
    }
    while i < chars.len()
        invariant
            i <= chars.len(),
            runs(chars@.take(i as int)) == (texts(out@), run@),
        decreases chars.len() - i,
    {
        proof {
            assert(chars@.take(i + 1).drop_last() =~= chars@.take(i as int));
        }
        let c = chars[i];
        if c.is_alphanumeric() {
            run.push(c);
        } else if !run.as_str().is_empty() {
            proof {
                assert(texts(out@.push(run)) =~= texts(out@).push(run@));
            }
            out.push(run);
            run = String::new();
        }
        i += 1;
    }
    proof {
        assert(chars@.take(chars@.len() as int) =~= chars@);
    }
    if !run.as_str().is_empty() {
        proof {
            assert(texts(out@.push(run)) =~= texts(out@).push(run@));
        }
        out.push(run);
    }
    out
}

/// Lower-cased words of a text.
pub fn tokenize(s: &str) -> (r: Vec<String>)
    ensures
        texts(r@) == terms(s@),
{
    let low = to_lowercase(s);
    let chars = chars_of(low.as_str());
    split_words(chars.as_slice())
}

// -- /search ------------------------------------------------------------------

/// What a search request asks for.
#[derive(Debug)]
pub struct SearchQuery {
    pub terms: Vec<String>,
    pub offset: usize,
    pub limit: usize,
}

/// The page that a search request asks for: there must be a term, and the
/// token must be a number.
pub open spec fn search_page(
    term: Seq<char>,
    next_batch: Option<Seq<char>>,
    limit: Option<u64>,
) -> Result<(int, int), ApiErrorV> {
    let size = match limit {
        Some(l) => clamp_int(l as int, 1, 100),
        None => 10,
    };
    if terms(term).len() == 0 {
        Err(invalid_param("search_term must not be empty"@))
    } else {
        match next_batch {
            Some(t) => match read_number(t, usize::MAX as nat) {
                Some(n) => Ok((n as int, size)),
                None => Err(invalid_param("Invalid next_batch token"@)),
            },
            None => Ok((0, size)),
        }
    }
}

/// Reads a search request.
pub fn parse_search(term: &str, next_batch: Option<&str>, limit: Option<u64>) -> (r: Result<
    SearchQuery,
    ApiError,
>)
    ensures
        match search_page(term@, opt_str(next_batch), limit) {
            Ok((offset, size)) => r matches Ok(q) && texts(q.terms@) == terms(term@) && q.offset
                == offset && q.limit == size,
            Err(e) => r matches Err(x) && x@ == e,
        },
{
    let words = tokenize(term);
    proof {
        assert(texts(words@).len() == words@.len());
    }
    if words.len() == 0 {
        return Err(ApiError::invalid_param("search_term must not be empty"));
    }
    let offset: usize = match next_batch {
        Some(t) => match parse_usize(t) {
            Some(n) => n,
            None => {
                return Err(ApiError::invalid_param("Invalid next_batch token"));
            },
        },
        None => 0,
    };
    let limit: usize = match limit {
        Some(l) => if l < 1 {
            1
        } else if l > 100 {
            100
        } else {
            l as usize
        },
        None => 10,
    };
    Ok(SearchQuery { terms: words, offset, limit })
}

/// An event that a search looks at.
#[derive(Debug)]
pub struct SearchRow {
    pub seq: u64,
    pub room_id: String,
    pub event: Json,
}

/// Does a text hold every term as a word?
pub open spec fn has_terms(body: Seq<char>, wanted: Seq<Seq<char>>) -> bool {
    forall|i: int| 0 <= i < wanted.len() ==> terms(body).contains(#[trigger] wanted[i])
}

/// Does an event match? Its body must hold every term as a word.
pub open spec fn is_hit(ev: JsonV, wanted: Seq<Seq<char>>) -> bool {
    match as_text(field2(ev, "content"@, "body"@)) {
        Some(body) => has_terms(body, wanted),
        None => false,
    }
}

/// Does an event match?
pub fn matches_search(ev: &Json, wanted: &Vec<String>) -> (r: bool)
    ensures
        r == is_hit(ev@, texts(wanted@)),
{
    let body = match ev.get2("content", "body") {
        Some(j) => match j.as_str() {
            Some(s) => s,
            None => {
                return false;
            },
        },
        None => {
            return false;
        },
    };
    let words = tokenize(body);
    let mut i: usize = 0;
    while i < wanted.len()
        invariant
            i <= wanted.len(),
            texts(words@) == terms(body@),
            as_text(field2(ev@, "content"@, "body"@)) == Some(body@),
            forall|j: int| 0 <= j < i ==> terms(body@).contains(#[trigger] texts(wanted@)[j]),
        decreases wanted.len() - i,
    {
        if !list_has(&words, wanted[i].as_str()) {
            proof {
                assert(!terms(body@).contains(texts(wanted@)[i as int]));
            }
            return false;
        }
        i += 1;
    }
    true
}

/// Row `a` stands before row `b` in the results: newest first, and rows of one
/// position in the order in which they came.
pub open spec fn ranks_before(rows: Seq<SearchRow>, a: int, b: int) -> bool {
    rows[a].seq > rows[b].seq || (rows[a].seq == rows[b].seq && a < b)
}

/// `order` lists exactly the matching rows among the first `n`, each once,
/// newest first.
pub open spec fn is_ranking(
    order: Seq<usize>,
    rows: Seq<SearchRow>,
    wanted: Seq<Seq<char>>,
    n: int,
) -> bool {
    &&& forall|k: int| 0 <= k < order.len() ==> (#[trigger] order[k]) < n && is_hit(
        rows[order[k] as int].event@,
        wanted,
    )
    &&& forall|i: int|
        0 <= i < n && is_hit((#[trigger] rows[i]).event@, wanted) ==> order.contains(i as usize)
    &&& forall|a: int, b: int|
        #![trigger order[a], order[b]]
        0 <= a < b < order.len() ==> ranks_before(rows, order[a] as int, order[b] as int)
}

/// The matching rows, newest first. `recent` and `rank` both order by recency —
/// without scoring, recency is the rank.
pub fn rank_matches(rows: &Vec<SearchRow>, wanted: &Vec<String>) -> (r: Vec<usize>)
    ensures
        is_ranking(r@, rows@, texts(wanted@), rows@.len() as int),
{
    let mut order: Vec<usize> = Vec::new();
    let mut i: usize = 0;
    while i < rows.len()
        invariant
            i <= rows.len(),
            is_ranking(order@, rows@, texts(wanted@), i as int),
        decreases rows.len() - i,
    {
        if matches_search(&rows[i].event, wanted) {
            let mut at: usize = 0;
            while at < order.len() && rows[order[at]].seq >= rows[i].seq
                invariant
                    at <= order.len(),
                    i < rows.len(),
                    is_ranking(order@, rows@, texts(wanted@), i as int),
                    forall|k: int| 0 <= k < at ==> rows@[(#[trigger] order@[k]) as int].seq
                        >= rows@[i as int].seq,
                decreases order.len() - at,
            {
                at += 1;
            }
            let ghost before = order@;
            order.insert(at, i);
            proof {
                let after = order@;
                let w = texts(wanted@);
                assert(after =~= before.insert(at as int, i));
                assert forall|k: int| 0 <= k < after.len() implies (#[trigger] after[k]) < i + 1
                    && is_hit(rows@[after[k] as int].event@, w) by {
                    if k < at {
                        assert(after[k] == before[k]);
                    } else if k > at {
                        assert(after[k] == before[k - 1]);
                    }
                }
                assert forall|j: int|
                    0 <= j < i + 1 && is_hit((#[trigger] rows@[j]).event@, w) implies after.contains(
                    j as usize,
                ) by {
                    if j == i {
                        assert(after[at as int] == i);
                    } else {
                        assert(before.contains(j as usize));
                        let k = choose|k: int| 0 <= k < before.len() && before[k] == j as usize;
                        if k < at {
                            assert(after[k] == before[k]);
                        } else {
                            assert(after[k + 1] == before[k]);
                        }
                    }
                }
                assert forall|a: int, b: int|
                    #![trigger after[a], after[b]]
                    0 <= a < b < after.len() implies ranks_before(
                    rows@,
                    after[a] as int,
                    after[b] as int,
                ) by {
                    if b < at {
                        assert(after[a] == before[a] && after[b] == before[b]);
                    } else if b == at {
                        assert(after[a] == before[a]);
                    } else if a < at {
                        assert(after[a] == before[a] && after[b] == before[b - 1]);
                    } else if a == at {
                        assert(after[b] == before[b - 1]);
                        if b - 1 > at {
                            assert(ranks_before(
                                rows@,
                                before[at as int] as int,
                                before[b - 1] as int,
                            ));
                        }
                    } else {
                        assert(after[a] == before[a - 1] && after[b] == before[b - 1]);
                    }
                }
            }
        } else {
            proof {
                assert forall|k: int| 0 <= k < order@.len() implies (#[trigger] order@[k]) < i + 1 by {}
            }
        }
        i += 1;
    }
    order
}

/// Every result holds every term, and every matching event is a result.
pub proof fn law_results_are_the_matches(
    order: Seq<usize>,
    rows: Seq<SearchRow>,
    wanted: Seq<Seq<char>>,
    i: int,
)
    requires
        is_ranking(order, rows, wanted, rows.len() as int),
        rows.len() <= usize::MAX,
        0 <= i < rows.len(),
    ensures
        order.contains(i as usize) <==> is_hit(rows[i].event@, wanted),
{
    if order.contains(i as usize) {
        let k = choose|k: int| 0 <= k < order.len() && order[k] == i as usize;
        assert(is_hit(rows[order[k] as int].event@, wanted));
    }
}

/// The token of the page behind this one: whenever this page is full, even
/// with nothing after it. Clients find the end by paginating until they get an
/// empty page without a token.
pub open spec fn next_page(total: int, offset: int, limit: int) -> Option<Seq<char>> {
    if total - offset >= limit && offset <= total {
        Some(decimal((offset + limit) as nat))
    } else {
        None
    }
}

/// The `next_batch` token of a page of results.
pub fn search_next_batch(total: usize, offset: usize, limit: usize) -> (r: Option<String>)
    requires
        limit > 0,
    ensures
        opt_text(r) == next_page(total as int, offset as int, limit as int),
{
    if offset <= total && total - offset >= limit {
        Some(show_u64((offset + limit) as u64))
    } else {
        None
    }
}

/// A page of results.
pub open spec fn page_of(order: Seq<usize>, offset: int, limit: int) -> Seq<usize> {
    if offset >= order.len() {
        Seq::empty()
    } else if offset + limit >= order.len() {
        order.skip(offset)
    } else {
        order.subrange(offset, offset + limit)
    }
}

/// The rows of a page of results.
pub fn search_page_rows(order: &Vec<usize>, offset: usize, limit: usize) -> (r: Vec<usize>)
    ensures
        r@ == page_of(order@, offset as int, limit as int),
{
    let mut out: Vec<usize> = Vec::new();
    if offset >= order.len() {
        proof {
            assert(out@ =~= page_of(order@, offset as int, limit as int));
        }
        return out;
    }
    let n = order.len();
    let end: usize = if n - offset <= limit {
        n
    } else {
        offset + limit
    };
    let mut i: usize = offset;
    while i < end
        invariant
            offset <= i <= end <= order.len(),
            out@ == order@.subrange(offset as int, i as int),
        decreases end - i,
    {
        proof {
            assert(order@.subrange(offset as int, i + 1) =~= order@.subrange(
                offset as int,
                i as int,
            ).push(order@[i as int]));
        }
        out.push(order[i]);
        i += 1;
    }
    proof {
        assert(out@ =~= page_of(order@, offset as int, limit as int));
    }
    out
}

/// Following the tokens walks through all results without gap or overlap: a
/// page and what starts at its token make up what started at the page.
pub proof fn law_pages_join_up(order: Seq<usize>, offset: int, limit: int)
    requires
        0 <= offset,
        0 < limit,
        order.len() <= usize::MAX,
        next_page(order.len() as int, offset, limit) is Some,
    ensures
        read_number(next_page(order.len() as int, offset, limit)->0, usize::MAX as nat) == Some(
            (offset + limit) as nat,
        ),
        page_of(order, offset, limit) + order.skip(offset + limit) == order.skip(offset),
{
    lemma_decimal_reads_back((offset + limit) as nat, usize::MAX as nat);
    assert(page_of(order, offset, limit) + order.skip(offset + limit) =~= order.skip(offset));
}

/// The last page has no token: where none is given, the page holds the rest.
pub proof fn law_last_page_holds_the_rest(order: Seq<usize>, offset: int, limit: int)
    requires
        0 <= offset,
        0 < limit,
        next_page(order.len() as int, offset, limit) is None,
    ensures
        offset <= order.len() ==> page_of(order, offset, limit) == order.skip(offset),
        offset > order.len() ==> page_of(order, offset, limit).len() == 0,
{
    if offset == order.len() {
        assert(page_of(order, offset, limit) =~= order.skip(offset));
    }
}

/// How many events round a hit are shown on a side: as asked, at most 100.
pub fn search_context(asked: u64) -> (r: usize)
    ensures
        r == (if asked <= 100 {
            asked as int
        } else {
            100
        }),
{
    if asked <= 100 {
        asked as usize
    } else {
        100
    }
}

/// Wraps the results of a search. Clients expect `results` even when it is
/// empty.
pub fn respond(room_events: Vec<(String, Json)>) -> (r: Json)
    ensures
        r@ == one_field(
            "search_categories"@,
            one_field(
                "room_events"@,
                JsonV::Object(
                    if fields_view(room_events@).dom().contains("results"@) {
                        fields_view(room_events@)
                    } else {
                        fields_view(room_events@).insert("results"@, JsonV::Array(Seq::empty()))
                    },
                ),
            ),
        ),
{
    let mut m = room_events;
    if get(&m, "results").is_none() {
        let none: Vec<Json> = Vec::new();
        proof {
            assert(items_view(none@) =~= Seq::<JsonV>::empty());
        }
        put_str(&mut m, "results", Json::Array(none));
    }
    object_of("search_categories", object_of("room_events", Json::Object(m)))
}

// -- /user_directory/search ---------------------------------------------------

/// A user whom the caller can see.
#[derive(Debug)]
pub struct DirectoryUser {
    pub user_id: String,
    pub displayname: Option<String>,
    pub avatar_url: Option<String>,
}

/// Does a user match a term? By display name or user ID, whatever the case; an
/// empty term matches nobody.
pub open spec fn user_matches(u: DirectoryUser, term: Seq<char>) -> bool {
    term.len() > 0 && (occurs_in(term, lowercase(u.user_id@)) || (u.displayname matches Some(n)
        && occurs_in(term, lowercase(n@))))
}

/// How a user is listed.
pub open spec fn user_card(u: DirectoryUser) -> JsonV {
    JsonV::Object(
        no_fields().insert("user_id"@, JsonV::Str(u.user_id@)).insert(
            "display_name"@,
            text_or_null(opt_text(u.displayname)),
        ).insert("avatar_url"@, text_or_null(opt_text(u.avatar_url))),
    )
}

pub open spec fn text_or_null(o: Option<Seq<char>>) -> JsonV {
    match o {
        Some(s) => JsonV::Str(s),
        None => JsonV::Null,
    }
}

/// The users that match, in order.
pub open spec fn matching_users(users: Seq<DirectoryUser>, term: Seq<char>) -> Seq<JsonV>
    decreases users.len(),
{
    if users.len() == 0 {
        Seq::empty()
    } else {
        let init = matching_users(users.drop_last(), term);
        if user_matches(users.last(), term) {
            init.push(user_card(users.last()))
        } else {
            init
        }
    }
}

fn null_or_text(o: &Option<String>) -> (r: Json)
    ensures
        r@ == text_or_null(opt_text(*o)),
{
    match o {
        Some(s) => text_json(s.as_str()),
        None => Json::Null,
    }
}

fn user_hit(u: &DirectoryUser, term: &str) -> (r: bool)
    ensures
        r == user_matches(*u, term@),
{
    if term.is_empty() {
        return false;
    }
    let name_hit = match &u.displayname {
        Some(n) => has_text(to_lowercase(n.as_str()).as_str(), term),
        None => false,
    };
    name_hit || has_text(to_lowercase(u.user_id.as_str()).as_str(), term)
}

fn card_of(u: &DirectoryUser) -> (r: Json)
    ensures
        r@ == user_card(*u),
{
    let mut m: Vec<(String, Json)> = Vec::new();
    put_str(&mut m, "user_id", text_json(u.user_id.as_str()));
    put_str(&mut m, "display_name", null_or_text(&u.displayname));
    put_str(&mut m, "avatar_url", null_or_text(&u.avatar_url));
    Json::Object(m)
}

proof fn lemma_matching_grows(users: Seq<DirectoryUser>, term: Seq<char>, i: int)
    requires
        0 <= i <= users.len(),
    ensures
        matching_users(users.take(i), term).len() <= matching_users(users, term).len(),
        matching_users(users, term).take(matching_users(users.take(i), term).len() as int)
            == matching_users(users.take(i), term),
    decreases users.len() - i,
{
    if i == users.len() {
        assert(users.take(i) =~= users);
        assert(matching_users(users, term).take(matching_users(users, term).len() as int)
            =~= matching_users(users, term));
    } else {
        lemma_matching_grows(users, term, i + 1);
        assert(users.take(i + 1).drop_last() =~= users.take(i));
        let a = matching_users(users.take(i), term);
        let b = matching_users(users.take(i + 1), term);
        let c = matching_users(users, term);
        assert(c.take(a.len() as int) =~= a) by {
            assert forall|k: int| 0 <= k < a.len() implies #[trigger] c.take(a.len() as int)[k]
                == a[k] by {
                assert(c.take(b.len() as int)[k] == b[k]);
            }
        }
    }
}

/// `POST /user_directory/search`: the first `limit` of the visible users that
/// match the term, and whether there are more. Per-room display names are
/// deliberately not looked at: a name revealed inside a private room must not
/// leak through the directory.
pub fn search_users(users: &Vec<DirectoryUser>, search_term: &str, limit: usize) -> (r: (Vec<Json>, bool))
    ensures
        ({
            let all = matching_users(users@, lowercase(search_term@));
            &&& items_view(r.0@) == (if all.len() > limit {
                all.take(limit as int)
            } else {
                all
            })
            &&& r.1 == (all.len() > limit)
        }),
{
    let term = to_lowercase(search_term);
    let mut out: Vec<Json> = Vec::new();
    let mut i: usize = 0;
    while i < users.len()
        invariant
            i <= users.len(),
            term@ == lowercase(search_term@),
            out@.len() <= limit,
            items_view(out@) == matching_users(users@.take(i as int), term@),
        decreases users.len() - i,
    {
        proof {
            assert(users@.take(i + 1).drop_last() =~= users@.take(i as int));
            assert(users@.take(i + 1).last() == users@[i as int]);
            lemma_items(out@);
        }
        if user_hit(&users[i], term.as_str()) {
            if out.len() == limit {
                proof {
                    lemma_matching_grows(users@, term@, i + 1);
                    lemma_matching_grows(users@, term@, i as int);
                }
                return (out, true);
            }
            let c = card_of(&users[i]);
            proof {
                assert(out@.push(c).drop_last() =~= out@);
            }
            out.push(c);
        }
        i += 1;
    }
    proof {
        assert(users@.take(users@.len() as int) =~= users@);
        lemma_items(out@);
    }
    (out, false)
}

/// A list of users in one of some rooms.
pub open spec fn in_some_room(rooms: Seq<Vec<String>>, user: Seq<char>) -> bool {
    exists|i: int| 0 <= i < rooms.len() && texts((#[trigger] rooms[i])@).contains(user)
}

fn add_members(out: Vec<String>, members: &Vec<String>, me: &str) -> (r: Vec<String>)
    requires
        ascending(texts(out@)),
    ensures
        ascending(texts(r@)),
        forall|u: Seq<char>|
            #[trigger] texts(r@).contains(u) <==> texts(out@).contains(u) || (u != me@ && texts(
                members@,
            ).contains(u)),
{
    let ghost before = texts(out@);
    let mut out = out;
    let mut i: usize = 0;
    while i < members.len()
        invariant
            i <= members.len(),
            ascending(texts(out@)),
            forall|u: Seq<char>|
                #[trigger] texts(out@).contains(u) <==> before.contains(u) || (u != me@ && texts(
                    members@,
                ).take(i as int).contains(u)),
        decreases members.len() - i,
    {
        let ghost seen = texts(members@).take(i as int);
        let ghost next = texts(members@).take(i + 1);
        let m = members[i].as_str();
        proof {
            assert(next =~= seen.push(m@));
            assert forall|u: Seq<char>| #[trigger] next.contains(u) <==> seen.contains(u) || u
                == m@ by {
                if seen.contains(u) {
                    let k = choose|k: int| 0 <= k < seen.len() && seen[k] == u;
                    assert(next[k] == u);
                }
                assert(next[i as int] == m@);
            }
        }
        if !same_text(m, me) {
            out = insert_text(out, m);
        }
        i += 1;
    }
    proof {
        assert(texts(members@).take(members@.len() as int) =~= texts(members@));
    }
    out
}

/// The users that a caller can find: those in the rooms that the caller is in
/// or that are listed publicly, in order, and not the caller.
pub fn visible_users(rooms: &Vec<Vec<String>>, me: &str) -> (r: Vec<String>)
    ensures
        ascending(texts(r@)),
        forall|u: Seq<char>|
            #[trigger] texts(r@).contains(u) <==> u != me@ && in_some_room(rooms@, u),
{
    let mut out: Vec<String> = Vec::new();
    let mut i: usize = 0;
    while i < rooms.len()
        invariant
            i <= rooms.len(),
            ascending(texts(out@)),
            forall|u: Seq<char>|
                #[trigger] texts(out@).contains(u) <==> u != me@ && in_some_room(
                    rooms@.take(i as int),
                    u,
                ),
        decreases rooms.len() - i,
    {
        out = add_members(out, &rooms[i], me);
        proof {
            let seen = rooms@.take(i as int);
            let next = rooms@.take(i + 1);
            assert forall|u: Seq<char>| #[trigger] in_some_room(next, u) <==> in_some_room(seen, u)
                || texts(rooms@[i as int]@).contains(u) by {
                if in_some_room(seen, u) {
                    let k = choose|k: int|
                        0 <= k < seen.len() && texts((#[trigger] seen[k])@).contains(u);
                    assert(next[k] == seen[k]);
                }
                if in_some_room(next, u) {
                    let k = choose|k: int|
                        0 <= k < next.len() && texts((#[trigger] next[k])@).contains(u);
                    if k < i {
                        assert(seen[k] == next[k]);
                    }
                }
                assert(next[i as int] == rooms@[i as int]);
            }
        }
        i += 1;
    }
    proof {
        assert(rooms@.take(rooms@.len() as int) =~= rooms@);
    }
    out
}

/// The rooms of a list that are among others.
pub open spec fn rooms_among(rooms: Seq<Seq<char>>, joined: Seq<Seq<char>>) -> Seq<Seq<char>>
    decreases rooms.len(),
{
    if rooms.len() == 0 {
        Seq::empty()
    } else {
        let init = rooms_among(rooms.drop_last(), joined);
        if joined.contains(rooms.last()) {
            init.push(rooms.last())
        } else {
            init
        }
    }
}

/// The rooms that a search looks at: those asked for, or all that the caller is
/// joined to; either way only rooms that the caller is joined to.
pub fn search_scope(asked: Option<Vec<String>>, joined: &Vec<String>) -> (r: Vec<String>)
    ensures
        texts(r@) == (match asked {
            Some(rooms) => rooms_among(texts(rooms@), texts(joined@)),
            None => texts(joined@),
        }),
{
    let rooms = match asked {
        Some(rooms) => rooms,
        None => {
            return copy_texts(joined);
        },
    };
    let mut out: Vec<String> = Vec::new();
    let mut i: usize = 0;
    while i < rooms.len()
        invariant
            i <= rooms.len(),
            texts(out@) == rooms_among(texts(rooms@).take(i as int), texts(joined@)),
        decreases rooms.len() - i,
    {
        proof {
            assert(texts(rooms@).take(i + 1).drop_last() =~= texts(rooms@).take(i as int));
            assert(texts(rooms@).take(i + 1).last() == rooms@[i as int]@);
        }
        if list_has(joined, rooms[i].as_str()) {
            let ghost before = out@;
            out.push(rooms[i].as_str().to_owned());
            proof {
                assert(texts(out@) =~= texts(before).push(rooms@[i as int]@));
            }
        }
        i += 1;
    }
    proof {
        assert(texts(rooms@).take(rooms@.len() as int) =~= texts(rooms@));
    }
    out
}

/// Reads a user-directory request: the term, and the page size of at most 100.
pub fn user_directory(body: &Vec<(String, Json)>) -> (r: Result<(String, usize), ApiError>)
    ensures
        match as_text(entry(fields_view(body@), "search_term"@)) {
            Some(t) => r matches Ok(p) && p.0@ == t && p.1 == (match entry(
                fields_view(body@),
                "limit"@,
            ) {
                Some(JsonV::Int(l)) => if 0 <= l <= 100 {
                    l
                } else if 100 < l <= u64::MAX {
                    100
                } else {
                    10
                },
                _ => 10,
            }),
            None => r matches Err(e) && e@ == invalid_param("search_term is required"@),
        },
{
    let term = match get(body, "search_term") {
        Some(j) => match j.as_str() {
            Some(s) => s.to_owned(),
            None => {
                return Err(ApiError::invalid_param("search_term is required"));
            },
        },
        None => {
            return Err(ApiError::invalid_param("search_term is required"));
        },
    };
    let limit: usize = match get(body, "limit") {
        Some(j) => match j.as_u64() {
            Some(l) => if l <= 100 {
                l as usize
            } else {
                100
            },
            None => 10,
        },
        None => 10,
    };
    Ok((term, limit))
}

/// A page of search results: how many match in all, the rows of the page, and
/// the token of the next one.
#[derive(Debug)]
pub struct SearchPage {
    pub count: u64,
    pub rows: Vec<usize>,
    pub next_batch: Option<String>,
}

/// Searches the events that the caller may see.
pub fn search(rows: &Vec<SearchRow>, q: &SearchQuery) -> (r: SearchPage)
    requires
        q.limit > 0,
    ensures
        exists|order: Seq<usize>| #[trigger]
            is_ranking(order, rows@, texts(q.terms@), rows@.len() as int) && r.count == order.len()
                && r.rows@ == page_of(order, q.offset as int, q.limit as int) && opt_text(
                r.next_batch,
            ) == next_page(order.len() as int, q.offset as int, q.limit as int),
{
    let order = rank_matches(rows, &q.terms);
    let next_batch = search_next_batch(order.len(), q.offset, q.limit);
    let page = search_page_rows(&order, q.offset, q.limit);
    let r = SearchPage { count: order.len() as u64, rows: page, next_batch };
    proof {
        assert(is_ranking(order@, rows@, texts(q.terms@), rows@.len() as int));
    }
    r
}

/// Only one ranking of the matching rows exists.
pub proof fn law_ranking_is_unique(
    a: Seq<usize>,
    b: Seq<usize>,
    rows: Seq<SearchRow>,
    wanted: Seq<Seq<char>>,
)
    requires
        rows.len() <= usize::MAX,
        is_ranking(a, rows, wanted, rows.len() as int),
        is_ranking(b, rows, wanted, rows.len() as int),
    ensures
        a == b,
{
    lemma_ranking_prefix(a, b, rows, wanted, 0);
    lemma_ranking_prefix(b, a, rows, wanted, 0);
    assert(a =~= b);
}

proof fn lemma_in_ranking(
    a: Seq<usize>,
    b: Seq<usize>,
    rows: Seq<SearchRow>,
    wanted: Seq<Seq<char>>,
    k: int,
) -> (j: int)
    requires
        rows.len() <= usize::MAX,
        is_ranking(a, rows, wanted, rows.len() as int),
        is_ranking(b, rows, wanted, rows.len() as int),
        0 <= k < a.len(),
    ensures
        0 <= j < b.len(),
        b[j] == a[k],
{
    let i = a[k] as int;
    assert(is_hit(rows[i].event@, wanted));
    assert(b.contains(i as usize));
    choose|j: int| 0 <= j < b.len() && b[j] == a[k]
}

proof fn lemma_ranking_prefix(
    a: Seq<usize>,
    b: Seq<usize>,
    rows: Seq<SearchRow>,
    wanted: Seq<Seq<char>>,
    n: int,
)
    requires
        rows.len() <= usize::MAX,
        is_ranking(a, rows, wanted, rows.len() as int),
        is_ranking(b, rows, wanted, rows.len() as int),
        0 <= n <= a.len(),
        n <= b.len(),
        forall|k: int| 0 <= k < n ==> #[trigger] a[k] == b[k],
    ensures
        a.len() <= b.len(),
        forall|k: int| 0 <= k < a.len() ==> #[trigger] a[k] == b[k],
    decreases a.len() - n,
{
    if n < a.len() {
        let j = lemma_in_ranking(a, b, rows, wanted, n);
        if j < n {
            assert(a[j] == b[j]);
            assert(ranks_before(rows, a[j] as int, a[n] as int));
        }
        if j > n {
            let m = lemma_in_ranking(b, a, rows, wanted, n);
            assert(ranks_before(rows, b[n] as int, b[j] as int));
            if m < n {
                assert(a[m] == b[m]);
                assert(ranks_before(rows, b[m] as int, b[n] as int));
            } else if m > n {
                assert(ranks_before(rows, a[n] as int, a[m] as int));
            }
        }
        lemma_ranking_prefix(a, b, rows, wanted, n + 1);
    }
}

/// The events round a hit, as they are told; nothing where there are none.
pub open spec fn context_json(before: Seq<JsonV>, after: Seq<JsonV>) -> Option<JsonV> {
    if before.len() == 0 && after.len() == 0 {
        None
    } else {
        let a = if after.len() > 0 {
            no_fields().insert("events_after"@, JsonV::Array(after))
        } else {
            no_fields()
        };
        Some(
            JsonV::Object(
                if before.len() > 0 {
                    a.insert("events_before"@, JsonV::Array(before))
                } else {
                    a
                },
            ),
        )
    }
}

/// A hit as it is told: every hit ranks alike.
pub open spec fn result_json(event: JsonV, before: Seq<JsonV>, after: Seq<JsonV>) -> JsonV {
    let m = no_fields().insert("rank"@, JsonV::Number("1.0"@)).insert("result"@, event);
    JsonV::Object(
        match context_json(before, after) {
            Some(c) => m.insert("context"@, c),
            None => m,
        },
    )
}

/// A hit as it is told.
pub fn search_result(event: Json, before: Vec<Json>, after: Vec<Json>) -> (r: Json)
    ensures
        r@ == result_json(event@, items_view(before@), items_view(after@)),
{
    proof {
        lemma_items(before@);
        lemma_items(after@);
    }
    let mut m: Vec<(String, Json)> = Vec::new();
    put_str(&mut m, "rank", Json::Number("1.0".to_owned()));
    put_str(&mut m, "result", event);
    if before.len() > 0 || after.len() > 0 {
        let mut c: Vec<(String, Json)> = Vec::new();
        if after.len() > 0 {
            put_str(&mut c, "events_after", Json::Array(after));
        }
        if before.len() > 0 {
            put_str(&mut c, "events_before", Json::Array(before));
        }
        put_str(&mut m, "context", Json::Object(c));
    }
    Json::Object(m)
}

/// The answer to a search. Clients expect `results` even when it is empty.
pub fn search_answer(count: u64, next_batch: Option<String>, results: Vec<Json>) -> (r: Json)
    ensures
        ({
            let m = no_fields().insert(
                "count"@,
                JsonV::Int(
                    if count < MAX_COUNT {
                        count as int
                    } else {
                        MAX_COUNT as int
                    },
                ),
            );
            let n = match opt_text(next_batch) {
                Some(t) => m.insert("next_batch"@, JsonV::Str(t)),
                None => m,
            };
            r@ == one_field(
                "search_categories"@,
                one_field(
                    "room_events"@,
                    JsonV::Object(n.insert("results"@, JsonV::Array(items_view(results@)))),
                ),
            )
        }),
{
    let told: u64 = if count < MAX_COUNT {
        count
    } else {
        MAX_COUNT
    };
    let mut m: Vec<(String, Json)> = Vec::new();
    put_str(&mut m, "count", Json::Int(told as i128));
    match next_batch {
        Some(t) => {
            put_str(&mut m, "next_batch", Json::Str(t));
        },
        None => {},
    }
    put_str(&mut m, "results", Json::Array(results));
    respond(m)
}

/// The largest count that is told.
pub const MAX_COUNT: u64 = 9_007_199_254_740_991;

// -- what a search comes to --------------------------------------------------------

/// Words are what stands between characters that are no word characters: the
/// words of two texts with such a character between them are the words of the
/// one and those of the other. A text of word characters alone is one word.
pub proof fn law_words_stand_apart(a: Seq<char>, c: char, b: Seq<char>)
    requires
        !is_word_char(c),
    ensures
        words(a.push(c) + b) == words(a) + words(b),
        is_word(a) ==> words(a) == seq![a],
        words(Seq::empty()).len() == 0,
{
    let x = a.push(c);
    assert(x.drop_last() =~= a);
    lemma_runs_behind(x, b);
    if is_word(a) {
        lemma_run_of_word(a);
        assert(words(a) =~= seq![a]);
    }
    assert(words(x + b) =~= words(a) + words(b));
}

proof fn lemma_runs_behind(x: Seq<char>, b: Seq<char>)
    requires
        runs(x).1.len() == 0,
    ensures
        runs(x + b).0 == runs(x).0 + runs(b).0,
        runs(x + b).1 == runs(b).1,
    decreases b.len(),
{
    if b.len() == 0 {
        assert(x + b =~= x);
        assert(runs(x).0 + runs(b).0 =~= runs(x).0);
        assert(runs(x).1 =~= runs(b).1);
    } else {
        lemma_runs_behind(x, b.drop_last());
        assert((x + b).drop_last() =~= x + b.drop_last());
        assert((x + b).last() == b.last());
        assert(runs(x + b).0 =~= runs(x).0 + runs(b).0);
    }
}

proof fn lemma_run_of_word(w: Seq<char>)
    requires
        forall|i: int| 0 <= i < w.len() ==> is_word_char(#[trigger] w[i]),
    ensures
        runs(w).0.len() == 0,
        runs(w).1 == w,
    decreases w.len(),
{
    if w.len() > 0 {
        let init = w.drop_last();
        assert forall|i: int| 0 <= i < init.len() implies is_word_char(#[trigger] init[i]) by {
            assert(init[i] == w[i]);
        }
        lemma_run_of_word(init);
        assert(is_word_char(w[w.len() - 1]));
        assert(runs(w).1 =~= w);
    } else {
        assert(runs(w).1 =~= w);
    }
}

/// Of the ASCII characters, letters and digits make words.
pub proof fn law_letters_and_digits_make_words(c: char)
    requires
        c <= '\x7f',
    ensures
        is_word_char(c) <==> ('a' <= c <= 'z' || 'A' <= c <= 'Z' || '0' <= c <= '9'),
{
}

/// A message is found exactly where its body holds every word that is looked
/// for, whatever the case. Every row that is found is ranked, once, newer rows
/// first.
pub proof fn law_messages_with_every_word_are_found(
    rows: Seq<SearchRow>,
    wanted: Seq<Seq<char>>,
    order: Seq<usize>,
    i: int,
    body: Seq<char>,
)
    requires
        is_ranking(order, rows, wanted, rows.len() as int),
        0 <= i < rows.len() <= usize::MAX,
        field2(rows[i].event@, "content"@, "body"@) == Some(JsonV::Str(body)),
    ensures
        order.contains(i as usize) <==> forall|k: int|
            0 <= k < wanted.len() ==> words(lowercase(body)).contains(#[trigger] wanted[k]),
{
    if forall|k: int|
        0 <= k < wanted.len() ==> words(lowercase(body)).contains(#[trigger] wanted[k]) {
        assert(is_hit(rows[i].event@, wanted));
    }
    if order.contains(i as usize) {
        let k = choose|k: int| 0 <= k < order.len() && order[k] == i as usize;
        assert(is_hit(rows[order[k] as int].event@, wanted));
    }
}

/// A newer row ranks before an older one.
pub proof fn law_newer_rows_rank_first(
    rows: Seq<SearchRow>,
    wanted: Seq<Seq<char>>,
    order: Seq<usize>,
    a: int,
    b: int,
)
    requires
        is_ranking(order, rows, wanted, rows.len() as int),
        0 <= a < b < order.len(),
    ensures
        rows[order[a] as int].seq >= rows[order[b] as int].seq,
        order[a] != order[b],
{
    assert(ranks_before(rows, order[a] as int, order[b] as int));
}

/// A search means what it says: without a limit it asks for ten, never for more
/// than a hundred or fewer than one, and it starts where its token says. One
/// that looks for no word is refused.
pub proof fn law_searches_mean_what_they_say(
    term: Seq<char>,
    next_batch: Option<Seq<char>>,
    limit: Option<u64>,
)
    ensures
        search_page(term, next_batch, limit) is Ok <==> words(lowercase(term)).len() > 0 && (
        next_batch is Some ==> read_number(next_batch->0, usize::MAX as nat) is Some),
        search_page(term, next_batch, limit) matches Ok(p) ==> {
            &&& 1 <= p.1 <= 100
            &&& limit is None ==> p.1 == 10
            &&& limit matches Some(l) ==> (1 <= l <= 100 ==> p.1 == l) && (l > 100 ==> p.1 == 100)
            &&& next_batch is None ==> p.0 == 0
            &&& next_batch matches Some(t) ==> Some(p.0 as nat) == read_number(
                t,
                usize::MAX as nat,
            )
        },
{
}

/// A user is found where the term occurs in their ID or in their name, whatever
/// the case; nobody is found by an empty term.
pub proof fn law_users_are_found_by_id_and_name(
    a: Seq<DirectoryUser>,
    b: Seq<DirectoryUser>,
    x: DirectoryUser,
    term: Seq<char>,
)
    ensures
        matching_users(a + b, term) == matching_users(a, term) + matching_users(b, term),
        matching_users(seq![x], term) == (if term.len() > 0
            && (occurs_in(term, lowercase(x.user_id@)) || (x.displayname is Some
            && occurs_in(term, lowercase(x.displayname->0@)))) {
            seq![user_card(x)]
        } else {
            Seq::empty()
        }),
    decreases b.len(),
{
    reveal_with_fuel(matching_users, 2);
    assert(seq![x].drop_last() =~= Seq::<DirectoryUser>::empty());
    if b.len() == 0 {
        assert(a + b =~= a);
    } else {
        law_users_are_found_by_id_and_name(a, b.drop_last(), x, term);
        assert((a + b).drop_last() =~= a + b.drop_last());
        assert((a + b).last() == b.last());
    }

    assert(matching_users(a + b, term) =~= matching_users(a, term) + matching_users(b, term));
}

/// What is shown of a user who is found is who they are, and their name and
/// picture where they have them.
pub proof fn law_found_users_are_shown(u: DirectoryUser)
    ensures
        ({
            let c = user_card(u);
            &&& field(c, "user_id"@) == Some(JsonV::Str(u.user_id@))
            &&& u.displayname matches Some(n) ==> field(c, "display_name"@) == Some(JsonV::Str(n@))
            &&& u.displayname is None ==> field(c, "display_name"@) == Some(JsonV::Null)
            &&& u.avatar_url matches Some(a) ==> field(c, "avatar_url"@) == Some(JsonV::Str(a@))
            &&& u.avatar_url is None ==> field(c, "avatar_url"@) == Some(JsonV::Null)
        }),
{
    reveal_strlit("user_id");
    reveal_strlit("display_name");
    reveal_strlit("avatar_url");
    assert("user_id"@.len() == 7 && "display_name"@.len() == 12 && "avatar_url"@.len() == 10);
}

/// A search looks into those of the rooms asked for that the user has joined.
pub proof fn law_searches_stay_in_joined_rooms(
    a: Seq<Seq<char>>,
    b: Seq<Seq<char>>,
    x: Seq<char>,
    joined: Seq<Seq<char>>,
)
    ensures
        rooms_among(a + b, joined) == rooms_among(a, joined) + rooms_among(b, joined),
        rooms_among(seq![x], joined) == (if joined.contains(x) {
            seq![x]
        } else {
            Seq::empty()
        }),
    decreases b.len(),
{
    reveal_with_fuel(rooms_among, 2);
    assert(seq![x].drop_last() =~= Seq::<Seq<char>>::empty());
    if b.len() == 0 {
        assert(a + b =~= a);
    } else {
        law_searches_stay_in_joined_rooms(a, b.drop_last(), x, joined);
        assert((a + b).drop_last() =~= a + b.drop_last());
        assert((a + b).last() == b.last());
    }

    assert(rooms_among(a + b, joined) =~= rooms_among(a, joined) + rooms_among(b, joined));
}

/// A result is the event, with what was said before and behind it where there
/// was anything.
pub proof fn law_results_show_the_event(event: JsonV, before: Seq<JsonV>, after: Seq<JsonV>)
    ensures
        ({
            let r = result_json(event, before, after);
            &&& field(r, "result"@) == Some(event)
            &&& before.len() > 0 ==> field2(r, "context"@, "events_before"@) == Some(
                JsonV::Array(before),
            )
            &&& before.len() == 0 ==> field2(r, "context"@, "events_before"@) is None
            &&& after.len() > 0 ==> field2(r, "context"@, "events_after"@) == Some(
                JsonV::Array(after),
            )
            &&& after.len() == 0 ==> field2(r, "context"@, "events_after"@) is None
        }),
{
    reveal_strlit("rank");
    reveal_strlit("result");
    reveal_strlit("context");
    reveal_strlit("events_before");
    reveal_strlit("events_after");
    assert("rank"@.len() == 4 && "result"@.len() == 6 && "context"@.len() == 7
        && "events_before"@.len() == 13 && "events_after"@.len() == 12);
}

/// As much context is shown as was asked for, a hundred at most.
pub proof fn law_context_is_limited(
    asked: u64,
    r: usize,
)
    requires
        call_ensures(search_context, (asked,), r),
    ensures
        asked <= 100 ==> r == asked,
        asked > 100 ==> r == 100,
{
}

/// A search of the directory has a term; it asks for ten unless it says
/// otherwise, and a hundred at most.
pub proof fn law_directory_searches_have_a_term(
    body: &Vec<(String, Json)>,
    l: int,
    r: Result<(String, usize), ApiError>,
)
    requires
        call_ensures(user_directory, (body,), r),
    ensures
        r is Ok <==> (entry(fields_view(body@), "search_term"@) matches Some(JsonV::Str(_))),
        r matches Ok(p) ==> entry(fields_view(body@), "search_term"@) == Some(JsonV::Str(p.0@))
            && p.1 <= 100,
        r matches Ok(p) ==> (entry(fields_view(body@), "limit"@) == Some(JsonV::Int(l))
            && 0 <= l <= 100 ==> p.1 == l),
        r matches Ok(p) ==> (entry(fields_view(body@), "limit"@) is None ==> p.1 == 10),
        r matches Err(e) ==> e@.status == 400,
{
}

/// An answer to a search holds the results, how many there are, and a token
/// where there are more.
pub proof fn law_search_answers_hold_the_results(
    count: u64,
    next_batch: Option<String>,
    results: Vec<Json>,
    r: Json,
)
    requires
        call_ensures(search_answer, (count, next_batch, results), r),
    ensures
        field2(r@, "search_categories"@, "room_events"@) matches Some(j)
            && field(j, "results"@) == Some(
            JsonV::Array(items_view(results@)),
        ) && (count < MAX_COUNT ==> field(j, "count"@) == Some(JsonV::Int(count as int))) && field(
            j,
            "next_batch"@,
        ) == (match next_batch {
            Some(t) => Some(JsonV::Str(t@)),
            None => None,
        }),
{
    reveal_strlit("count");
    reveal_strlit("next_batch");
    reveal_strlit("results");
    assert("count"@.len() == 5 && "next_batch"@.len() == 10 && "results"@.len() == 7);
}

/// Without a list a search looks into every room that the user has joined.
pub proof fn law_searches_ask_joined_rooms_by_default(
    asked: Option<Vec<String>>,
    joined: &Vec<String>,
    i: int,
    r: Vec<String>,
)
    requires
        call_ensures(search_scope, (asked, joined), r),
    ensures
        asked is None ==> texts(r@) == texts(joined@),
        0 <= i < r@.len() ==> texts(joined@).contains(r@[i]@),
{
    if 0 <= i < r@.len() {
        assert(texts(r@)[i] == r@[i]@);
        match asked {
            Some(rooms) => {
                lemma_all_joined(texts(rooms@), texts(joined@), i);
            },
            None => {
                assert(texts(joined@)[i] == texts(r@)[i]);
            },
        }
    }
}

proof fn lemma_all_joined(rooms: Seq<Seq<char>>, joined: Seq<Seq<char>>, i: int)
    requires
        0 <= i < rooms_among(rooms, joined).len(),
    ensures
        joined.contains(rooms_among(rooms, joined)[i]),
    decreases rooms.len(),
{
    let init = rooms_among(rooms.drop_last(), joined);
    if i < init.len() {
        lemma_all_joined(rooms.drop_last(), joined, i);
    }
}

/// A user sees whoever is in one of the rooms, but for themselves.
pub proof fn law_users_in_shared_rooms_are_seen(
    rooms: &Vec<Vec<String>>,
    me: &str,
    i: int,
    j: int,
    r: Vec<String>,
)
    requires
        call_ensures(visible_users, (rooms, me), r),
    ensures
        0 <= i < rooms@.len() && 0 <= j < rooms@[i]@.len() && rooms@[i]@[j]@ != me@
            ==> texts(r@).contains(rooms@[i]@[j]@),
        !texts(r@).contains(me@),
{
    if 0 <= i < rooms@.len() && 0 <= j < rooms@[i]@.len() {
        let u = rooms@[i]@[j]@;
        assert(texts(rooms@[i]@)[j] == u);
        assert(in_some_room(rooms@, u));
    }
}

} // verus!

//! Media: previews, uploads, downloads and thumbnails.
use crate::decimal::{parse_u64, read_number};
use crate::error::{api_error, forbidden, invalid_param, not_found, outcome, ApiError, ApiErrorV};
use crate::ids::{is_server_name, server_name_ok};
use crate::json::{field, fields_view, get, no_fields, object_of, one_field, put_str, text_json, Json, JsonV};
use crate::percent::{from_utf8_lossy, lossy_text};
use crate::push_gateway::with_text;
use crate::text::{ascii_lower, begins_with, chars_of, find_char, find_char_from, find_chars, find_from, join_texts,
    lemma_find_char, lemma_find_char_at, lemma_find_from, lemma_split_nonempty, lower_chars,
        opt_str, opt_text,
        query_get, query_value, same_text,
    split, split_on, starts_with, string_of_range, texts, to_ascii_lower, trim, trimmed};
use vstd::prelude::*;
use vstd::string::StringExecFns;

verus! {

// -- URL previews -------------------------------------------------------------

/// The value of a quoted attribute in a tag: behind the first `attr=`, between
/// two quotation marks of one kind.
pub open spec fn attr_value(tag: Seq<char>, attr: Seq<char>) -> Option<Seq<char>> {
    match find_from(ascii_lower(tag), attr.push('='), 0) {
        Some(k) => {
            let at = k + attr.len() + 1;
            if at < tag.len() && (tag[at] == '"' || tag[at] == '\'') {
                match find_char_from(tag, tag[at], at + 1) {
                    Some(end) => Some(tag.subrange(at + 1, end)),
                    None => None,
                }
            } else {
                None
            }
        },
        None => None,
    }
}

/// The OpenGraph pair that a `<meta` tag holds.
pub open spec fn og_pair(tag: Seq<char>) -> Option<(Seq<char>, Seq<char>)> {
    let property = match attr_value(tag, "property"@) {
        Some(p) => Some(p),
        None => attr_value(tag, "name"@),
    };
    match (property, attr_value(tag, "content"@)) {
        (Some(p), Some(c)) => if begins_with(p, "og:"@) {
            Some((p, c))
        } else {
            None
        },
        _ => None,
    }
}

/// The OpenGraph pairs of a page from position `at` on, in document order. A
/// tag runs from `<meta` to the next `>`.
pub open spec fn og_pairs(html: Seq<char>, at: int) -> Seq<(Seq<char>, Seq<char>)>
    decreases html.len() - at,
{
    let lower = ascii_lower(html);
    match find_from(lower, "<meta"@, at) {
        Some(start) => match find_char_from(lower, '>', start) {
            Some(end) => {
                let tail = if at < end <= html.len() {
                    og_pairs(html, end)
                } else {
                    Seq::empty()
                };
                match og_pair(html.subrange(start, end)) {
                    Some(p) => seq![p] + tail,
                    None => tail,
                }
            },
            None => Seq::empty(),
        },
        None => Seq::empty(),
    }
}

proof fn lemma_find_shift(a: Seq<char>, b: Seq<char>, pat: Seq<char>, i: int)
    requires
        0 <= i,
    ensures
        find_from(a + b, pat, a.len() + i) == (match find_from(b, pat, i) {
            Some(k) => Some(k + a.len()),
            None => None,
        }),
    decreases b.len() - i + 1,
{
    if i + pat.len() <= b.len() {
        let n = a.len() + i;
        assert((a + b).subrange(n, n + pat.len()) =~= b.subrange(i, i + pat.len()));
        lemma_find_shift(a, b, pat, i + 1);
    }
}

proof fn lemma_find_char_shift(a: Seq<char>, b: Seq<char>, c: char, i: int)
    requires
        0 <= i,
    ensures
        find_char_from(a + b, c, a.len() + i) == (match find_char_from(b, c, i) {
            Some(k) => Some(k + a.len()),
            None => None,
        }),
    decreases b.len() - i,
{
    if i < b.len() {
        assert((a + b)[a.len() + i] == b[i]);
        lemma_find_char_shift(a, b, c, i + 1);
    }
}

/// A text whose last character the pattern does not hold is searched on its own.
proof fn lemma_find_head(a: Seq<char>, b: Seq<char>, pat: Seq<char>, i: int)
    requires
        0 <= i <= a.len(),
        a.len() > 0,
        pat.len() > 0,
        !pat.contains(a.last()),
    ensures
        find_from(a + b, pat, i) == (match find_from(a, pat, i) {
            Some(k) => Some(k),
            None => find_from(a + b, pat, a.len() as int),
        }),
    decreases a.len() - i,
{
    let s = a + b;
    if i < a.len() {
        lemma_find_head(a, b, pat, i + 1);
        if i + pat.len() <= a.len() {
            assert(s.subrange(i, i + pat.len()) =~= a.subrange(i, i + pat.len()));
        } else if i + pat.len() <= s.len() {
            let w = s.subrange(i, i + pat.len());
            assert(w[a.len() - 1 - i] == a.last());
            assert(w.contains(a.last()));
        }
    }
}

proof fn lemma_find_char_head(a: Seq<char>, b: Seq<char>, i: int)
    requires
        0 <= i < a.len(),
    ensures
        find_char_from(a + b, a.last(), i) == find_char_from(a, a.last(), i),
        find_char_from(a, a.last(), i) matches Some(k) && i <= k < a.len(),
    decreases a.len() - i,
{
    assert((a + b)[i] == a[i]);
    if a[i] != a.last() {
        lemma_find_char_head(a, b, i + 1);
    }
}

proof fn lemma_og_shift(a: Seq<char>, b: Seq<char>, at: int)
    requires
        0 <= at,
    ensures
        og_pairs(a + b, a.len() + at) == og_pairs(b, at),
    decreases b.len() - at,
{
    let s = a + b;
    let n = a.len() as int;
    let low = ascii_lower(b);
    reveal_strlit("<meta");
    assert(ascii_lower(s) =~= ascii_lower(a) + low);
    lemma_find_shift(ascii_lower(a), low, "<meta"@, at);
    lemma_find_from(low, "<meta"@, at);
    match find_from(low, "<meta"@, at) {
        Some(start) => {
            lemma_find_char_shift(ascii_lower(a), low, '>', start);
            lemma_find_char(low, '>', start);
            match find_char_from(low, '>', start) {
                Some(end) => {
                    assert(s.subrange(n + start, n + end) =~= b.subrange(start, end));
                    assert(low.subrange(start, start + 5)[0] == low[start]);
                    lemma_og_shift(a, b, end);
                },
                None => {},
            }
        },
        None => {},
    }
}

proof fn lemma_og_head(a: Seq<char>, b: Seq<char>, at: int)
    requires
        a.len() > 0,
        a.last() == '>',
        0 <= at <= a.len(),
    ensures
        og_pairs(a + b, at) == og_pairs(a, at) + og_pairs(a + b, a.len() as int),
    decreases a.len() - at,
{
    let s = a + b;
    let n = a.len() as int;
    let low = ascii_lower(a);
    let rest = og_pairs(s, n);
    reveal_strlit("<meta");
    assert(ascii_lower(s) =~= low + ascii_lower(b));
    assert(low.last() == '>');
    assert(!"<meta"@.contains('>')) by {
        assert("<meta"@ =~= seq!['<', 'm', 'e', 't', 'a']);
    }
    lemma_find_head(low, ascii_lower(b), "<meta"@, at);
    lemma_find_from(low, "<meta"@, at);
    match find_from(low, "<meta"@, at) {
        Some(start) => {
            lemma_find_char_head(low, ascii_lower(b), start);
            lemma_find_char(low, '>', start);
            let end = find_char_from(low, '>', start)->0;
            assert(low.subrange(start, start + 5)[0] == low[start]);
            assert(start < end < n);
            assert(s.subrange(start, end) =~= a.subrange(start, end));
            lemma_og_head(a, b, end);
            let tail = og_pairs(a, end);
            match og_pair(a.subrange(start, end)) {
                Some(p) => {
                    assert(seq![p] + (tail + rest) =~= (seq![p] + tail) + rest);
                },
                None => {},
            }
        },
        None => {
            lemma_find_from(ascii_lower(s), "<meta"@, n);
            match find_from(ascii_lower(s), "<meta"@, n) {
                Some(start) => {
                    lemma_find_char(ascii_lower(s), '>', start);
                    assert(ascii_lower(s).subrange(start, start + 5)[0] == ascii_lower(s)[start]);
                },
                None => {},
            }
            assert(og_pairs(a, at) + rest =~= rest);
        },
    }
}

/// The pairs of a page are in document order: those of what ends with a tag, and
/// then those of what follows it, repeated properties and all.
pub proof fn law_og_pairs_join_up(a: Seq<char>, b: Seq<char>)
    requires
        a.len() > 0,
        a.last() == '>',
    ensures
        og_pairs(a + b, 0) == og_pairs(a, 0) + og_pairs(b, 0),
{
    lemma_og_head(a, b, 0);
    lemma_og_shift(a, b, 0);
}

/// Every property is an OpenGraph one.
pub proof fn law_properties_are_og(html: Seq<char>, at: int, i: int)
    requires
        0 <= i < og_pairs(html, at).len(),
    ensures
        begins_with(og_pairs(html, at)[i].0, "og:"@),
    decreases html.len() - at,
{
    let lower = ascii_lower(html);
    match find_from(lower, "<meta"@, at) {
        Some(start) => match find_char_from(lower, '>', start) {
            Some(end) => {
                let first = og_pair(html.subrange(start, end)) is Some;
                if at < end <= html.len() && !(first && i == 0) {
                    law_properties_are_og(
                        html,
                        end,
                        if first {
                            i - 1
                        } else {
                            i
                        },
                    );
                }
            },
            None => {},
        },
        None => {},
    }
}

/// The texts of a list of pairs.
pub open spec fn pair_texts(v: Seq<(String, String)>) -> Seq<(Seq<char>, Seq<char>)> {
    v.map_values(|p: (String, String)| (p.0@, p.1@))
}

/// One quoted attribute value out of a tag snippet.
pub fn meta_attr(tag: &str, attr: &str) -> (r: Option<String>)
    ensures
        r is Some <==> attr_value(tag@, attr@) is Some,
        r matches Some(v) ==> attr_value(tag@, attr@) == Some(v@),
{
    let chars = chars_of(tag);
    let low = lower_chars(chars.as_slice());
    let mut pat = chars_of(attr);
    pat.push('=');
    proof {
        lemma_find_from(low@, pat@, 0);
        assert(pat@ =~= attr@.push('='));
    }
    let n = chars.len();
    let k = match find_chars(low.as_slice(), pat.as_slice(), 0) {
        Some(k) => k,
        None => {
            return None;
        },
    };
    let at = k + pat.len();
    if at >= n {
        return None;
    }
    let quote = chars[at];
    if quote != '"' && quote != '\'' {
        return None;
    }
    match find_char(chars.as_slice(), quote, at + 1) {
        Some(end) => Some(string_of_range(chars.as_slice(), at + 1, end)),
        None => None,
    }
}

/// OpenGraph `<meta property="og:..." content="...">` pairs, in document
/// order. A hand parser is enough here: og tags sit in well-formed heads,
/// and a wrong parse only degrades the preview.
pub fn og_tags(html: &str) -> (r: Vec<(String, String)>)
    ensures
        pair_texts(r@) == og_pairs(html@, 0),
{
    let chars = chars_of(html);
    let low = lower_chars(chars.as_slice());
    let pat = chars_of("<meta");
    let mut out: Vec<(String, String)> = Vec::new();
    let mut at: usize = 0;
    proof {
        reveal_strlit("<meta");
        assert(pair_texts(out@) + og_pairs(html@, 0) =~= og_pairs(html@, 0));
    }
    let n = chars.len();
    loop
        invariant
            chars@ == html@,
            n == chars.len(),
            low@ == ascii_lower(html@),
            pat@ == "<meta"@,
            "<meta"@.len() == 5,
            "<meta"@[0] == '<',
            at <= n,
            pair_texts(out@) + og_pairs(html@, at as int) == og_pairs(html@, 0),
        decreases n - at,
    {
        let start = match find_chars(low.as_slice(), pat.as_slice(), at) {
            Some(k) => k,
            None => {
                proof {
                    assert(pair_texts(out@) =~= og_pairs(html@, 0));
                }
                return out;
            },
        };
        proof {
            lemma_find_from(low@, pat@, at as int);
            assert(low@.subrange(start as int, start + 5)[0] == low@[start as int]);
            lemma_find_char(low@, '>', start as int);
        }
        let end = match find_char(low.as_slice(), '>', start) {
            Some(k) => k,
            None => {
                proof {
                    assert(pair_texts(out@) =~= og_pairs(html@, 0));
                }
                return out;
            },
        };
        let tag = string_of_range(chars.as_slice(), start, end);
        let property = match meta_attr(tag.as_str(), "property") {
            Some(p) => Some(p),
            None => meta_attr(tag.as_str(), "name"),
        };
        let content = meta_attr(tag.as_str(), "content");
        let ghost before = pair_texts(out@);
        let ghost tail = og_pairs(html@, end as int);
        match (property, content) {
            (Some(p), Some(c)) => {
                if starts_with(p.as_str(), "og:") {
                    let ghost pair = (p@, c@);
                    out.push((p, c));
                    proof {
                        assert(pair_texts(out@) =~= before.push(pair));
                        assert(before.push(pair) + tail =~= before + (seq![pair] + tail));
                    }
                }
            },
            _ => {},
        }
        at = end;
    }
}

/// The title of a page.
pub open spec fn title_of(html: Seq<char>) -> Option<Seq<char>> {
    let lower = ascii_lower(html);
    match find_from(lower, "<title>"@, 0) {
        Some(k) => match find_from(lower, "</title>"@, k + 7) {
            Some(end) => Some(trimmed(html.subrange(k + 7, end))),
            None => None,
        },
        None => None,
    }
}

/// The text of the page's title element.
pub fn html_title(html: &str) -> (r: Option<String>)
    ensures
        r is Some <==> title_of(html@) is Some,
        r matches Some(t) ==> title_of(html@) == Some(t@),
{
    let chars = chars_of(html);
    let low = lower_chars(chars.as_slice());
    let open_tag = chars_of("<title>");
    let close_tag = chars_of("</title>");
    let n = chars.len();
    proof {
        reveal_strlit("<title>");
        reveal_strlit("</title>");
    }
    let start = match find_chars(low.as_slice(), open_tag.as_slice(), 0) {
        Some(k) => k + open_tag.len(),
        None => {
            return None;
        },
    };
    match find_chars(low.as_slice(), close_tag.as_slice(), start) {
        Some(end) => {
            let inner = string_of_range(chars.as_slice(), start, end);
            Some(trim(inner.as_str()))
        },
        None => None,
    }
}

/// The first bytes of every PNG file.
pub open spec fn png_signature() -> Seq<u8> {
    seq![0x89u8, 0x50u8, 0x4eu8, 0x47u8, 0x0du8, 0x0au8, 0x1au8, 0x0au8]
}

/// The name of the header chunk.
pub open spec fn ihdr() -> Seq<u8> {
    seq![0x49u8, 0x48u8, 0x44u8, 0x52u8]
}

/// The value of four bytes, highest first.
pub open spec fn be_u32(b: Seq<u8>) -> int
    recommends
        b.len() == 4,
{
    b[0] * 0x1000000 + b[1] * 0x10000 + b[2] * 0x100 + b[3]
}

/// The width and height in a PNG header.
pub open spec fn png_size(b: Seq<u8>) -> Option<(int, int)> {
    if b.len() >= 24 && b.take(8) == png_signature() && b.subrange(12, 16) == ihdr() {
        Some((be_u32(b.subrange(16, 20)), be_u32(b.subrange(20, 24))))
    } else {
        None
    }
}

fn read_be_u32(b: &[u8], at: usize) -> (r: u32)
    requires
        at + 4 <= b.len(),
    ensures
        r == be_u32(b@.subrange(at as int, at + 4)),
{
    let w: u64 = (b[at] as u64) * 0x1000000 + (b[at + 1] as u64) * 0x10000 + (b[at + 2] as u64)
        * 0x100 + (b[at + 3] as u64);
    w as u32
}

/// Width/height from a PNG IHDR (the only format the preview sizes;
/// other images still get cached and measured by byte size).
pub fn png_dimensions(bytes: &[u8]) -> (r: Option<(u32, u32)>)
    ensures
        r is Some <==> png_size(bytes@) is Some,
        r matches Some(d) ==> png_size(bytes@) == Some((d.0 as int, d.1 as int)),
{
    if bytes.len() < 24 {
        return None;
    }
    let signed = bytes[0] == 0x89 && bytes[1] == 0x50 && bytes[2] == 0x4e && bytes[3] == 0x47
        && bytes[4] == 0x0d && bytes[5] == 0x0a && bytes[6] == 0x1a && bytes[7] == 0x0a;
    let header = bytes[12] == 0x49 && bytes[13] == 0x48 && bytes[14] == 0x44 && bytes[15] == 0x52;
    proof {
        let t = bytes@.take(8);
        let h = bytes@.subrange(12, 16);
        if signed {
            assert(t =~= png_signature());
        }
        if t == png_signature() {
            assert(forall|i: int| 0 <= i < 8 ==> bytes@[i] == #[trigger] t[i]);
            assert(bytes@[0] == t[0] && bytes@[1] == t[1] && bytes@[2] == t[2] && bytes@[3] == t[3]
                && bytes@[4] == t[4] && bytes@[5] == t[5] && bytes@[6] == t[6] && bytes@[7] == t[7]);
        }
        if header {
            assert(h =~= ihdr());
        }
        if h == ihdr() {
            assert(bytes@[12] == h[0] && bytes@[13] == h[1] && bytes@[14] == h[2] && bytes@[15]
                == h[3]);
        }
    }
    if !signed || !header {
        return None;
    }
    Some((read_be_u32(bytes, 16), read_be_u32(bytes, 20)))
}

/// The essence of a content type: what stands before its parameters, in lower
/// case and without surrounding space.
pub open spec fn media_essence(content_type: Seq<char>) -> Seq<char> {
    ascii_lower(trimmed(split_on(content_type, ';')[0]))
}

/// Whether content of a type may be shown in place rather than downloaded.
pub open spec fn safe_inline(content_type: Seq<char>) -> bool {
    let ct = media_essence(content_type);
    ||| ct == "text/plain"@
    ||| ct == "application/pdf"@
    ||| begins_with(ct, "audio/"@)
    ||| begins_with(ct, "video/"@)
    ||| (begins_with(ct, "image/"@) && ct != "image/svg+xml"@)
}

/// May content of this type be shown in place? Only types that cannot run
/// script in the page's origin.
pub fn inline_safe(content_type: &str) -> (r: bool)
    ensures
        r == safe_inline(content_type@),
{
    let parts = crate::text::split(content_type, ';');
    proof {
        crate::text::lemma_split_nonempty(content_type@, ';');
        assert(crate::text::texts(parts@)[0] == parts@[0]@);
    }
    let ct = to_ascii_lower(trim(parts[0].as_str()).as_str());
    let ct = ct.as_str();
    same_text(ct, "text/plain") || same_text(ct, "application/pdf") || starts_with(ct, "audio/")
        || starts_with(ct, "video/") || (starts_with(ct, "image/") && !same_text(
        ct,
        "image/svg+xml",
    ))
}

// -- fetching a preview -------------------------------------------------------

/// Page and image reads are capped here.
pub const PREVIEW_MAX_BYTES: usize = 10_485_760;

/// The scheme of a URL, where it parses.
pub uninterp spec fn parsed_scheme(url: Seq<char>) -> Option<Seq<char>>;

/// `reqwest::Url::parse`, then `scheme`: the scheme of a URL that parses. Which
/// texts parse is named and not stated.
#[verifier::external_body]
pub(crate) fn url_scheme(url: &str) -> (r: Option<String>)
    ensures
        opt_text(r) == parsed_scheme(url@),
{
    reqwest::Url::parse(url).ok().map(|u| u.scheme().to_owned())
}

/// A URL resolved against another.
pub uninterp spec fn joined_url(base: Seq<char>, input: Seq<char>) -> Option<Seq<char>>;

/// `reqwest::Url::parse` of the base, then `join`, written out: nothing where
/// one of them fails. How a URL is resolved is named and not stated.
#[verifier::external_body]
fn join_url(base: &str, input: &str) -> (r: Option<String>)
    ensures
        opt_text(r) == joined_url(base@, input@),
{
    reqwest::Url::parse(base).ok()?.join(input).ok().map(|u| u.to_string())
}

pub open spec fn is_web(scheme: Seq<char>) -> bool {
    scheme == "http"@ || scheme == "https"@
}

/// The page that a preview is asked of, given the scheme that its URL has.
pub open spec fn preview_target(url: Option<Seq<char>>, scheme: Option<Seq<char>>) -> Result<
    Seq<char>,
    ApiErrorV,
> {
    match url {
        None => Err(invalid_param("url: required parameter is missing"@)),
        Some(u) => match scheme {
            None => Err(invalid_param("url: not a valid URL"@)),
            Some(s) => if is_web(s) {
                Ok(u)
            } else {
                Err(invalid_param("url: unsupported scheme"@))
            },
        },
    }
}

/// Decides on a preview once the scheme of its URL is known.
pub fn check_preview_url(url: Option<&str>, scheme: Option<&str>) -> (r: Result<String, ApiError>)
    ensures
        match preview_target(
            match url {
                Some(u) => Some(u@),
                None => None,
            },
            match scheme {
                Some(s) => Some(s@),
                None => None,
            },
        ) {
            Ok(u) => r matches Ok(s) && s@ == u,
            Err(x) => r matches Err(e) && e@ == x,
        },
{
    let u = match url {
        Some(u) => u,
        None => {
            return Err(ApiError::invalid_param("url: required parameter is missing"));
        },
    };
    match scheme {
        None => Err(ApiError::invalid_param("url: not a valid URL")),
        Some(s) => if same_text(s, "http") || same_text(s, "https") {
            Ok(u.to_owned())
        } else {
            Err(ApiError::invalid_param("url: unsupported scheme"))
        },
    }
}

/// The page that a preview is asked of.
pub fn parse_preview_url(q: &Vec<(String, String)>) -> (r: Result<String, ApiError>)
    ensures
        match preview_target(
            query_value(q@, "url"@),
            match query_value(q@, "url"@) {
                Some(u) => parsed_scheme(u),
                None => None,
            },
        ) {
            Ok(u) => r matches Ok(s) && s@ == u,
            Err(x) => r matches Err(e) && e@ == x,
        },
{
    match query_get(q, "url") {
        Some(u) => {
            let scheme = url_scheme(u.as_str());
            match scheme {
                Some(s) => check_preview_url(Some(u.as_str()), Some(s.as_str())),
                None => check_preview_url(Some(u.as_str()), None),
            }
        },
        None => check_preview_url(None, None),
    }
}

/// The type of a fetched page, without its parameters.
pub open spec fn fetched_type(header: Option<Seq<char>>) -> Option<Seq<char>> {
    match header {
        Some(h) => Some(trimmed(split_on(h, ';')[0])),
        None => None,
    }
}

pub open spec fn is_type(content_type: Option<Seq<char>>, prefix: Seq<char>) -> bool {
    content_type matches Some(c) && begins_with(c, prefix)
}

pub open spec fn too_large() -> ApiErrorV {
    api_error(502, "M_TOO_LARGE"@, "preview target too large"@)
}

/// What the head of an answer tells of a fetched page, or why it is not read.
/// An image target must be an image, so that it cannot be turned into a reader
/// of arbitrary answers.
pub open spec fn fetched_head(
    success: bool,
    status: Seq<char>,
    header: Option<Seq<char>>,
    require_image: bool,
    length: Option<u64>,
) -> Result<Option<Seq<char>>, ApiErrorV> {
    if !success {
        Err(api_error(502, "M_UNKNOWN"@, "preview fetch failed: HTTP "@ + status))
    } else if require_image && !is_type(fetched_type(header), "image/"@) {
        Err(api_error(502, "M_UNKNOWN"@, "og:image target is not an image"@))
    } else if length matches Some(n) && n > PREVIEW_MAX_BYTES {
        Err(too_large())
    } else {
        Ok(fetched_type(header))
    }
}

/// The type of a fetched page, or why it is not read.
pub fn preview_fetch(
    success: bool,
    status: &str,
    header: Option<&str>,
    require_image: bool,
    length: Option<u64>,
) -> (r: Result<Option<String>, ApiError>)
    ensures
        match fetched_head(
            success,
            status@,
            match header {
                Some(h) => Some(h@),
                None => None,
            },
            require_image,
            length,
        ) {
            Ok(t) => r matches Ok(o) && opt_text(o) == t,
            Err(x) => r matches Err(e) && e@ == x,
        },
{
    if !success {
        let message = join_texts("preview fetch failed: HTTP ", status);
        return Err(ApiError::new(502, "M_UNKNOWN", message.as_str()));
    }
    let content_type = match header {
        Some(h) => {
            let parts = split(h, ';');
            proof {
                lemma_split_nonempty(h@, ';');
                assert(texts(parts@)[0] == parts@[0]@);
            }
            Some(trim(parts[0].as_str()))
        },
        None => None,
    };
    let image = match &content_type {
        Some(c) => starts_with(c.as_str(), "image/"),
        None => false,
    };
    if require_image && !image {
        return Err(ApiError::new(502, "M_UNKNOWN", "og:image target is not an image"));
    }
    match length {
        Some(n) => {
            if n > PREVIEW_MAX_BYTES as u64 {
                return Err(ApiError::new(502, "M_TOO_LARGE", "preview target too large"));
            }
        },
        None => {},
    }
    Ok(content_type)
}

/// The error of a page that could not be fetched.
pub fn preview_failed(fault: &str) -> (r: ApiError)
    ensures
        r@ == api_error(502, "M_UNKNOWN"@, "preview fetch failed: "@ + fault@),
{
    let message = join_texts("preview fetch failed: ", fault);
    ApiError::new(502, "M_UNKNOWN", message.as_str())
}

/// Takes in one more chunk of a page. The cap is kept while streaming: a
/// declared length can lie or be absent.
pub fn extend_capped(bytes: Vec<u8>, chunk: &[u8]) -> (r: Result<Vec<u8>, ApiError>)
    requires
        bytes@.len() <= PREVIEW_MAX_BYTES,
    ensures
        if bytes@.len() + chunk@.len() > PREVIEW_MAX_BYTES {
            r matches Err(e) && e@ == too_large()
        } else {
            r matches Ok(b) && b@ == bytes@ + chunk@
        },
{
    if chunk.len() > PREVIEW_MAX_BYTES - bytes.len() {
        return Err(ApiError::new(502, "M_TOO_LARGE", "preview target too large"));
    }
    let mut out = bytes;
    out.extend_from_slice(chunk);
    proof {
        assert(out@ =~= bytes@ + chunk@);
    }
    Ok(out)
}

// -- assembling a preview -----------------------------------------------------

/// The properties of a page but its image, later ones replacing earlier ones.
pub open spec fn og_fields(pairs: Seq<(Seq<char>, Seq<char>)>) -> Map<Seq<char>, JsonV>
    decreases pairs.len(),
{
    if pairs.len() == 0 {
        no_fields()
    } else {
        let init = og_fields(pairs.drop_last());
        if pairs.last().0 == "og:image"@ {
            init
        } else {
            init.insert(pairs.last().0, JsonV::Str(pairs.last().1))
        }
    }
}

/// The image of a page: the last one that it names.
pub open spec fn og_image(pairs: Seq<(Seq<char>, Seq<char>)>) -> Option<Seq<char>>
    decreases pairs.len(),
{
    if pairs.len() == 0 {
        None
    } else if pairs.last().0 == "og:image"@ {
        Some(pairs.last().1)
    } else {
        og_image(pairs.drop_last())
    }
}

/// What a page tells of itself: its properties, with its title where it gives
/// no other, and its image.
#[derive(Debug)]
pub struct PagePreview {
    pub fields: Vec<(String, Json)>,
    pub image: Option<String>,
}

/// The properties of a page.
pub open spec fn page_fields(html: Seq<char>) -> Map<Seq<char>, JsonV> {
    let m = og_fields(og_pairs(html, 0));
    if m.dom().contains("og:title"@) {
        m
    } else {
        match title_of(html) {
            Some(t) => m.insert("og:title"@, JsonV::Str(t)),
            None => m,
        }
    }
}

fn read_page(html: &str) -> (r: PagePreview)
    ensures
        fields_view(r.fields@) == page_fields(html@),
        opt_text(r.image) == og_image(og_pairs(html@, 0)),
{
    let tags = og_tags(html);
    let ghost pairs = pair_texts(tags@);
    let mut fields: Vec<(String, Json)> = Vec::new();
    let mut image: Option<String> = None;
    let mut i: usize = 0;
    while i < tags.len()
        invariant
            i <= tags.len(),
            pairs == pair_texts(tags@),
            fields_view(fields@) == og_fields(pairs.take(i as int)),
            opt_text(image) == og_image(pairs.take(i as int)),
        decreases tags.len() - i,
    {
        proof {
            assert(pairs.take(i + 1).drop_last() =~= pairs.take(i as int));
            assert(pairs.take(i + 1).last() == (tags@[i as int].0@, tags@[i as int].1@));
        }
        if same_text(tags[i].0.as_str(), "og:image") {
            image = Some(tags[i].1.as_str().to_owned());
        } else {
            put_str(&mut fields, tags[i].0.as_str(), text_json(tags[i].1.as_str()));
        }
        i += 1;
    }
    proof {
        assert(pairs.take(pairs.len() as int) =~= pairs);
    }
    if get(&fields, "og:title").is_none() {
        match html_title(html) {
            Some(t) => {
                put_str(&mut fields, "og:title", Json::Str(t));
            },
            None => {},
        }
    }
    PagePreview { fields, image }
}

/// Reads a fetched page: the properties of an HTML page, or the page itself
/// where it is an image.
pub fn page_preview(content_type: Option<&str>, body: &[u8], url: &str) -> (r: PagePreview)
    ensures
        ({
            let ct = match content_type {
                Some(c) => Some(c@),
                None => None,
            };
            if is_type(ct, "text/html"@) {
                let html = lossy_text(body@);
                &&& fields_view(r.fields@) == page_fields(html)
                &&& opt_text(r.image) == og_image(og_pairs(html, 0))
            } else {
                &&& r.fields@.len() == 0
                &&& opt_text(r.image) == (if is_type(ct, "image/"@) {
                    Some(url@)
                } else {
                    None
                })
            }
        }),
{
    let html = match content_type {
        Some(c) => starts_with(c, "text/html"),
        None => false,
    };
    if html {
        return read_page(from_utf8_lossy(body).as_str());
    }
    let image = match content_type {
        Some(c) => if starts_with(c, "image/") {
            Some(url.to_owned())
        } else {
            None
        },
        None => None,
    };
    PagePreview { fields: Vec::new(), image }
}

/// Where the image of a page is, as far as that can be told.
pub fn image_address(page_url: &str, image: Option<&str>) -> (r: Option<String>)
    ensures
        opt_text(r) == (match image {
            Some(i) => joined_url(page_url@, i@),
            None => None,
        }),
{
    match image {
        Some(i) => join_url(page_url, i),
        None => None,
    }
}

/// A preview with its image.
pub open spec fn with_image(
    m: Map<Seq<char>, JsonV>,
    bytes: Seq<u8>,
    image_type: Option<Seq<char>>,
    uri: Seq<char>,
) -> Map<Seq<char>, JsonV> {
    let sized = match png_size(bytes) {
        Some((w, h)) => m.insert("og:image:width"@, JsonV::Int(w)).insert(
            "og:image:height"@,
            JsonV::Int(h),
        ),
        None => m,
    };
    let weighed = sized.insert("matrix:image:size"@, JsonV::Int(bytes.len() as int));
    with_text(weighed, "og:image:type"@, image_type).insert("og:image"@, JsonV::Str(uri))
}

/// A preview with its image, which is served from here: clients must never
/// fetch the address that the page gave.
pub fn add_image(
    fields: Vec<(String, Json)>,
    bytes: &[u8],
    image_type: Option<&str>,
    uri: &str,
) -> (r: Json)
    ensures
        r@ == JsonV::Object(
            with_image(
                fields_view(fields@),
                bytes@,
                match image_type {
                    Some(t) => Some(t@),
                    None => None,
                },
                uri@,
            ),
        ),
{
    let mut m = fields;
    match png_dimensions(bytes) {
        Some((w, h)) => {
            put_str(&mut m, "og:image:width", Json::Int(w as i128));
            put_str(&mut m, "og:image:height", Json::Int(h as i128));
        },
        None => {},
    }
    put_str(&mut m, "matrix:image:size", Json::Int(bytes.len() as i128));
    match image_type {
        Some(t) => {
            put_str(&mut m, "og:image:type", text_json(t));
        },
        None => {},
    }
    put_str(&mut m, "og:image", text_json(uri));
    Json::Object(m)
}

proof fn lemma_no_image(pairs: Seq<(Seq<char>, Seq<char>)>)
    ensures
        !og_fields(pairs).dom().contains("og:image"@),
    decreases pairs.len(),
{
    if pairs.len() > 0 {
        lemma_no_image(pairs.drop_last());
    }
}

/// The address that a page gives for its image never reaches a client: a
/// preview has no image but one that was stored here.
pub proof fn law_previews_hide_image_addresses(
    html: Seq<char>,
    bytes: Seq<u8>,
    image_type: Option<Seq<char>>,
    uri: Seq<char>,
)
    ensures
        !page_fields(html).dom().contains("og:image"@),
        with_image(page_fields(html), bytes, image_type, uri)["og:image"@] == JsonV::Str(uri),
{
    reveal_strlit("og:title");
    reveal_strlit("og:image");
    assert("og:title"@[3] == 't' && "og:image"@[3] == 'i');
    lemma_no_image(og_pairs(html, 0));
}

// -- uploads ------------------------------------------------------------------

/// The character that stands for six bits.
pub open spec fn sextet_char(n: int) -> char {
    if n < 26 {
        (65 + n) as char
    } else if n < 52 {
        (71 + n) as char
    } else if n < 62 {
        (n - 4) as char
    } else if n == 62 {
        '-'
    } else {
        '_'
    }
}

/// Bytes in the URL-safe base-64 alphabet, four characters for each three
/// bytes.
pub open spec fn base64_url(b: Seq<u8>) -> Seq<char>
    decreases b.len(),
{
    if b.len() < 3 {
        Seq::empty()
    } else {
        let n = b.len() as int;
        let v = b[n - 3] * 65536 + b[n - 2] * 256 + b[n - 1];
        base64_url(b.take(n - 3)) + seq![
            sextet_char(v / 262144),
            sextet_char(v / 4096 % 64),
            sextet_char(v / 64 % 64),
            sextet_char(v % 64),
        ]
    }
}

/// `base64::engine::general_purpose::URL_SAFE_NO_PAD.encode`, on whole groups of
/// three bytes: each becomes four characters of the URL-safe alphabet.
#[verifier::external_body]
fn encode_base64(bytes: &[u8]) -> (r: String)
    requires
        bytes@.len() % 3 == 0,
    ensures
        r@ == base64_url(bytes@),
{
    base64::Engine::encode(&base64::engine::general_purpose::URL_SAFE_NO_PAD, bytes)
}

/// `rand::thread_rng`, then `fill_bytes`: so many bytes, of which nothing more can
/// be said.
#[verifier::external_body]
fn random_bytes(n: usize) -> (r: Vec<u8>)
    ensures
        r@.len() == n,
{
    let mut bytes = vec![0u8; n];
    rand::RngCore::fill_bytes(&mut rand::thread_rng(), &mut bytes);
    bytes
}

/// The media ID made of 24 bytes.
pub fn media_id_of(bytes: &Vec<u8>) -> (r: String)
    requires
        bytes@.len() == 24,
    ensures
        r@ == base64_url(bytes@),
{
    encode_base64(bytes.as_slice())
}

/// A fresh random media ID.
pub fn random_media_id() -> (r: String)
    ensures
        exists|bytes: Seq<u8>| bytes.len() == 24 && r@ == #[trigger] base64_url(bytes),
{
    let bytes = random_bytes(24);
    media_id_of(&bytes)
}

/// A character of the URL-safe alphabet.
pub open spec fn is_url_safe(c: char) -> bool {
    'A' <= c <= 'Z' || 'a' <= c <= 'z' || '0' <= c <= '9' || c == '-' || c == '_'
}

proof fn lemma_sextet(n: int)
    requires
        0 <= n < 64,
    ensures
        is_url_safe(sextet_char(n)),
{
}

/// Media IDs go into URLs as they are: they hold nothing but URL-safe
/// characters, and those of 24 bytes have 32.
pub proof fn law_media_ids_are_url_safe(b: Seq<u8>)
    requires
        b.len() % 3 == 0,
    ensures
        3 * base64_url(b).len() == 4 * b.len(),
        forall|i: int| 0 <= i < base64_url(b).len() ==> is_url_safe(#[trigger] base64_url(b)[i]),
    decreases b.len(),
{
    if b.len() >= 3 {
        let n = b.len() as int;
        let init = base64_url(b.take(n - 3));
        law_media_ids_are_url_safe(b.take(n - 3));
        let v = b[n - 3] * 65536 + b[n - 2] * 256 + b[n - 1];
        lemma_sextet(v / 262144);
        lemma_sextet(v / 4096 % 64);
        lemma_sextet(v / 64 % 64);
        lemma_sextet(v % 64);
        assert forall|i: int| 0 <= i < base64_url(b).len() implies is_url_safe(
            #[trigger] base64_url(b)[i],
        ) by {
            if i < init.len() {
                assert(base64_url(b)[i] == init[i]);
            }
        }
    }
}

/// What is known of a media entry.
#[derive(Debug)]
pub struct MediaMeta {
    pub owner: String,
    pub content_type: Option<String>,
    pub filename: Option<String>,
    pub size: u64,
    pub created_ts: u64,
    /// Reserved, with its content still to come.
    pub pending: bool,
    /// Where the bytes are, where that is not under the media ID.
    pub blob: Option<String>,
}

pub open spec fn upload_too_large() -> ApiErrorV {
    api_error(413, "M_TOO_LARGE"@, "Upload too large"@)
}

/// Is an upload within the limit?
pub fn check_upload_size(size: u64, max: u64) -> (r: Result<(), ApiError>)
    ensures
        outcome(r) == (if size > max {
            Err(upload_too_large())
        } else {
            Ok::<(), ApiErrorV>(())
        }),
{
    if size > max {
        Err(ApiError::new(413, "M_TOO_LARGE", "Upload too large"))
    } else {
        Ok(())
    }
}

/// The URI of a media entry of a server.
pub fn mxc_uri(server_name: &str, media_id: &str) -> (r: String)
    ensures
        r@ == "mxc://"@ + server_name@ + "/"@ + media_id@,
{
    let mut out = "mxc://".to_owned();
    out.append(server_name);
    out.append("/");
    out.append(media_id);
    out
}

/// The entry of an upload, under an ID of its own: the bytes are shared between
/// identical uploads, the entries are not.
pub fn upload(
    owner: &str,
    content_type: Option<String>,
    filename: Option<String>,
    size: u64,
    now_ms: u64,
    blob: String,
) -> (r: MediaMeta)
    ensures
        r.owner@ == owner@,
        r.content_type == content_type,
        r.filename == filename,
        r.size == size,
        r.created_ts == now_ms,
        !r.pending,
        r.blob == Some(blob),
{
    MediaMeta {
        owner: owner.to_owned(),
        content_type,
        filename,
        size,
        created_ts: now_ms,
        pending: false,
        blob: Some(blob),
    }
}

/// The entry of a reserved ID.
pub fn create_async(owner: &str, now_ms: u64) -> (r: MediaMeta)
    ensures
        r.owner@ == owner@,
        r.content_type is None,
        r.filename is None,
        r.size == 0,
        r.created_ts == now_ms,
        r.pending,
        r.blob is None,
{
    MediaMeta {
        owner: owner.to_owned(),
        content_type: None,
        filename: None,
        size: 0,
        created_ts: now_ms,
        pending: true,
        blob: None,
    }
}

/// An upload for a reserved ID.
#[derive(Debug)]
pub struct AsyncUpload {
    pub server_name: String,
    pub user_id: String,
    pub content_type: Option<String>,
    pub filename: Option<String>,
    pub size: u64,
}

/// What is wrong with an upload for a reserved ID.
pub open spec fn async_fault(
    up: AsyncUpload,
    our_name: Seq<char>,
    meta: Option<MediaMeta>,
    max: u64,
) -> Option<ApiErrorV> {
    if up.server_name@ != our_name {
        Some(not_found("Media ID is not on this server"@))
    } else {
        match meta {
            None => Some(not_found("Unknown media ID"@)),
            Some(m) => if m.owner@ != up.user_id@ {
                Some(forbidden("Media ID was reserved by another user"@))
            } else if !m.pending {
                Some(
                    api_error(
                        409,
                        "M_CANNOT_OVERWRITE_MEDIA"@,
                        "Media ID already has content"@,
                    ),
                )
            } else if up.size > max {
                Some(upload_too_large())
            } else {
                None
            },
        }
    }
}

/// The entry of a reserved ID once its content is there, or why it is refused.
pub fn upload_async(
    up: AsyncUpload,
    our_name: &str,
    meta: Option<MediaMeta>,
    max_upload_size: u64,
) -> (r: Result<MediaMeta, ApiError>)
    ensures
        match async_fault(up, our_name@, meta, max_upload_size) {
            Some(x) => r matches Err(e) && e@ == x,
            None => r matches Ok(m) && m.owner == meta->0.owner && m.content_type
                == up.content_type && m.filename == up.filename && m.size == up.size
                && m.created_ts == meta->0.created_ts && !m.pending && m.blob is None,
        },
{
    if !same_text(up.server_name.as_str(), our_name) {
        return Err(ApiError::not_found("Media ID is not on this server"));
    }
    let m = match meta {
        Some(m) => m,
        None => {
            return Err(ApiError::not_found("Unknown media ID"));
        },
    };
    if !same_text(m.owner.as_str(), up.user_id.as_str()) {
        return Err(ApiError::forbidden("Media ID was reserved by another user"));
    }
    if !m.pending {
        return Err(
            ApiError::new(409, "M_CANNOT_OVERWRITE_MEDIA", "Media ID already has content"),
        );
    }
    if up.size > max_upload_size {
        return Err(ApiError::new(413, "M_TOO_LARGE", "Upload too large"));
    }
    Ok(
        MediaMeta {
            owner: m.owner,
            content_type: up.content_type,
            filename: up.filename,
            size: up.size,
            created_ts: m.created_ts,
            pending: false,
            blob: None,
        },
    )
}

/// Content is never overwritten, and nobody fills what another reserved.
pub proof fn law_content_is_never_overwritten(
    up: AsyncUpload,
    our_name: Seq<char>,
    meta: Option<MediaMeta>,
    max: u64,
)
    requires
        async_fault(up, our_name, meta, max) is None,
    ensures
        meta matches Some(m) && m.pending && m.owner@ == up.user_id@,
{
}

// -- downloads ----------------------------------------------------------------

/// Where the bytes of an entry are: under the media ID itself where the entry
/// names no other place.
pub fn blob_of<'a>(meta: &'a MediaMeta, media_id: &'a str) -> (r: &'a str)
    ensures
        r@ == (match meta.blob {
            Some(b) => b@,
            None => media_id@,
        }),
{
    match &meta.blob {
        Some(b) => b.as_str(),
        None => media_id,
    }
}

/// The entry of a media ID of ours, or why it cannot be served.
pub fn lookup_meta(server_name: &str, our_name: &str, meta: Option<MediaMeta>) -> (r: Result<
    MediaMeta,
    ApiError,
>)
    ensures
        if server_name@ != our_name@ {
            r matches Err(e) && e@ == not_found("Remote media not available"@)
        } else {
            match meta {
                None => r matches Err(e) && e@ == not_found("Unknown media"@),
                Some(m) => if m.pending {
                    r matches Err(e) && e@ == api_error(
                        504,
                        "M_NOT_YET_UPLOADED"@,
                        "Media has been reserved but not yet uploaded"@,
                    )
                } else {
                    r matches Ok(x) && x == m
                },
            }
        },
{
    if !same_text(server_name, our_name) {
        return Err(ApiError::not_found("Remote media not available"));
    }
    match meta {
        None => Err(ApiError::not_found("Unknown media")),
        Some(m) => if m.pending {
            Err(
                ApiError::new(
                    504,
                    "M_NOT_YET_UPLOADED",
                    "Media has been reserved but not yet uploaded",
                ),
            )
        } else {
            Ok(m)
        },
    }
}

/// The remote server that a path segment names; none where it names us. A
/// malformed name is not found.
pub fn legacy_remote(server_name: &str, our_name: &str) -> (r: Result<Option<String>, ApiError>)
    ensures
        if server_name@ == our_name@ {
            r matches Ok(None)
        } else if is_server_name(server_name@) {
            r matches Ok(Some(s)) && s@ == server_name@
        } else {
            r matches Err(e) && e@ == not_found("Invalid server name"@)
        },
{
    if same_text(server_name, our_name) {
        return Ok(None);
    }
    if server_name_ok(server_name) {
        Ok(Some(server_name.to_owned()))
    } else {
        Err(ApiError::not_found("Invalid server name"))
    }
}

/// The paths that media of another server are asked at: the authenticated one
/// first, and the one of older servers where that fails.
pub fn remote_media_paths(server_name: &str, media_id: &str) -> (r: (String, String))
    ensures
        r.0@ == "/_matrix/federation/v1/media/download/"@ + media_id@,
        r.1@ == "/_matrix/media/v3/download/"@ + server_name@ + "/"@ + media_id@,
{
    let first = join_texts("/_matrix/federation/v1/media/download/", media_id);
    let mut legacy = "/_matrix/media/v3/download/".to_owned();
    legacy.append(server_name);
    legacy.append("/");
    legacy.append(media_id);
    (first, legacy)
}

/// The error of media that could not be fetched.
pub fn remote_media_failed(fault: &str) -> (r: ApiError)
    ensures
        r@ == api_error(502, "M_UNKNOWN"@, "remote media fetch failed: "@ + fault@),
{
    let message = join_texts("remote media fetch failed: ", fault);
    ApiError::new(502, "M_UNKNOWN", message.as_str())
}

/// A file, with its type and name where they are known.
#[derive(Debug)]
pub struct MediaFile {
    pub bytes: Vec<u8>,
    pub content_type: Option<String>,
    pub filename: Option<String>,
}

/// The file in another server's answer: the part that the answer holds, or the
/// whole answer where it never claimed to have parts.
pub fn fetch_remote_media(
    content_type: Option<String>,
    part: Option<MediaFile>,
    body: Vec<u8>,
) -> (r: Result<MediaFile, ApiError>)
    ensures
        ({
            let ct = match content_type {
                Some(c) => c@,
                None => ""@,
            };
            match part {
                Some(f) => r matches Ok(x) && x == f,
                None => if begins_with(ascii_lower(ct), "multipart/"@) {
                    r matches Err(e) && e@ == not_found("Malformed remote media response"@)
                } else {
                    r matches Ok(x) && x.bytes@ == body@ && x.filename is None && opt_text(
                        x.content_type,
                    ) == (if ct.len() == 0 {
                        None
                    } else {
                        Some(ct)
                    })
                },
            }
        }),
{
    match part {
        Some(f) => {
            return Ok(f);
        },
        None => {},
    }
    let ct = match content_type {
        Some(c) => c,
        None => "".to_owned(),
    };
    if starts_with(to_ascii_lower(ct.as_str()).as_str(), "multipart/") {
        return Err(ApiError::not_found("Malformed remote media response"));
    }
    let content_type = if ct.as_str().is_empty() {
        None
    } else {
        Some(ct)
    };
    Ok(MediaFile { bytes: body, content_type, filename: None })
}

/// How a `Content-Disposition` header is written.
pub uninterp spec fn disposition_text(inline: bool, filename: Option<Seq<char>>) -> Seq<char>;

/// `ruma::http_headers::ContentDisposition`, built from its type and file name
/// and written out. How a file name is quoted or encoded is named and not
/// stated.
#[verifier::external_body]
fn disposition(inline: bool, filename: Option<String>) -> (r: String)
    ensures
        r@ == disposition_text(inline, opt_text(filename)),
{
    let kind = if inline {
        ruma::http_headers::ContentDispositionType::Inline
    } else {
        ruma::http_headers::ContentDispositionType::Attachment
    };
    ruma::http_headers::ContentDisposition::new(kind).with_filename(filename).to_string()
}

/// The headers that media is served with.
#[derive(Debug)]
pub struct MediaHeaders {
    pub content_type: String,
    pub content_disposition: String,
    pub content_type_options: String,
    pub content_security_policy: String,
}

/// The headers that media is served with: nothing is sniffed, nothing runs, and
/// what is not safe to show in place is downloaded.
pub fn blob_response(content_type: Option<String>, filename: Option<String>) -> (r: MediaHeaders)
    ensures
        ({
            let ct = match content_type {
                Some(c) => c@,
                None => "application/octet-stream"@,
            };
            &&& r.content_type@ == ct
            &&& r.content_disposition@ == disposition_text(safe_inline(ct), opt_text(filename))
            &&& r.content_type_options@ == "nosniff"@
            &&& r.content_security_policy@
                == "sandbox; default-src 'none'; script-src 'none'; object-src 'none';"@
        }),
{
    let content_type = match content_type {
        Some(c) => c,
        None => "application/octet-stream".to_owned(),
    };
    let inline = inline_safe(content_type.as_str());
    MediaHeaders {
        content_type,
        content_disposition: disposition(inline, filename),
        content_type_options: "nosniff".to_owned(),
        content_security_policy:
            "sandbox; default-src 'none'; script-src 'none'; object-src 'none';".to_owned(),
    }
}

/// Markup is never shown in place: it could run script where media is served.
pub proof fn law_markup_is_downloaded(content_type: Seq<char>)
    requires
        media_essence(content_type) == "text/html"@ || media_essence(content_type)
            == "image/svg+xml"@,
    ensures
        !safe_inline(content_type),
{
    reveal_strlit("text/html");
    reveal_strlit("image/svg+xml");
    reveal_strlit("text/plain");
    reveal_strlit("application/pdf");
    reveal_strlit("audio/");
    reveal_strlit("video/");
    reveal_strlit("image/");
    let ct = media_essence(content_type);
    assert("text/plain"@.len() == 10 && "application/pdf"@.len() == 15);
    assert("text/html"@.len() == 9 && "image/svg+xml"@.len() == 13);
    assert(ct[0] == 't' || ct[0] == 'i');
    assert("audio/"@[0] == 'a' && "video/"@[0] == 'v' && "image/"@[0] == 'i');
    if begins_with(ct, "audio/"@) {
        assert(ct[0] == ct.take("audio/"@.len() as int)[0]);
    }
    if begins_with(ct, "video/"@) {
        assert(ct[0] == ct.take("video/"@.len() as int)[0]);
    }
    if begins_with(ct, "image/"@) {
        assert(ct[0] == ct.take("image/"@.len() as int)[0]);
    }
}

/// A side of a thumbnail.
pub fn thumbnail_side(asked: u64) -> (r: u32)
    ensures
        r == (if asked < 4096 {
            asked as int
        } else {
            4096
        }),
{
    if asked < 4096 {
        asked as u32
    } else {
        4096
    }
}

/// A side of a thumbnail in a query: 96 unless the query holds a number.
pub fn thumbnail_dim(q: &Vec<(String, String)>, key: &str) -> (r: u32)
    ensures
        r == (match query_value(q@, key@) {
            Some(v) => match read_number(v, u32::MAX as nat) {
                Some(n) => if n < 4096 {
                    n as int
                } else {
                    4096
                },
                None => 96,
            },
            None => 96,
        }),
{
    match query_get(q, key) {
        Some(v) => match parse_u64(v.as_str()) {
            Some(n) => if n <= u32::MAX as u64 {
                thumbnail_side(n)
            } else {
                96
            },
            None => 96,
        },
        None => 96,
    }
}

/// Is a thumbnail cropped, by its query?
pub fn thumbnail_crops(q: &Vec<(String, String)>) -> (r: bool)
    ensures
        r == (query_value(q@, "method"@) == Some("crop"@)),
{
    match query_get(q, "method") {
        Some(m) => same_text(m.as_str(), "crop"),
        None => false,
    }
}

/// The error of media that cannot be scaled down.
pub fn cannot_thumbnail(fault: &str) -> (r: ApiError)
    ensures
        r@ == not_found("cannot thumbnail remote media: "@ + fault@),
{
    let message = join_texts("cannot thumbnail remote media: ", fault);
    ApiError::not_found(message.as_str())
}

/// The largest integer that JSON peers agree on.
pub const MAX_UPLOAD_TOLD: u64 = 9_007_199_254_740_991;

/// The limit on uploads as clients are told it.
pub fn config(max_upload_size: u64) -> (r: u64)
    ensures
        r == (if max_upload_size < MAX_UPLOAD_TOLD {
            max_upload_size
        } else {
            MAX_UPLOAD_TOLD
        }),
{
    if max_upload_size < MAX_UPLOAD_TOLD {
        max_upload_size
    } else {
        MAX_UPLOAD_TOLD
    }
}

/// The limit on uploads as older clients are told it.
pub fn config_legacy(max_upload_size: u64) -> (r: Json)
    ensures
        r@ == one_field("m.upload.size"@, JsonV::Int(max_upload_size as int)),
{
    object_of("m.upload.size", Json::Int(max_upload_size as i128))
}

// -- what previews and uploads come to ---------------------------------------------

/// An attribute's value is what stands between the quotes behind its name, as
/// it is written; the name is found whatever its case. Where it is quoted and
/// closed there is a value.
pub proof fn law_attributes_stand_between_quotes(tag: Seq<char>, attr: Seq<char>, v: Seq<char>)
    requires
        attr_value(tag, attr) == Some(v),
    ensures
        exists|k: int, end: int|
            #![trigger tag.subrange(k + attr.len() + 2, end)]
            {
                let at = k + attr.len() + 1;
                &&& 0 <= k && at < end < tag.len()
                &&& ascii_lower(tag).subrange(k, at) == attr.push('=')
                &&& tag[at] == '"' || tag[at] == '\''
                &&& tag[end] == tag[at]
                &&& !v.contains(tag[at])
                &&& v == tag.subrange(at + 1, end)
            },
{
    let lower = ascii_lower(tag);
    lemma_find_from(lower, attr.push('='), 0);
    let k = find_from(lower, attr.push('='), 0)->0;
    let at = k + attr.len() + 1;
    lemma_find_char(tag, tag[at], at + 1);
    let end = find_char_from(tag, tag[at], at + 1)->0;
    assert(v == tag.subrange(k + attr.len() + 2, end));
    assert forall|j: int| 0 <= j < v.len() implies v[j] != tag[at] by {
        assert(v[j] == tag[at + 1 + j]);
    }
}

/// A tag gives a property where it says an `og:` property, by `property` or
/// else by `name`, and its content.
pub proof fn law_tags_say_properties(tag: Seq<char>, p: Seq<char>, c: Seq<char>)
    ensures
        og_pair(tag) == Some((p, c)) <==> {
            &&& attr_value(tag, "property"@) == Some(p) || (attr_value(tag, "property"@) is None
                && attr_value(tag, "name"@) == Some(p))
            &&& attr_value(tag, "content"@) == Some(c)
            &&& begins_with(p, "og:"@)
        },
{
}

/// The title of a page is what stands between its title tags, without the white
/// space at either end.
pub proof fn law_titles_stand_between_their_tags(html: Seq<char>, title: Seq<char>)
    requires
        title_of(html) == Some(title),
    ensures
        exists|k: int, end: int|
            #![trigger html.subrange(k, end)]
            {
                &&& 7 <= k <= end <= html.len() - 8
                &&& ascii_lower(html).subrange(k - 7, k) == "<title>"@
                &&& ascii_lower(html).subrange(end, end + 8) == "</title>"@
                &&& title == trimmed(html.subrange(k, end))
            },
{
    reveal_strlit("<title>");
    reveal_strlit("</title>");
    assert("<title>"@.len() == 7 && "</title>"@.len() == 8);
    let lower = ascii_lower(html);
    lemma_find_from(lower, "<title>"@, 0);
    let k = find_from(lower, "<title>"@, 0)->0;
    lemma_find_from(lower, "</title>"@, k + 7);
    let end = find_from(lower, "</title>"@, k + 7)->0;
    assert(lower.subrange(k, k + 7) == "<title>"@);
    assert(title == trimmed(html.subrange(k + 7, end)));
}

/// The last tag of a property counts, and the last image; the address of the
/// image is told of nowhere else.
pub proof fn law_the_last_tag_counts(
    pairs: Seq<(Seq<char>, Seq<char>)>,
    i: int,
)
    requires
        0 <= i < pairs.len(),
        forall|j: int| i < j < pairs.len() ==> (#[trigger] pairs[j]).0 != pairs[i].0,
    ensures
        pairs[i].0 != "og:image"@ ==> field(JsonV::Object(og_fields(pairs)), pairs[i].0) == Some(
            JsonV::Str(pairs[i].1),
        ),
        pairs[i].0 == "og:image"@ ==> og_image(pairs) == Some(pairs[i].1),
        !og_fields(pairs).dom().contains("og:image"@),
    decreases pairs.len(),
{
    let init = pairs.drop_last();
    assert(pairs[pairs.len() - 1] == pairs.last());
    lemma_no_image(pairs);
    if i < init.len() {
        assert forall|j: int| i < j < init.len() implies (#[trigger] init[j]).0 != init[i].0 by {
            assert(init[j] == pairs[j]);
        }
        law_the_last_tag_counts(init, i);
    }
}

/// A page without a title of its own in its tags is named by its title.
pub proof fn law_pages_are_named(html: Seq<char>, k: Seq<char>)
    ensures
        ({
            let m = JsonV::Object(page_fields(html));
            let tags = JsonV::Object(og_fields(og_pairs(html, 0)));
            &&& k != "og:title"@ ==> field(m, k) == field(tags, k)
            &&& field(tags, "og:title"@) is Some ==> field(m, "og:title"@) == field(
                tags,
                "og:title"@,
            )
            &&& field(tags, "og:title"@) is None ==> field(m, "og:title"@)
                == (match title_of(html) {
                Some(s) => Some(JsonV::Str(s)),
                None => None,
            })
        }),
{
}

/// A preview with an image tells where it is kept, how large it is and what it
/// is, and its sides where it is a PNG; everything else stays as it was.
pub proof fn law_images_are_told_of(
    m: Map<Seq<char>, JsonV>,
    bytes: Seq<u8>,
    image_type: Option<Seq<char>>,
    uri: Seq<char>,
    k: Seq<char>,
)
    ensures
        ({
            let j = JsonV::Object(with_image(m, bytes, image_type, uri));
            &&& field(j, "og:image"@) == Some(JsonV::Str(uri))
            &&& field(j, "matrix:image:size"@) == Some(JsonV::Int(bytes.len() as int))
            &&& image_type matches Some(t) ==> field(j, "og:image:type"@) == Some(JsonV::Str(t))
            &&& png_size(bytes) matches Some(s) ==> field(j, "og:image:width"@) == Some(
                JsonV::Int(s.0),
            ) && field(j, "og:image:height"@) == Some(JsonV::Int(s.1))
            &&& k != "og:image"@ && k != "matrix:image:size"@ && k != "og:image:type"@ && k
                != "og:image:width"@ && k != "og:image:height"@ ==> field(j, k) == field(
                JsonV::Object(m),
                k,
            )
        }),
{
    reveal_strlit("og:image");
    reveal_strlit("matrix:image:size");
    reveal_strlit("og:image:type");
    reveal_strlit("og:image:width");
    reveal_strlit("og:image:height");
    assert("og:image"@.len() == 8 && "matrix:image:size"@.len() == 17
        && "og:image:type"@.len() == 13 && "og:image:width"@.len() == 14
        && "og:image:height"@.len() == 15);
}

/// The sides of a PNG are the two numbers behind its header, most significant
/// byte first; what does not begin as a PNG has none.
pub proof fn law_png_sides_stand_behind_the_header(b: Seq<u8>)
    ensures
        png_size(b) is Some <==> b.len() >= 24 && b[0] == 0x89 && b[1] == 0x50 && b[2] == 0x4e
            && b[3]
            == 0x47 && b[4] == 0x0d && b[5] == 0x0a && b[6] == 0x1a && b[7] == 0x0a && b[12] == 0x49
            && b[13] == 0x48 && b[14] == 0x44 && b[15] == 0x52,
        png_size(b) matches Some(s) ==> s.0 == b[16] * 0x1000000 + b[17] * 0x10000 + b[18] * 0x100
            + b[19] && s.1 == b[20] * 0x1000000 + b[21] * 0x10000 + b[22] * 0x100 + b[23],
{
    if b.len() >= 24 {
        let p = png_signature();
        let h = ihdr();
        let head = b.take(8);
        let kind = b.subrange(12, 16);
        assert(head[0] == b[0] && head[1] == b[1] && head[2] == b[2] && head[3] == b[3] && head[4]
            == b[4] && head[5] == b[5] && head[6] == b[6] && head[7] == b[7]);
        assert(kind[0] == b[12] && kind[1] == b[13] && kind[2] == b[14] && kind[3] == b[15]);
        assert(p[0] == 0x89 && p[1] == 0x50 && p[2] == 0x4e && p[3] == 0x47 && p[4] == 0x0d && p[5]
            == 0x0a && p[6] == 0x1a && p[7] == 0x0a);
        assert(h[0] == 0x49 && h[1] == 0x48 && h[2] == 0x44 && h[3] == 0x52);
        if head[0] == p[0] && head[1] == p[1] && head[2] == p[2] && head[3] == p[3] && head[4]
            == p[4] && head[5] == p[5] && head[6] == p[6] && head[7] == p[7] {
            assert(head =~= p);
        }
        if kind[0] == h[0] && kind[1] == h[1] && kind[2] == h[2] && kind[3] == h[3] {
            assert(kind =~= h);
        }
    }
}

/// What is shown in place is what cannot run: plain text, PDFs, sound, video
/// and images, but for SVG images.
pub proof fn law_what_cannot_run_is_shown(content_type: Seq<char>, ct: Seq<char>)
    requires
        ct == ascii_lower(trimmed(split_on(content_type, ';')[0])),
    ensures
        safe_inline(content_type) <==> {
            ||| ct == "text/plain"@
            ||| ct == "application/pdf"@
            ||| begins_with(ct, "audio/"@)
            ||| begins_with(ct, "video/"@)
            ||| begins_with(ct, "image/"@) && ct != "image/svg+xml"@
        },
        ct == "text/html"@ || ct == "image/svg+xml"@ ==> !safe_inline(content_type),
{
    reveal_strlit("text/plain");
    reveal_strlit("application/pdf");
    reveal_strlit("text/html");
    reveal_strlit("image/svg+xml");
    reveal_strlit("audio/");
    reveal_strlit("video/");
    reveal_strlit("image/");
    assert("text/plain"@.len() == 10 && "application/pdf"@.len() == 15 && "text/html"@.len() == 9
        && "image/svg+xml"@.len() == 13 && "audio/"@.len() == 6 && "video/"@.len() == 6
        && "image/"@.len() == 6);
    assert("audio/"@[0] == 'a' && "video/"@[0] == 'v');
    assert("audio/"@[0] == 'a' && "image/"@[0] == 'i');
    assert("video/"@[0] == 'v' && "image/"@[0] == 'i');
    if begins_with("text/html"@, "audio/"@) {
        assert("text/html"@.take(6)[0] == "text/html"@[0]);
    }
    if begins_with("text/html"@, "video/"@) {
        assert("text/html"@.take(6)[0] == "text/html"@[0]);
    }
    if begins_with("text/html"@, "image/"@) {
        assert("text/html"@.take(6)[0] == "text/html"@[0]);
    }
    if begins_with("image/svg+xml"@, "audio/"@) {
        assert("image/svg+xml"@.take(6)[0] == "image/svg+xml"@[0]);
    }
    if begins_with("image/svg+xml"@, "video/"@) {
        assert("image/svg+xml"@.take(6)[0] == "image/svg+xml"@[0]);
    }
}

/// A preview is fetched only from a web address.
pub proof fn law_previews_are_of_web_pages(url: Option<Seq<char>>, scheme: Option<Seq<char>>)
    ensures
        preview_target(url, scheme) is Ok <==> url is Some && (scheme == Some("http"@) || scheme
            == Some("https"@)),
        preview_target(url, scheme) matches Ok(u) ==> url == Some(u),
        preview_target(url, scheme) matches Err(e) ==> e.status == 400,
{
}

/// What was fetched is read exactly where the fetch succeeded, it is an image
/// where one is needed, and it is not said to be too large.
pub proof fn law_sound_answers_are_read(
    success: bool,
    status: Seq<char>,
    header: Option<Seq<char>>,
    require_image: bool,
    length: Option<u64>,
)
    ensures
        fetched_head(success, status, header, require_image, length) is Ok <==> {
            &&& success
            &&& require_image ==> header is Some && begins_with(
                trimmed(split_on(header->0, ';')[0]),
                "image/"@,
            )
            &&& length matches Some(n) ==> n <= PREVIEW_MAX_BYTES
        },
        fetched_head(success, status, header, require_image, length) matches Ok(ct) ==> ct == (
        match header {
            Some(h) => Some(trimmed(split_on(h, ';')[0])),
            None => None,
        }),
        fetched_head(success, status, header, require_image, length) matches Err(e) ==> e.status
            == 502,
{
}

/// Content is put under a reserved ID exactly where the ID is this server's and
/// known, was reserved by the same user, has no content yet, and the content is
/// not too large.
pub proof fn law_reserved_ids_take_content(
    up: AsyncUpload,
    our_name: Seq<char>,
    meta: Option<MediaMeta>,
    max: u64,
)
    ensures
        async_fault(up, our_name, meta, max) is None <==> up.server_name@ == our_name && (
        meta matches Some(m) && m.owner@ == up.user_id@ && m.pending) && up.size <= max,
        up.server_name@ == our_name && (meta matches Some(m) && m.owner@ != up.user_id@) ==> (
        async_fault(up, our_name, meta, max) matches Some(e) && e.status == 403),
        up.server_name@ == our_name && (meta matches Some(m) && m.owner@ == up.user_id@
            && !m.pending) ==> (async_fault(up, our_name, meta, max) matches Some(e) && e.status
            == 409),
        up.server_name@ != our_name || meta is None ==> (async_fault(up, our_name, meta,
            max) matches Some(
            e,
        ) && e.status == 404),
{
}

/// Different bytes give different IDs.
pub proof fn law_ids_keep_bytes_apart(a: Seq<u8>, b: Seq<u8>)
    requires
        a.len() == b.len(),
        a.len() % 3 == 0,
        base64_url(a) == base64_url(b),
    ensures
        a == b,
    decreases a.len(),
{
    if a.len() == 0 {
        assert(a =~= b);
    } else {
        let n = a.len() as int;
        let x = base64_url(a);
        let y = base64_url(b);
        lemma_base64_len(a);
        lemma_base64_len(b);
        lemma_base64_len(a.take(n - 3));
        lemma_base64_len(b.take(n - 3));
        let m = base64_url(a.take(n - 3)).len() as int;
        let v = a[n - 3] * 65536 + a[n - 2] * 256 + a[n - 1];
        let w = b[n - 3] * 65536 + b[n - 2] * 256 + b[n - 1];
        assert(x[m] == sextet_char(v / 262144) && y[m] == sextet_char(w / 262144));
        assert(x[m + 1] == sextet_char(v / 4096 % 64) && y[m + 1] == sextet_char(w / 4096 % 64));
        assert(x[m + 2] == sextet_char(v / 64 % 64) && y[m + 2] == sextet_char(w / 64 % 64));
        assert(x[m + 3] == sextet_char(v % 64) && y[m + 3] == sextet_char(w % 64));
        lemma_group(a[n - 3], a[n - 2], a[n - 1], b[n - 3], b[n - 2], b[n - 1]);
        assert(base64_url(a.take(n - 3)) =~= x.take(m));
        assert(base64_url(b.take(n - 3)) =~= y.take(m));
        law_ids_keep_bytes_apart(a.take(n - 3), b.take(n - 3));
        assert forall|i: int| 0 <= i < n implies a[i] == b[i] by {
            if i < n - 3 {
                assert(a.take(n - 3)[i] == b.take(n - 3)[i]);
            }
        }
        assert(a =~= b);
    }
}

proof fn lemma_group(a: u8, b: u8, c: u8, x: u8, y: u8, z: u8)
    requires
        ({
            let v = a * 65536 + b * 256 + c;
            let w = x * 65536 + y * 256 + z;
            &&& sextet_char(v / 262144) == sextet_char(w / 262144)
            &&& sextet_char(v / 4096 % 64) == sextet_char(w / 4096 % 64)
            &&& sextet_char(v / 64 % 64) == sextet_char(w / 64 % 64)
            &&& sextet_char(v % 64) == sextet_char(w % 64)
        }),
    ensures
        a == x && b == y && c == z,
{
    let v = a * 65536 + b * 256 + c;
    let w = x * 65536 + y * 256 + z;
    lemma_sextets_differ(v / 262144, w / 262144);
    lemma_sextets_differ(v / 4096 % 64, w / 4096 % 64);
    lemma_sextets_differ(v / 64 % 64, w / 64 % 64);
    lemma_sextets_differ(v % 64, w % 64);
    assert(v / 64 == w / 64) by {
        assert(v / 4096 == (v / 64) / 64 && w / 4096 == (w / 64) / 64);
        assert(v / 262144 == (v / 4096) / 64 && w / 262144 == (w / 4096) / 64);
    }
    assert(v == w);
}

proof fn lemma_base64_len(b: Seq<u8>)
    ensures
        base64_url(b).len() == b.len() / 3 * 4,
    decreases b.len(),
{
    if b.len() >= 3 {
        lemma_base64_len(b.take(b.len() - 3));
    }
}

proof fn lemma_sextets_differ(a: int, b: int)
    requires
        0 <= a < 64,
        0 <= b < 64,
        sextet_char(a) == sextet_char(b),
    ensures
        a == b,
{
}

/// Media is found exactly where it is this server's, is known, and has content.
pub proof fn law_media_is_found_here(
    server_name: &str,
    our_name: &str,
    meta: Option<MediaMeta>,
    r: Result<MediaMeta, ApiError>,
)
    requires
        call_ensures(lookup_meta, (server_name, our_name, meta), r),
    ensures
        r is Ok <==> server_name@ == our_name@ && meta is Some && !meta->0.pending,
        r matches Ok(m) ==> meta == Some(m),
        server_name@ == our_name@ && meta is Some && meta->0.pending
            ==> (r matches Err(e) && e@.status == 504),
        server_name@ != our_name@ || meta is None ==> (r matches Err(e) && e@.status == 404),
{
}

/// An upload is recorded as its owner's, with its type, name, size and time,
/// and where its bytes are.
pub proof fn law_uploads_are_recorded(
    owner: &str,
    content_type: Option<String>,
    filename: Option<String>,
    size: u64,
    now_ms: u64,
    blob: String,
    r: MediaMeta,
)
    requires
        call_ensures(upload, (owner, content_type, filename, size, now_ms, blob), r),
    ensures
        r.owner@ == owner@ && r.content_type == content_type && r.filename == filename,
        r.size == size && r.created_ts == now_ms && !r.pending && r.blob == Some(blob),
{
}

/// A reserved ID is its owner's and has no content yet.
pub proof fn law_reserved_ids_wait_for_content(
    owner: &str,
    now_ms: u64,
    r: MediaMeta,
)
    requires
        call_ensures(create_async, (owner, now_ms), r),
    ensures
        r.pending && r.owner@ == owner@ && r.created_ts == now_ms && r.size == 0,
{
}

/// Content that is put under a reserved ID leaves its owner and its time, and
/// is there from then on.
pub proof fn law_content_settles_a_reserved_id(
    up: AsyncUpload,
    our_name: &str,
    meta: Option<MediaMeta>,
    max: u64,
    r: Result<MediaMeta, ApiError>,
)
    requires
        call_ensures(upload_async, (up, our_name, meta, max), r),
    ensures
        r matches Ok(m) ==> meta is Some && m.owner@ == meta->0.owner@
            && m.created_ts == meta->0.created_ts && !m.pending && m.size == up.size
            && m.content_type == up.content_type && m.filename == up.filename,
        r is Ok <==> up.server_name@ == our_name@ && (meta matches Some(m)
            && m.owner@ == up.user_id@ && m.pending) && up.size <= max,
{
}

/// An upload is refused exactly where it is larger than the limit.
pub proof fn law_uploads_are_limited(
    size: u64,
    max: u64,
    r: Result<(), ApiError>,
)
    requires
        call_ensures(check_upload_size, (size, max), r),
    ensures
        r is Ok <==> size <= max,
        r matches Err(e) ==> e@.status == 413,
{
}

/// The bytes of media are where its record says, and else under its ID.
pub proof fn law_blobs_are_where_they_were_put(
    meta: &MediaMeta,
    media_id: &str,
    r: &str,
)
    requires
        call_ensures(blob_of, (meta, media_id), r),
    ensures
        meta.blob is Some ==> r@ == meta.blob->0@,
        meta.blob is None ==> r@ == media_id@,
{
}

/// A side of a thumbnail is as long as was asked for, up to a bound.
pub proof fn law_thumbnails_are_bounded(
    asked: u64,
    r: u32,
)
    requires
        call_ensures(thumbnail_side, (asked,), r),
    ensures
        asked <= 4096 ==> r == asked,
        asked > 4096 ==> r == 4096,
{
}

/// A side that is not given, or cannot be read, has a default.
pub proof fn law_sides_have_a_default(
    q: &Vec<(String, String)>,
    key: &str,
    n: nat,
    r: u32,
)
    requires
        call_ensures(thumbnail_dim, (q, key), r),
    ensures
        query_value(q@, key@) is None ==> r == 96,
        query_value(q@, key@) matches Some(v) ==> (read_number(v, u32::MAX as nat) == Some(n)
            ==> (n <= 4096 ==> r == n) && (n > 4096 ==> r == 4096)),
{
}

/// What is served is not sniffed and may run nothing; it has the type that it
/// was given, and else is plain bytes.
pub proof fn law_responses_do_not_run(
    content_type: Option<String>,
    filename: Option<String>,
    r: MediaHeaders,
)
    requires
        call_ensures(blob_response, (content_type, filename), r),
    ensures
        r.content_type_options@ == "nosniff"@,
        content_type matches Some(c) ==> r.content_type@ == c@,
        content_type is None ==> r.content_type@ == "application/octet-stream"@,
        content_type matches Some(c) ==> r.content_disposition@
            == disposition_text(safe_inline(c@), opt_text(filename)),
{
}

/// A preview of a page is read from the page; one of an image is the image;
/// anything else has none.
pub proof fn law_previews_are_of_pages_and_images(
    content_type: Option<&str>,
    body: &[u8],
    url: &str,
    ct: Seq<char>,
    r: PagePreview,
)
    requires
        call_ensures(page_preview, (content_type, body, url), r),
        opt_str(content_type) == Some(ct),
    ensures
        begins_with(ct, "text/html"@) ==> fields_view(r.fields@) == page_fields(lossy_text(body@))
            && opt_text(r.image) == og_image(og_pairs(lossy_text(body@), 0)),
        !begins_with(ct, "text/html"@) && begins_with(ct, "image/"@)
            ==> r.fields@.len() == 0 && opt_text(r.image) == Some(url@),
        !begins_with(ct, "text/html"@) && !begins_with(ct, "image/"@)
            ==> r.fields@.len() == 0 && r.image is None,
{
}

/// A value that stands in quotes of either kind, behind the first place where
/// the attribute is named, is found; nothing is where no quote follows.
pub proof fn law_quoted_values_are_found(tag: Seq<char>, attr: Seq<char>, k: int, end: int)
    requires
        0 <= k,
        k + attr.len() + 1 < tag.len(),
        ascii_lower(tag).subrange(k, k + attr.len() + 1) == attr.push('='),
        forall|j: int|
            0 <= j < k ==> #[trigger] ascii_lower(tag).subrange(j, j + attr.len() + 1)
                != attr.push('='),
    ensures
        ({
            let at = k + attr.len() + 1;
            let quote = tag[at];
            if quote == '"' || quote == '\'' {
                at < end < tag.len() && tag[end] == quote && (forall|j: int|
                    at < j < end ==> #[trigger] tag[j] != quote) ==> attr_value(tag, attr) == Some(
                    tag.subrange(at + 1, end),
                )
            } else {
                attr_value(tag, attr) is None
            }
        }),
{
    let at = k + attr.len() + 1;
    let pat = attr.push('=');
    let lower = ascii_lower(tag);
    assert forall|j: int| 0 <= j < k implies #[trigger] lower.subrange(j, j + pat.len())
        != pat by {
        assert(lower.subrange(j, j + attr.len() + 1) != pat);
    }
    lemma_first_place(lower, pat, 0, k);
    if at < end < tag.len() && tag[end] == tag[at] && (forall|j: int|
        at < j < end ==> #[trigger] tag[j] != tag[at]) {
        lemma_find_char_at(tag, tag[at], at + 1, end);
    }
}

proof fn lemma_first_place(s: Seq<char>, pat: Seq<char>, i: int, k: int)
    requires
        0 <= i <= k,
        k + pat.len() <= s.len(),
        s.subrange(k, k + pat.len()) == pat,
        forall|j: int| i <= j < k ==> #[trigger] s.subrange(j, j + pat.len()) != pat,
    ensures
        find_from(s, pat, i) == Some(k),
    decreases k - i,
{
    if i < k {
        assert(s.subrange(i, i + pat.len()) != pat);
        lemma_first_place(s, pat, i + 1, k);
    }
}

} // verus!

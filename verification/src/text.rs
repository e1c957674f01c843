//! Text helpers: characters in and out of strings, comparison, searching,
//! splitting and decimal numbers.
use vstd::prelude::*;
use vstd::utf8::{encode_utf8, encode_utf8_decode_utf8};

verus! {

/// The views of a list of strings.
pub open spec fn texts(v: Seq<String>) -> Seq<Seq<char>> {
    v.map_values(|s: String| s@)
}

/// The text inside an optional string.
pub open spec fn opt_text(o: Option<String>) -> Option<Seq<char>> {
    match o {
        Some(s) => Some(s@),
        None => None,
    }
}

/// The text inside an optional string slice.
pub open spec fn opt_str(o: Option<&str>) -> Option<Seq<char>> {
    match o {
        Some(s) => Some(s@),
        None => None,
    }
}

/// `String::push`: the character goes to the end of the string.
pub assume_specification[ String::push ](s: &mut String, c: char)
    ensures
        final(s)@ == old(s)@.push(c),
;

/// The characters of `s`, in order.
pub fn chars_of(s: &str) -> (r: Vec<char>)
    ensures
        r@ == s@,
{
    let mut out: Vec<char> = Vec::new();
    for c in it: s.chars()
        invariant
            out@ == it.seq().take(it.index() as int),
            it.seq() == s@,
    {
        proof {
            assert(it.seq().take(it.index() + 1) =~= it.seq().take(it.index() as int).push(c));
        }
        out.push(c);
    }
    proof {
        assert(s@.take(s@.len() as int) =~= s@);
    }
    out
}

/// The string made of `chars`.
pub fn string_of(chars: &[char]) -> (r: String)
    ensures
        r@ == chars@,
{
    let mut out = String::new();
    let mut i: usize = 0;
    while i < chars.len()
        invariant
            i <= chars.len(),
            out@ == chars@.take(i as int),
        decreases chars.len() - i,
    {
        proof {
            assert(chars@.take(i + 1) =~= chars@.take(i as int).push(chars@[i as int]));
        }
        out.push(chars[i]);
        i += 1;
    }
    proof {
        assert(chars@.take(chars@.len() as int) =~= chars@);
    }
    out
}

/// The string made of `chars[from..to]`.
pub fn string_of_range(chars: &[char], from: usize, to: usize) -> (r: String)
    requires
        from <= to <= chars.len(),
    ensures
        r@ == chars@.subrange(from as int, to as int),
{
    let mut out = String::new();
    let mut i: usize = from;
    while i < to
        invariant
            from <= i <= to <= chars.len(),
            out@ == chars@.subrange(from as int, i as int),
        decreases to - i,
    {
        proof {
            assert(chars@.subrange(from as int, i + 1) =~= chars@.subrange(from as int, i as int).push(
                chars@[i as int],
            ));
        }
        out.push(chars[i]);
        i += 1;
    }
    out
}

/// Do the two strings hold the same text?
pub fn same_text(a: &str, b: &str) -> (r: bool)
    ensures
        r == (a@ == b@),
{
    let x = a.as_bytes();
    let y = b.as_bytes();
    proof {
        encode_utf8_decode_utf8(a@);
        encode_utf8_decode_utf8(b@);
    }
    if x.len() != y.len() {
        return false;
    }
    let mut i: usize = 0;
    while i < x.len()
        invariant
            i <= x.len(),
            x.len() == y.len(),
            x@ == encode_utf8(a@),
            y@ == encode_utf8(b@),
            forall|j: int| 0 <= j < i ==> x@[j] == y@[j],
        decreases x.len() - i,
    {
        if x[i] != y[i] {
            return false;
        }
        i += 1;
    }
    proof {
        assert(x@ =~= y@);
    }
    true
}

/// Is `s` one of the strings in `list`?
pub fn list_has(list: &Vec<String>, s: &str) -> (r: bool)
    ensures
        r == texts(list@).contains(s@),
{
    let mut i: usize = 0;
    while i < list.len()
        invariant
            i <= list.len(),
            forall|j: int| 0 <= j < i ==> texts(list@)[j] != s@,
        decreases list.len() - i,
    {
        if same_text(list[i].as_str(), s) {
            proof {
                assert(texts(list@)[i as int] == s@);
            }
            return true;
        }
        i += 1;
    }
    false
}


/// Does `s` begin with `prefix`?
pub open spec fn begins_with(s: Seq<char>, prefix: Seq<char>) -> bool {
    prefix.len() <= s.len() && s.take(prefix.len() as int) == prefix
}

/// Does `s` end with `suffix`?
pub open spec fn ends_with(s: Seq<char>, suffix: Seq<char>) -> bool {
    suffix.len() <= s.len() && s.skip(s.len() - suffix.len()) == suffix
}

/// Where `pat` first occurs in `s` at or after `i`.
pub open spec fn find_from(s: Seq<char>, pat: Seq<char>, i: int) -> Option<int>
    decreases s.len() - i + 1,
{
    if i < 0 || i + pat.len() > s.len() {
        None
    } else if s.subrange(i, i + pat.len()) == pat {
        Some(i)
    } else {
        find_from(s, pat, i + 1)
    }
}

/// Does `pat` occur in `s`?
pub open spec fn occurs_in(pat: Seq<char>, s: Seq<char>) -> bool {
    find_from(s, pat, 0) is Some
}

/// Where `c` first occurs in `s` at or after `i`.
pub open spec fn find_char_from(s: Seq<char>, c: char, i: int) -> Option<int>
    decreases s.len() - i,
{
    if i < 0 || i >= s.len() {
        None
    } else if s[i] == c {
        Some(i)
    } else {
        find_char_from(s, c, i + 1)
    }
}

/// The two sides of the first `c` in `s`.
pub open spec fn cut_at(s: Seq<char>, c: char) -> Option<(Seq<char>, Seq<char>)> {
    match find_char_from(s, c, 0) {
        Some(i) => Some((s.take(i), s.skip(i + 1))),
        None => None,
    }
}

/// The pieces of `s` between the occurrences of `c`.
pub open spec fn split_on(s: Seq<char>, c: char) -> Seq<Seq<char>>
    decreases s.len(),
{
    if s.len() == 0 {
        seq![Seq::empty()]
    } else {
        let init = split_on(s.drop_last(), c);
        if s.last() == c {
            init.push(Seq::empty())
        } else {
            init.drop_last().push(init.last().push(s.last()))
        }
    }
}

/// The lower-case form of an ASCII letter; any other character is unchanged.
pub open spec fn ascii_lower_char(c: char) -> char {
    if 'A' <= c <= 'Z' {
        (c as int + 32) as char
    } else {
        c
    }
}

/// `s` with its ASCII letters in lower case.
pub open spec fn ascii_lower(s: Seq<char>) -> Seq<char> {
    s.map_values(|c: char| ascii_lower_char(c))
}

/// A found position lies in range, holds the pattern, and is the first.
pub proof fn lemma_find_from(s: Seq<char>, pat: Seq<char>, i: int)
    requires
        0 <= i,
    ensures
        find_from(s, pat, i) matches Some(k) ==> {
            &&& i <= k <= s.len() - pat.len()
            &&& s.subrange(k, k + pat.len()) == pat
        },
        find_from(s, pat, i) is None ==> forall|k: int|
            i <= k <= s.len() - pat.len() ==> #[trigger] s.subrange(k, k + pat.len()) != pat,
    decreases s.len() - i + 1,
{
    if i + pat.len() > s.len() {
    } else if s.subrange(i, i + pat.len()) == pat {
    } else {
        lemma_find_from(s, pat, i + 1);
    }
}

/// A found character lies in range, and none lies before it.
pub proof fn lemma_find_char(s: Seq<char>, c: char, i: int)
    requires
        0 <= i,
    ensures
        find_char_from(s, c, i) matches Some(k) ==> {
            &&& i <= k < s.len()
            &&& s[k] == c
            &&& forall|j: int| i <= j < k ==> #[trigger] s[j] != c
        },
        find_char_from(s, c, i) is None ==> forall|j: int| i <= j < s.len() ==> #[trigger] s[j] != c,
    decreases s.len() - i,
{
    if i < s.len() && s[i] != c {
        lemma_find_char(s, c, i + 1);
    }
}

/// The first occurrence is where it is.
pub proof fn lemma_find_char_at(s: Seq<char>, c: char, i: int, k: int)
    requires
        0 <= i <= k < s.len(),
        s[k] == c,
        forall|j: int| i <= j < k ==> #[trigger] s[j] != c,
    ensures
        find_char_from(s, c, i) == Some(k),
    decreases k - i,
{
    if i < k {
        lemma_find_char_at(s, c, i + 1, k);
    }
}

/// There is at least one piece.
pub proof fn lemma_split_nonempty(s: Seq<char>, c: char)
    ensures
        split_on(s, c).len() > 0,
    decreases s.len(),
{
    if s.len() > 0 {
        lemma_split_nonempty(s.drop_last(), c);
    }
}

/// A text without the separator is one piece.
pub proof fn lemma_split_whole(s: Seq<char>, c: char)
    requires
        forall|i: int| 0 <= i < s.len() ==> #[trigger] s[i] != c,
    ensures
        split_on(s, c) == seq![s],
    decreases s.len(),
{
    if s.len() > 0 {
        assert forall|i: int| 0 <= i < s.drop_last().len() implies #[trigger] s.drop_last()[i]
            != c by {
            assert(s.drop_last()[i] == s[i]);
        }
        lemma_split_whole(s.drop_last(), c);
        assert(s.last() != c);
        assert(s.drop_last().push(s.last()) =~= s);
        assert(split_on(s, c) =~= seq![s]);
    } else {
        assert(s =~= Seq::empty());
    }
}

/// Two texts joined by the separator have the pieces of both.
pub proof fn lemma_split_join(a: Seq<char>, c: char, b: Seq<char>)
    ensures
        split_on(a.push(c) + b, c) == split_on(a, c) + split_on(b, c),
    decreases b.len(),
{
    let s = a.push(c) + b;
    if b.len() == 0 {
        assert(s =~= a.push(c));
        assert(s.drop_last() =~= a);
        assert(split_on(b, c) =~= seq![Seq::<char>::empty()]);
        assert(split_on(s, c) =~= split_on(a, c) + split_on(b, c));
    } else {
        lemma_split_join(a, c, b.drop_last());
        assert(s.drop_last() =~= a.push(c) + b.drop_last());
        assert(s.last() == b.last());
        lemma_split_nonempty(b.drop_last(), c);
        let x = split_on(a, c);
        let y = split_on(b.drop_last(), c);
        if b.last() == c {
            assert((x + y).push(Seq::empty()) =~= x + y.push(Seq::empty()));
        } else {
            let l = y.last().push(b.last());
            assert((x + y).last() == y.last());
            assert((x + y).drop_last().push(l) =~= x + y.drop_last().push(l));
        }
    }
}

/// Does the text begin with `prefix`?
pub fn starts_with(s: &str, prefix: &str) -> (r: bool)
    ensures
        r == begins_with(s@, prefix@),
{
    let chars = chars_of(s);
    let p = chars_of(prefix);
    if p.len() > chars.len() {
        return false;
    }
    let head = string_of_range(chars.as_slice(), 0, p.len());
    same_text(head.as_str(), prefix)
}

/// What follows `prefix`, where the text begins with it.
pub fn strip_prefix(s: &str, prefix: &str) -> (r: Option<String>)
    ensures
        r is Some <==> begins_with(s@, prefix@),
        r matches Some(t) ==> t@ == s@.skip(prefix@.len() as int),
{
    if !starts_with(s, prefix) {
        return None;
    }
    let chars = chars_of(s);
    let p = chars_of(prefix);
    proof {
        assert(chars@.subrange(p@.len() as int, chars@.len() as int) =~= s@.skip(p@.len() as int));
    }
    Some(string_of_range(chars.as_slice(), p.len(), chars.len()))
}

/// Does the text end with `suffix`?
pub fn has_suffix(s: &str, suffix: &str) -> (r: bool)
    ensures
        r == ends_with(s@, suffix@),
{
    let chars = chars_of(s);
    let p = chars_of(suffix);
    if p.len() > chars.len() {
        return false;
    }
    let tail = string_of_range(chars.as_slice(), chars.len() - p.len(), chars.len());
    proof {
        assert(tail@ =~= s@.skip(s@.len() - suffix@.len()));
    }
    same_text(tail.as_str(), suffix)
}

/// Where `pat` first occurs in `chars` at or after `from`.
pub fn find_chars(chars: &[char], pat: &[char], from: usize) -> (r: Option<usize>)
    ensures
        r is Some <==> find_from(chars@, pat@, from as int) is Some,
        r matches Some(k) ==> find_from(chars@, pat@, from as int) == Some(k as int),
        r matches Some(k) ==> from <= k <= chars@.len() - pat@.len(),
{
    let n = chars.len();
    let m = pat.len();
    if m > n {
        return None;
    }
    let mut i: usize = from;
    while i <= n - m
        invariant
            n == chars.len(),
            m == pat.len(),
            m <= n,
            from <= i,
            find_from(chars@, pat@, from as int) == find_from(chars@, pat@, i as int),
        decreases n - i + 1,
    {
        let mut j: usize = 0;
        let mut same = true;
        while j < m && same
            invariant
                n == chars.len(),
                m == pat.len(),
                i + m <= n,
                j <= m,
                same ==> forall|k: int| 0 <= k < j ==> chars@[i + k] == #[trigger] pat@[k],
                !same ==> exists|k: int| 0 <= k < m && chars@[i + k] != #[trigger] pat@[k],
            decreases m - j + (if same { 1int } else { 0int }),
        {
            if chars[i + j] != pat[j] {
                same = false;
                proof {
                    assert(chars@[i + j] != pat@[j as int]);
                }
            } else {
                j += 1;
            }
        }
        if same {
            proof {
                assert(chars@.subrange(i as int, i + m) =~= pat@);
            }
            return Some(i);
        }
        proof {
            let k = choose|k: int| 0 <= k < m && chars@[i + k] != #[trigger] pat@[k];
            assert(chars@.subrange(i as int, i + m)[k] == chars@[i + k]);
        }
        if i == n - m {
            proof {
                assert(find_from(chars@, pat@, i + 1) is None);
            }
            return None;
        }
        i += 1;
    }
    None
}

/// Where `c` first occurs in `chars` at or after `from`.
pub fn find_char(chars: &[char], c: char, from: usize) -> (r: Option<usize>)
    ensures
        r is Some <==> find_char_from(chars@, c, from as int) is Some,
        r matches Some(k) ==> find_char_from(chars@, c, from as int) == Some(k as int),
        r matches Some(k) ==> from <= k < chars@.len() && chars@[k as int] == c,
{
    let mut i: usize = from;
    while i < chars.len()
        invariant
            from <= i,
            find_char_from(chars@, c, from as int) == find_char_from(chars@, c, i as int),
        decreases chars.len() - i,
    {
        if chars[i] == c {
            return Some(i);
        }
        i += 1;
    }
    None
}

/// Does `pat` occur in the text?
pub fn has_text(s: &str, pat: &str) -> (r: bool)
    ensures
        r == occurs_in(pat@, s@),
{
    let chars = chars_of(s);
    let p = chars_of(pat);
    find_chars(chars.as_slice(), p.as_slice(), 0).is_some()
}

/// The two sides of the first `c`.
pub fn split_once(s: &str, c: char) -> (r: Option<(String, String)>)
    ensures
        r is Some <==> cut_at(s@, c) is Some,
        r matches Some(p) ==> cut_at(s@, c) == Some((p.0@, p.1@)),
{
    let chars = chars_of(s);
    match find_char(chars.as_slice(), c, 0) {
        Some(i) => {
            let a = string_of_range(chars.as_slice(), 0, i);
            let n = chars.len();
            let b = string_of_range(chars.as_slice(), i + 1, n);
            proof {
                assert(a@ =~= s@.take(i as int));
                assert(b@ =~= s@.skip(i + 1));
            }
            Some((a, b))
        },
        None => None,
    }
}

/// The pieces between the occurrences of `c`.
pub fn split(s: &str, c: char) -> (r: Vec<String>)
    ensures
        texts(r@) == split_on(s@, c),
{
    let chars = chars_of(s);
    let mut out: Vec<String> = Vec::new();
    let mut piece = String::new();
    let mut i: usize = 0;
    proof {
        assert(chars@.take(0) =~= Seq::<char>::empty());
        assert(texts(out@).push(piece@) =~= split_on(chars@.take(0), c));
    }
    while i < chars.len()
        invariant
            i <= chars.len(),
            texts(out@).push(piece@) == split_on(chars@.take(i as int), c),
        decreases chars.len() - i,
    {
        proof {
            assert(chars@.take(i + 1).drop_last() =~= chars@.take(i as int));
            assert(chars@.take(i + 1).last() == chars@[i as int]);
            assert(texts(out@).push(piece@).drop_last() =~= texts(out@));
        }
        if chars[i] == c {
            proof {
                assert(texts(out@.push(piece)) =~= texts(out@).push(piece@));
            }
            out.push(piece);
            piece = String::new();
        } else {
            piece.push(chars[i]);
        }
        i += 1;
    }
    proof {
        assert(chars@.take(chars@.len() as int) =~= s@);
        assert(texts(out@.push(piece)) =~= texts(out@).push(piece@));
    }
    out.push(piece);
    out
}

/// The text with its ASCII letters in lower case.
pub fn to_ascii_lower(s: &str) -> (r: String)
    ensures
        r@ == ascii_lower(s@),
{
    let chars = chars_of(s);
    let low = lower_chars(chars.as_slice());
    string_of(low.as_slice())
}

/// The characters with the ASCII letters in lower case.
pub fn lower_chars(chars: &[char]) -> (r: Vec<char>)
    ensures
        r@ == ascii_lower(chars@),
{
    let mut out: Vec<char> = Vec::new();
    let mut i: usize = 0;
    while i < chars.len()
        invariant
            i <= chars.len(),
            out@ == ascii_lower(chars@.take(i as int)),
        decreases chars.len() - i,
    {
        let c = chars[i];
        let d: char = if 'A' <= c && c <= 'Z' {
            ((c as u8) + 32) as char
        } else {
            c
        };
        out.push(d);
        i += 1;
        proof {
            assert(ascii_lower(chars@.take(i as int)) =~= ascii_lower(chars@.take(i - 1)).push(d));
        }
    }
    proof {
        assert(chars@.take(chars@.len() as int) =~= chars@);
    }
    out
}

/// What `char::is_whitespace` answers beyond ASCII.
pub uninterp spec fn is_unicode_space(c: char) -> bool;

/// Is a character white space? In ASCII these are the space and the control
/// characters from the tab to the carriage return.
pub open spec fn is_space(c: char) -> bool {
    if c <= '\x7f' {
        c == ' ' || '\t' <= c <= '\r'
    } else {
        is_unicode_space(c)
    }
}

/// `char::is_whitespace`: whether the character has the Unicode property
/// White_Space. Up to `'\x7f'` it is the space, and the tab, line feed, vertical
/// tab, form feed and carriage return; beyond, the property's table is named and
/// not stated.
pub assume_specification[ char::is_whitespace ](c: char) -> (r: bool)
    ensures
        r == (if c <= '\x7f' {
            c == ' ' || '\t' <= c <= '\r'
        } else {
            is_unicode_space(c)
        }),
;

/// `s` without the white space at its start.
pub open spec fn trim_left(s: Seq<char>) -> Seq<char>
    decreases s.len(),
{
    if s.len() > 0 && is_space(s[0]) {
        trim_left(s.drop_first())
    } else {
        s
    }
}

/// `s` without the white space at its end.
pub open spec fn trim_right(s: Seq<char>) -> Seq<char>
    decreases s.len(),
{
    if s.len() > 0 && is_space(s.last()) {
        trim_right(s.drop_last())
    } else {
        s
    }
}

/// `s` without the white space at either end.
pub open spec fn trimmed(s: Seq<char>) -> Seq<char> {
    trim_right(trim_left(s))
}

/// The text without the white space at either end.
pub fn trim(s: &str) -> (r: String)
    ensures
        r@ == trimmed(s@),
{
    let chars = chars_of(s);
    let mut i: usize = 0;
    proof {
        assert(chars@.skip(0) =~= chars@);
    }
    while i < chars.len() && chars[i].is_whitespace()
        invariant
            i <= chars.len(),
            trim_left(chars@) == trim_left(chars@.skip(i as int)),
        decreases chars.len() - i,
    {
        proof {
            assert(chars@.skip(i as int).drop_first() =~= chars@.skip(i + 1));
        }
        i += 1;
    }
    let ghost left = chars@.skip(i as int);
    let mut j: usize = chars.len();
    proof {
        assert(chars@.subrange(i as int, j as int) =~= left);
    }
    while j > i && chars[j - 1].is_whitespace()
        invariant
            i <= j <= chars.len(),
            trim_right(left) == trim_right(chars@.subrange(i as int, j as int)),
        decreases j,
    {
        proof {
            assert(chars@.subrange(i as int, j as int).drop_last() =~= chars@.subrange(
                i as int,
                j - 1,
            ));
            assert(chars@.subrange(i as int, j as int).last() == chars@[j - 1]);
        }
        j -= 1;
    }
    proof {
        if j > i {
            assert(chars@.subrange(i as int, j as int).last() == chars@[j - 1]);
        }
    }
    string_of_range(chars.as_slice(), i, j)
}

/// The value of `key` among decoded query pairs: the last one counts.
pub open spec fn query_value(q: Seq<(String, String)>, key: Seq<char>) -> Option<Seq<char>>
    decreases q.len(),
{
    if q.len() == 0 {
        None
    } else if q.last().0@ == key {
        Some(q.last().1@)
    } else {
        query_value(q.drop_last(), key)
    }
}

/// The value of `key` among decoded query pairs.
pub fn query_get<'a>(q: &'a Vec<(String, String)>, key: &str) -> (r: Option<&'a String>)
    ensures
        r is Some <==> query_value(q@, key@) is Some,
        r matches Some(v) ==> query_value(q@, key@) == Some(v@),
{
    let mut i: usize = q.len();
    proof {
        assert(q@.take(i as int) =~= q@);
    }
    while i > 0
        invariant
            i <= q.len(),
            query_value(q@, key@) == query_value(q@.take(i as int), key@),
        decreases i,
    {
        i -= 1;
        proof {
            assert(q@.take(i + 1).drop_last() =~= q@.take(i as int));
            assert(q@.take(i + 1).last() == q@[i as int]);
        }
        if same_text(q[i].0.as_str(), key) {
            return Some(&q[i].1);
        }
    }
    None
}

/// How `Debug` shows a text.
pub uninterp spec fn quoted(s: Seq<char>) -> Seq<char>;

/// The `Debug` form of a `str`: in quotation marks, with escapes. Which
/// characters are escaped, and how, is named and not stated.
#[verifier::external_body]
pub(crate) fn quote(s: &str) -> (r: String)
    ensures
        r@ == quoted(s@),
{
    format!("{s:?}")
}

/// One text behind another.
pub fn join_texts(a: &str, b: &str) -> (r: String)
    ensures
        r@ == a@ + b@,
{
    let mut out = a.to_owned();
    vstd::string::StringExecFns::append(&mut out, b);
    out
}

/// A list with the same texts.
pub fn copy_texts(list: &Vec<String>) -> (r: Vec<String>)
    ensures
        texts(r@) == texts(list@),
{
    let mut out: Vec<String> = Vec::new();
    let mut i: usize = 0;
    while i < list.len()
        invariant
            i <= list.len(),
            out@.len() == i,
            forall|k: int| 0 <= k < i ==> (#[trigger] out@[k])@ == list@[k]@,
        decreases list.len() - i,
    {
        out.push(list[i].as_str().to_owned());
        i += 1;
    }
    proof {
        assert(texts(out@) =~= texts(list@));
    }
    out
}

/// A text is cut at the first occurrence of a character: the two sides and the
/// character make it up again, and it does not occur in the first side.
pub proof fn law_cut_texts_join_up(s: Seq<char>, c: char)
    ensures
        cut_at(s, c) matches Some(p) ==> p.0 + seq![c] + p.1 == s && !p.0.contains(c),
        cut_at(s, c) is Some <==> s.contains(c),
{
    lemma_find_char(s, c, 0);
    match find_char_from(s, c, 0) {
        Some(i) => {
            assert(s.take(i) + seq![c] + s.skip(i + 1) =~= s);
            assert(s.contains(s[i]));
            if s.take(i).contains(c) {
                let j = choose|j: int| 0 <= j < i && s.take(i)[j] == c;
                assert(s[j] == c);
            }
        },
        None => {
            if s.contains(c) {
                let j = choose|j: int| 0 <= j < s.len() && s[j] == c;
                assert(s[j] != c);
            }
        },
    }
}

/// The last pair of a name counts in a query, and a name that no pair has has no
/// value.
pub proof fn law_the_last_pair_counts(q: Seq<(String, String)>, i: int, key: Seq<char>)
    ensures
        0 <= i < q.len() && (forall|j: int| i < j < q.len() ==> (#[trigger] q[j]).0@ != q[i].0@)
            ==> query_value(q, q[i].0@) == Some(q[i].1@),
        (forall|j: int| 0 <= j < q.len() ==> (#[trigger] q[j]).0@ != key) ==> query_value(
            q,
            key,
        ) is None,
    decreases q.len(),
{
    if q.len() > 0 {
        let init = q.drop_last();
        law_the_last_pair_counts(init, i, key);
        assert(q[q.len() - 1] == q.last());
        assert forall|j: int| 0 <= j < init.len() implies #[trigger] init[j] == q[j] by {}
    }
}

/// Capitals of ASCII are lowered, and nothing else is changed.
pub proof fn law_capitals_are_lowered(s: Seq<char>, i: int)
    requires
        0 <= i < s.len(),
    ensures
        ascii_lower(s).len() == s.len(),
        !('A' <= s[i] <= 'Z') ==> ascii_lower(s)[i] == s[i],
        'A' <= s[i] <= 'Z' ==> ascii_lower(s)[i] as int == s[i] as int + 32,
{
}

/// Trimming takes white space off both ends and nothing else.
pub proof fn law_trimmed_texts_begin_and_end(s: Seq<char>)
    ensures
        trimmed(s).len() > 0 ==> !is_space(trimmed(s)[0]) && !is_space(trimmed(s).last()),
        s.len() > 0 && !is_space(s[0]) && !is_space(s.last()) ==> trimmed(s) == s,
{
    lemma_trim_left(s);
    lemma_trim_right(trim_left(s));
    lemma_trim_right(s);
}

proof fn lemma_trim_left(s: Seq<char>)
    ensures
        trim_left(s).len() > 0 ==> !is_space(trim_left(s)[0]),
        s.len() > 0 && !is_space(s[0]) ==> trim_left(s) == s,
    decreases s.len(),
{
    if s.len() > 0 && is_space(s[0]) {
        lemma_trim_left(s.skip(1));
        lemma_trim_left(s.drop_first());
    }
}

proof fn lemma_trim_right(s: Seq<char>)
    ensures
        trim_right(s).len() > 0 ==> !is_space(trim_right(s).last()) && trim_right(s)[0] == s[0],
        s.len() > 0 && !is_space(s.last()) ==> trim_right(s) == s,
    decreases s.len(),
{
    if s.len() > 0 && is_space(s.last()) {
        lemma_trim_right(s.drop_last());
    }
}

} // verus!

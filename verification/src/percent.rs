//! Percent-encoding of path segments and query values, and its inverse.
use crate::text::chars_of;
use vstd::prelude::*;
use vstd::utf8::{decode_utf8, encode_utf8, is_ascii_chars, valid_utf8};

verus! {

/// A byte that is written as itself: a letter, a digit, or one of `-_.~`.
pub open spec fn unreserved(b: u8) -> bool {
    ||| 65 <= b <= 90
    ||| 97 <= b <= 122
    ||| 48 <= b <= 57
    ||| b == 45
    ||| b == 95
    ||| b == 46
    ||| b == 126
}

/// The upper-case hexadecimal digit for `n`.
pub open spec fn hex_digit(n: int) -> char
    recommends
        0 <= n < 16,
{
    if n < 10 {
        ('0' as int + n) as char
    } else {
        ('A' as int + (n - 10)) as char
    }
}

/// How one byte is written.
pub open spec fn encode_byte(b: u8) -> Seq<char> {
    if unreserved(b) {
        seq![b as char]
    } else {
        seq!['%', hex_digit(b as int / 16), hex_digit(b as int % 16)]
    }
}

/// How bytes are written.
pub open spec fn encode_bytes(bytes: Seq<u8>) -> Seq<char>
    decreases bytes.len(),
{
    if bytes.len() == 0 {
        Seq::empty()
    } else {
        encode_bytes(bytes.drop_last()) + encode_byte(bytes.last())
    }
}

/// The percent-encoded form of a text.
pub open spec fn percent_encoded(s: Seq<char>) -> Seq<char> {
    encode_bytes(encode_utf8(s))
}

/// The value of a hexadecimal digit of either case.
pub open spec fn hex_value(c: char) -> Option<int> {
    if '0' <= c <= '9' {
        Some(c as int - '0' as int)
    } else if 'a' <= c <= 'f' {
        Some(c as int - 'a' as int + 10)
    } else if 'A' <= c <= 'F' {
        Some(c as int - 'A' as int + 10)
    } else {
        None
    }
}

/// The byte that two characters behind a percent sign stand for: two
/// hexadecimal digits, or a plus sign and one digit.
pub open spec fn escape_value(a: char, b: char) -> Option<u8> {
    match (hex_value(a), hex_value(b)) {
        (Some(x), Some(y)) => Some((x * 16 + y) as u8),
        (None, Some(y)) => if a == '+' {
            Some(y as u8)
        } else {
            None
        },
        _ => None,
    }
}

/// The bytes that a query value stands for: an escape is its byte, a plus sign
/// is a space, and a percent sign that starts no escape is itself.
pub open spec fn decoded_bytes(s: Seq<char>) -> Seq<u8>
    decreases s.len(),
{
    if s.len() == 0 {
        Seq::empty()
    } else if s[0] == '%' && s.len() >= 3 && escape_value(s[1], s[2]) is Some {
        seq![escape_value(s[1], s[2])->0] + decoded_bytes(s.skip(3))
    } else if s[0] == '+' {
        seq![32u8] + decoded_bytes(s.skip(1))
    } else {
        encode_utf8(seq![s[0]]) + decoded_bytes(s.skip(1))
    }
}

/// The text that `String::from_utf8_lossy` makes of bytes that are not UTF-8.
pub uninterp spec fn repaired_text(bytes: Seq<u8>) -> Seq<char>;

/// The text of some bytes: what they encode, or what is left of it.
pub open spec fn lossy_text(bytes: Seq<u8>) -> Seq<char> {
    if valid_utf8(bytes) {
        decode_utf8(bytes)
    } else {
        repaired_text(bytes)
    }
}

/// The text that a query value stands for.
pub open spec fn percent_decoded(s: Seq<char>) -> Seq<char> {
    lossy_text(decoded_bytes(s))
}

/// The two bytes behind a percent sign at `i` end where a character ends.
pub open spec fn whole_escape_at(s: Seq<char>, i: int) -> bool {
    0 <= i < s.len() - 1 && s[i] == '%' ==> {
        ||| s[i + 1] < '\u{80}' && (i + 2 < s.len() ==> s[i + 2] < '\u{80}')
        ||| '\u{80}' <= s[i + 1] < '\u{800}'
    }
}

/// The two bytes behind each percent sign end where a character ends.
pub open spec fn whole_escapes(s: Seq<char>) -> bool {
    forall|i: int| 0 <= i < s.len() ==> #[trigger] whole_escape_at(s, i)
}

/// `String::from_utf8_lossy`, turned into an owned string: the text of the
/// bytes where they are valid UTF-8, else a text with replacement characters;
/// where the replacements fall is not stated. Of no bytes it is the empty text,
/// and only of them.
#[verifier::external_body]
pub(crate) fn from_utf8_lossy(bytes: &[u8]) -> (r: String)
    ensures
        r@ == (if valid_utf8(bytes@) {
            decode_utf8(bytes@)
        } else {
            repaired_text(bytes@)
        }),
        r@.len() == 0 <==> bytes@.len() == 0,
{
    String::from_utf8_lossy(bytes).into_owned()
}

fn hex_char(n: u8) -> (r: char)
    requires
        n < 16,
    ensures
        r == hex_digit(n as int),
{
    if n < 10 {
        (48u8 + n) as char
    } else {
        (65u8 + (n - 10)) as char
    }
}

fn hex_digit_value(c: char) -> (r: Option<u8>)
    ensures
        r is Some <==> hex_value(c) is Some,
        r matches Some(n) ==> n < 16 && hex_value(c) == Some(n as int),
{
    if '0' <= c && c <= '9' {
        Some(c as u8 - 48)
    } else if 'a' <= c && c <= 'f' {
        Some(c as u8 - 97 + 10)
    } else if 'A' <= c && c <= 'F' {
        Some(c as u8 - 65 + 10)
    } else {
        None
    }
}

fn escape_byte(a: char, b: char) -> (r: Option<u8>)
    ensures
        r == escape_value(a, b),
{
    match (hex_digit_value(a), hex_digit_value(b)) {
        (Some(x), Some(y)) => Some(x * 16 + y),
        (None, Some(y)) => if a == '+' {
            Some(y)
        } else {
            None
        },
        _ => None,
    }
}

/// Percent-encodes a text: unreserved bytes stay, every other byte becomes
/// `%` and two upper-case hexadecimal digits.
pub fn encode(s: &str) -> (r: String)
    ensures
        r@ == percent_encoded(s@),
{
    let bytes = s.as_bytes();
    let mut out = String::new();
    let mut i: usize = 0;
    while i < bytes.len()
        invariant
            i <= bytes.len(),
            out@ == encode_bytes(bytes@.take(i as int)),
        decreases bytes.len() - i,
    {
        let b = bytes[i];
        proof {
            assert(bytes@.take(i + 1).drop_last() =~= bytes@.take(i as int));
            assert(bytes@.take(i + 1).last() == b);
        }
        let ghost before = out@;
        if (65 <= b && b <= 90) || (97 <= b && b <= 122) || (48 <= b && b <= 57) || b == 45 || b
            == 95 || b == 46 || b == 126 {
            out.push(b as char);
            proof {
                assert(out@ =~= before + encode_byte(b));
            }
        } else {
            out.push('%');
            out.push(hex_char(b / 16));
            out.push(hex_char(b % 16));
            proof {
                assert(out@ =~= before + encode_byte(b));
            }
        }
        i += 1;
    }
    proof {
        assert(bytes@.take(bytes@.len() as int) =~= bytes@);
    }
    out
}

/// Decodes a query value.
pub fn decode(s: &str) -> (r: String)
    requires
        whole_escapes(s@),
    ensures
        r@ == percent_decoded(s@),
        r@.len() == 0 <==> s@.len() == 0,
{
    let chars = chars_of(s);
    let mut out: Vec<u8> = Vec::new();
    let mut i: usize = 0;
    proof {
        assert(chars@.skip(0) =~= s@);
    }
    while i < chars.len()
        invariant
            i <= chars.len(),
            chars@ == s@,
            out@ + decoded_bytes(chars@.skip(i as int)) == decoded_bytes(s@),
        decreases chars.len() - i,
    {
        let ghost rest = chars@.skip(i as int);
        let ghost before = out@;
        let c = chars[i];
        let n = chars.len();
        let escape: Option<u8> = if c == '%' && n - i >= 3 {
            escape_byte(chars[i + 1], chars[i + 2])
        } else {
            None
        };
        match escape {
            Some(b) => {
                out.push(b);
                i += 3;
                proof {
                    assert(rest.skip(3) =~= chars@.skip(i as int));
                    assert(out@ + decoded_bytes(chars@.skip(i as int)) =~= before + (seq![b]
                        + decoded_bytes(rest.skip(3))));
                }
            },
            None => {
                if c == '+' {
                    out.push(32);
                    proof {
                        assert(rest.skip(1) =~= chars@.skip(i + 1));
                        assert(out@ + decoded_bytes(chars@.skip(i + 1)) =~= before + (seq![32u8]
                            + decoded_bytes(rest.skip(1))));
                    }
                } else {
                    let mut one = String::new();
                    one.push(c);
                    proof {
                        assert(one@ =~= seq![c]);
                    }
                    let bytes = one.as_str().as_bytes();
                    out.extend_from_slice(bytes);
                    proof {
                        assert(out@ =~= before + encode_utf8(seq![c]));
                        assert(rest.skip(1) =~= chars@.skip(i + 1));
                        assert(out@ + decoded_bytes(chars@.skip(i + 1)) =~= before + (encode_utf8(
                            seq![c],
                        ) + decoded_bytes(rest.skip(1))));
                    }
                }
                i += 1;
            },
        }
    }
    proof {
        assert(chars@.skip(chars@.len() as int) =~= Seq::<char>::empty());
        assert(out@ =~= decoded_bytes(s@));
        if s@.len() > 0 {
            assert(encode_utf8(seq![s@[0]]).len() > 0) by {
                reveal_with_fuel(encode_utf8, 2);
            }
        }
    }
    from_utf8_lossy(out.as_slice())
}

/// Can the text be decoded without cutting a character in two?
pub fn has_whole_escapes(s: &str) -> (r: bool)
    ensures
        r == whole_escapes(s@),
{
    let chars = chars_of(s);
    let mut i: usize = 0;
    while i < chars.len()
        invariant
            i <= chars.len(),
            chars@ == s@,
            forall|j: int| 0 <= j < i ==> #[trigger] whole_escape_at(s@, j),
        decreases chars.len() - i,
    {
        let n = chars.len();
        if chars[i] == '%' && n - i >= 2 {
            let a = chars[i + 1];
            let b = if n - i >= 3 {
                chars[i + 2]
            } else {
                ' '
            };
            let ok = (a < '\u{80}' && b < '\u{80}') || ('\u{80}' <= a && a < '\u{800}');
            if !ok {
                proof {
                    assert(!whole_escape_at(s@, i as int));
                }
                return false;
            }
        }
        i += 1;
    }
    true
}

proof fn lemma_decode_prefix(a: Seq<char>, b: u8, rest: Seq<char>)
    requires
        a == encode_byte(b),
    ensures
        decoded_bytes(a + rest) == seq![b] + decoded_bytes(rest),
{
    let s = a + rest;
    if unreserved(b) {
        assert(s.skip(1) =~= rest);
        assert(s[0] == b as char);
        let one = seq![b as char];
        assert(is_ascii_chars(one));
        vstd::utf8::is_ascii_chars_encode_utf8(one);
        assert(encode_utf8(one) =~= seq![b]);
        assert(seq![s[0]] =~= one);
    } else {
        assert(s.skip(3) =~= rest);
        assert(s[0] == '%');
        let hi = b as int / 16;
        let lo = b as int % 16;
        assert(s[1] == hex_digit(hi));
        assert(s[2] == hex_digit(lo));
        assert(hex_value(hex_digit(hi)) == Some(hi));
        assert(hex_value(hex_digit(lo)) == Some(lo));
        assert(hi * 16 + lo == b);
    }
}

proof fn lemma_encode_front(bytes: Seq<u8>)
    requires
        bytes.len() > 0,
    ensures
        encode_bytes(bytes) == encode_byte(bytes[0]) + encode_bytes(bytes.skip(1)),
    decreases bytes.len(),
{
    if bytes.len() == 1 {
        assert(bytes.drop_last() =~= Seq::empty());
        assert(bytes.skip(1) =~= Seq::empty());
        assert(encode_bytes(bytes.drop_last()) =~= Seq::<char>::empty());
        assert(encode_bytes(bytes) =~= encode_byte(bytes[0]));
        assert(encode_byte(bytes[0]) + encode_bytes(bytes.skip(1)) =~= encode_byte(bytes[0]));
    } else {
        lemma_encode_front(bytes.drop_last());
        assert(bytes.drop_last().skip(1) =~= bytes.skip(1).drop_last());
        assert(encode_bytes(bytes) =~= encode_byte(bytes[0]) + (encode_bytes(
            bytes.skip(1).drop_last(),
        ) + encode_byte(bytes.last())));
    }
}

proof fn lemma_decode_encoded_bytes(bytes: Seq<u8>)
    ensures
        decoded_bytes(encode_bytes(bytes)) == bytes,
    decreases bytes.len(),
{
    if bytes.len() > 0 {
        lemma_encode_front(bytes);
        lemma_decode_encoded_bytes(bytes.skip(1));
        lemma_decode_prefix(encode_byte(bytes[0]), bytes[0], encode_bytes(bytes.skip(1)));
        assert(bytes =~= seq![bytes[0]] + bytes.skip(1));
    } else {
        assert(encode_bytes(bytes) =~= Seq::<char>::empty());
    }
}

proof fn lemma_encoded_ascii(bytes: Seq<u8>)
    ensures
        is_ascii_chars(encode_bytes(bytes)),
    decreases bytes.len(),
{
    if bytes.len() > 0 {
        lemma_encoded_ascii(bytes.drop_last());
        let a = encode_bytes(bytes.drop_last());
        let b = encode_byte(bytes.last());
        assert(is_ascii_chars(b));
        assert forall|i: int| 0 <= i < (a + b).len() implies '\0' <= #[trigger] (a + b)[i]
            <= '\u{7f}' by {
            if i < a.len() {
                assert((a + b)[i] == a[i]);
            } else {
                assert((a + b)[i] == b[i - a.len()]);
            }
        }
    }
}

/// Decoding undoes encoding: an encoded text is all ASCII, can be decoded, and
/// stands for the text it was made from.
pub proof fn law_decode_undoes_encode(s: Seq<char>)
    ensures
        is_ascii_chars(percent_encoded(s)),
        whole_escapes(percent_encoded(s)),
        percent_decoded(percent_encoded(s)) == s,
{
    let bytes = encode_utf8(s);
    lemma_encoded_ascii(bytes);
    lemma_decode_encoded_bytes(bytes);
    vstd::utf8::encode_utf8_valid_utf8(s);
    vstd::utf8::encode_utf8_decode_utf8(s);
}

} // verus!

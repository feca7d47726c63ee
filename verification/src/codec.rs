//! Standard Base64 (RFC 4648 alphabet, `=` padding) as the subscription and
//! provider files use it, and percent-decoding of link remarks.

use base64::Engine;
use vstd::prelude::*;

verus! {

/// The alphabet byte for a six-bit value.
pub open spec fn b64_char(v: int) -> u8 {
    if v < 26 {
        (65 + v) as u8
    } else if v < 52 {
        (97 + v - 26) as u8
    } else if v < 62 {
        (48 + v - 52) as u8
    } else if v == 62 {
        43u8
    } else {
        47u8
    }
}

/// `=`
pub open spec fn pad_byte() -> u8 {
    61u8
}

/// The padded standard Base64 encoding of a byte string: every three bytes
/// become four alphabet bytes; a last group of one or two bytes is padded
/// with `=` to four.
pub open spec fn b64_encode(b: Seq<u8>) -> Seq<u8>
    decreases b.len(),
{
    if b.len() == 0 {
        Seq::empty()
    } else if b.len() == 1 {
        seq![b64_char((b[0] as int) / 4), b64_char(((b[0] as int) % 4) * 16), pad_byte(), pad_byte()]
    } else if b.len() == 2 {
        seq![
            b64_char((b[0] as int) / 4),
            b64_char(((b[0] as int) % 4) * 16 + (b[1] as int) / 16),
            b64_char(((b[1] as int) % 16) * 4),
            pad_byte(),
        ]
    } else {
        seq![
            b64_char((b[0] as int) / 4),
            b64_char(((b[0] as int) % 4) * 16 + (b[1] as int) / 16),
            b64_char(((b[1] as int) % 16) * 4 + (b[2] as int) / 64),
            b64_char((b[2] as int) % 64),
        ] + b64_encode(b.skip(3))
    }
}

/// What a canonical padded decoder gives back: the bytes whose encoding is
/// `x`, or `None` when `x` is no such encoding.
pub open spec fn b64_decode(x: Seq<u8>) -> Option<Seq<u8>> {
    if exists|y: Seq<u8>| b64_encode(y) == x {
        Some(choose|y: Seq<u8>| b64_encode(y) == x)
    } else {
        None
    }
}

proof fn lemma_b64_char(v: int, w: int)
    requires
        0 <= v < 64,
        0 <= w < 64,
    ensures
        b64_char(v) != pad_byte(),
        b64_char(v) == b64_char(w) ==> v == w,
{
}

proof fn lemma_b64_len(b: Seq<u8>)
    ensures
        b64_encode(b).len() == 4 * ((b.len() + 2) / 3),
    decreases b.len(),
{
    if b.len() >= 3 {
        lemma_b64_len(b.skip(3));
    }
}

proof fn lemma_digit_split(x1: int, y1: int, x2: int, y2: int, k: int)
    by (nonlinear_arith)
    requires
        0 <= y1 < k,
        0 <= y2 < k,
        x1 * k + y1 == x2 * k + y2,
    ensures
        x1 == x2,
        y1 == y2,
{
}

/// Two byte strings with the same encoding are equal.
pub proof fn lemma_b64_injective(a: Seq<u8>, b: Seq<u8>)
    requires
        b64_encode(a) == b64_encode(b),
    ensures
        a == b,
    decreases a.len(),
{
    lemma_b64_len(a);
    lemma_b64_len(b);
    let ea = b64_encode(a);
    let eb = b64_encode(b);
    if a.len() == 0 || b.len() == 0 {
        assert(a.len() == 0 && b.len() == 0);
        assert(a =~= b);
        return;
    }
    assert(ea[0] == eb[0] && ea[1] == eb[1] && ea[2] == eb[2] && ea[3] == eb[3]);
    lemma_b64_char((a[0] as int) / 4, (b[0] as int) / 4);
    if a.len() == 1 {
        if b.len() >= 2 {
            if b.len() == 2 {
                lemma_b64_char(((b[1] as int) % 16) * 4, 0);
            } else {
                lemma_b64_char(((b[1] as int) % 16) * 4 + (b[2] as int) / 64, 0);
            }
            assert(false);
        }
        lemma_b64_char(((a[0] as int) % 4) * 16, ((b[0] as int) % 4) * 16);
        assert(a =~= b);
        return;
    }
    if b.len() == 1 {
        if a.len() == 2 {
            lemma_b64_char(((a[1] as int) % 16) * 4, 0);
        } else {
            lemma_b64_char(((a[1] as int) % 16) * 4 + (a[2] as int) / 64, 0);
        }
        assert(false);
    }
    lemma_b64_char(((a[0] as int) % 4) * 16 + (a[1] as int) / 16, ((b[0] as int) % 4) * 16 + (b[1] as int) / 16);
    if a.len() == 2 {
        if b.len() >= 3 {
            lemma_b64_char((b[2] as int) % 64, 0);
            assert(false);
        }
        lemma_b64_char(((a[1] as int) % 16) * 4, ((b[1] as int) % 16) * 4);
        assert(a =~= b);
        return;
    }
    if b.len() == 2 {
        lemma_b64_char((a[2] as int) % 64, 0);
        assert(false);
    }
    lemma_b64_char(((a[1] as int) % 16) * 4 + (a[2] as int) / 64, ((b[1] as int) % 16) * 4 + (b[2] as int) / 64);
    lemma_b64_char((a[2] as int) % 64, (b[2] as int) % 64);
    let (a0, a1, a2, b0, b1, b2) = (a[0] as int, a[1] as int, a[2] as int, b[0] as int, b[1] as int, b[2] as int);
    assert(ea[1] == b64_char((a0 % 4) * 16 + a1 / 16));
    assert(eb[1] == b64_char((b0 % 4) * 16 + b1 / 16));
    assert((a0 % 4) * 16 + a1 / 16 == (b0 % 4) * 16 + b1 / 16);
    lemma_digit_split(a0 % 4, a1 / 16, b0 % 4, b1 / 16, 16);
    assert(ea[2] == b64_char((a1 % 16) * 4 + a2 / 64));
    assert(eb[2] == b64_char((b1 % 16) * 4 + b2 / 64));
    assert((a1 % 16) * 4 + a2 / 64 == (b1 % 16) * 4 + b2 / 64);
    lemma_digit_split(a1 % 16, a2 / 64, b1 % 16, b2 / 64, 4);
    assert(ea[3] == b64_char(a2 % 64) && eb[3] == b64_char(b2 % 64));
    assert(a2 % 64 == b2 % 64);
    assert(ea[0] == b64_char(a0 / 4) && eb[0] == b64_char(b0 / 4));
    assert(a0 / 4 == b0 / 4);
    assert(a0 == 4 * (a0 / 4) + a0 % 4 && b0 == 4 * (b0 / 4) + b0 % 4);
    assert(a1 == 16 * (a1 / 16) + a1 % 16 && b1 == 16 * (b1 / 16) + b1 % 16);
    assert(a2 == 64 * (a2 / 64) + a2 % 64 && b2 == 64 * (b2 / 64) + b2 % 64);
    assert(a[0] == b[0] && a[1] == b[1] && a[2] == b[2]);
    assert(b64_encode(a.skip(3)) =~= ea.skip(4));
    assert(b64_encode(b.skip(3)) =~= eb.skip(4));
    lemma_b64_injective(a.skip(3), b.skip(3));
    assert(a =~= seq![a[0], a[1], a[2]] + a.skip(3));
    assert(b =~= seq![b[0], b[1], b[2]] + b.skip(3));
}

/// Decoding gives back exactly what was encoded.
pub proof fn law_b64_roundtrip(b: Seq<u8>)
    ensures
        b64_decode(b64_encode(b)) == Some(b),
{
    let x = b64_encode(b);
    assert(exists|y: Seq<u8>| b64_encode(y) == x);
    let w = choose|y: Seq<u8>| b64_encode(y) == x;
    lemma_b64_injective(w, b);
}

/// Decodes with `base64::engine::general_purpose::STANDARD`, which accepts
/// exactly the padded encodings with zero trailing bits.
#[verifier::external_body]
pub(crate) fn b64_decode_bytes(input: &[u8]) -> (r: Option<Vec<u8>>)
    ensures
        r is Some <==> exists|y: Seq<u8>| b64_encode(y) == input@,
        r matches Some(v) ==> b64_encode(v@) == input@,
{
    base64::engine::general_purpose::STANDARD.decode(input).ok()
}

/// Decodes `input` as padded standard Base64.
pub fn b64_decode_checked(input: &[u8]) -> (r: Option<Vec<u8>>)
    ensures
        match (r, b64_decode(input@)) {
            (Some(v), Some(w)) => v@ == w,
            (None, None) => true,
            _ => false,
        },
{
    let r = b64_decode_bytes(input);
    proof {
        if r is Some {
            let w = choose|y: Seq<u8>| b64_encode(y) == input@;
            lemma_b64_injective(r->0@, w);
        }
    }
    r
}

/// The encoding as text.
pub open spec fn b64_text(b: Seq<u8>) -> Seq<char> {
    b64_encode(b).map_values(|x: u8| x as char)
}

/// Encodes with `base64::engine::general_purpose::STANDARD`.
#[verifier::external_body]
pub(crate) fn b64_encode_text(input: &[u8]) -> (r: String)
    ensures
        r@ == b64_text(input@),
{
    base64::engine::general_purpose::STANDARD.encode(input)
}

/// The value of an ASCII hexadecimal digit byte.
pub open spec fn hex_val(b: u8) -> Option<int> {
    if 48 <= b <= 57 {
        Some(b - 48)
    } else if 65 <= b <= 70 {
        Some(b - 65 + 10)
    } else if 97 <= b <= 102 {
        Some(b - 97 + 10)
    } else {
        None
    }
}

/// Percent-decoding of a byte string: `%` and two hexadecimal digits become
/// that byte; a `%` followed by one hexadecimal digit and another byte keeps
/// both and goes on after the digit; any other `%` is kept; everything else,
/// `+` included, is kept as it is.
pub open spec fn pct_decode(b: Seq<u8>) -> Seq<u8>
    decreases b.len(),
{
    if b.len() == 0 {
        Seq::empty()
    } else if b[0] != 37 {
        seq![b[0]] + pct_decode(b.skip(1))
    } else if b.len() < 3 {
        b
    } else {
        match (hex_val(b[1]), hex_val(b[2])) {
            (Some(h), Some(l)) => seq![(h * 16 + l) as u8] + pct_decode(b.skip(3)),
            (Some(_), None) => seq![37u8, b[1]] + pct_decode(b.skip(2)),
            _ => seq![37u8] + pct_decode(b.skip(1)),
        }
    }
}

/// Decodes a percent-encoded string with `urlencoding::decode`: the decoded
/// bytes must be UTF-8, else it fails.
#[verifier::external_body]
pub(crate) fn url_decode(s: &str) -> (r: Option<String>)
    ensures
        r is Some <==> vstd::utf8::valid_utf8(pct_decode(vstd::utf8::encode_utf8(s@))),
        r matches Some(t) ==> t@ == vstd::utf8::decode_utf8(pct_decode(vstd::utf8::encode_utf8(s@))),
{
    urlencoding::decode(s).ok().map(|c| c.into_owned())
}

/// A byte left as it is by percent-encoding: an ASCII letter or digit, or
/// `-`, `.`, `_`, `~`.
pub open spec fn pct_safe(b: u8) -> bool {
    (48 <= b <= 57) || (65 <= b <= 90) || (97 <= b <= 122) || b == 45 || b == 46 || b == 95 || b == 126
}

/// The upper-case hexadecimal digit of a value below sixteen.
pub open spec fn hex_digit(v: int) -> char {
    if v < 10 {
        (48 + v) as char
    } else {
        (55 + v) as char
    }
}

/// Percent-encoding of a byte string: safe bytes as they are, every other
/// byte as `%` and two upper-case hexadecimal digits.
pub open spec fn pct_encode(b: Seq<u8>) -> Seq<char>
    decreases b.len(),
{
    if b.len() == 0 {
        Seq::empty()
    } else {
        let head = if pct_safe(b[0]) {
            seq![b[0] as char]
        } else {
            seq!['%', hex_digit((b[0] as int) / 16), hex_digit((b[0] as int) % 16)]
        };
        head + pct_encode(b.skip(1))
    }
}

/// Percent-encodes the UTF-8 bytes of `s` with `urlencoding::encode`.
#[verifier::external_body]
pub(crate) fn url_encode(s: &str) -> (r: String)
    ensures
        r@ == pct_encode(vstd::utf8::encode_utf8(s@)),
{
    urlencoding::encode(s).into_owned()
}

} // verus!

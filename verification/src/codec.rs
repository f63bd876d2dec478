//! Text encodings the runtime exchanges with its callers: URL-safe base64
//! without padding (identities, payloads) and the 26-character
//! Crockford-base32 form of 128-bit ULIDs (wake identifiers).
//!
//! Both are computed by the `base64` and `ulid` crates; the contracts below
//! state, in a few lines each, what those crates compute.

use vstd::prelude::*;
use vstd::arithmetic::power2::{pow2, lemma_pow2_adds, lemma_pow2_pos, lemma_pow2_strictly_increases, lemma2_to64};
use vstd::arithmetic::div_mod::{lemma_div_denominator, lemma_fundamental_div_mod, lemma_small_mod, lemma_div_is_ordered_by_denominator};
use base64::Engine;

verus! {

/// The character of the URL-safe base64 alphabet for a 6-bit value.
pub open spec fn b64_char(v: int) -> char {
    if v < 26 {
        ((65 + v) as u32) as char
    } else if v < 52 {
        ((97 + v - 26) as u32) as char
    } else if v < 62 {
        ((48 + v - 52) as u32) as char
    } else if v == 62 {
        '-'
    } else {
        '_'
    }
}

/// URL-safe base64 encoding without padding.
pub open spec fn b64_encoding(b: Seq<u8>) -> Seq<char>
    decreases b.len(),
{
    if b.len() == 0 {
        seq![]
    } else if b.len() == 1 {
        seq![b64_char(b[0] as int / 4), b64_char((b[0] as int % 4) * 16)]
    } else if b.len() == 2 {
        seq![
            b64_char(b[0] as int / 4),
            b64_char((b[0] as int % 4) * 16 + b[1] as int / 16),
            b64_char((b[1] as int % 16) * 4),
        ]
    } else {
        seq![
            b64_char(b[0] as int / 4),
            b64_char((b[0] as int % 4) * 16 + b[1] as int / 16),
            b64_char((b[1] as int % 16) * 4 + b[2] as int / 64),
            b64_char(b[2] as int % 64),
        ] + b64_encoding(b.subrange(3, b.len() as int))
    }
}

/// `s` is the encoding of some byte string.
pub open spec fn is_b64_text(s: Seq<char>) -> bool {
    exists|b: Seq<u8>| b64_encoding(b) == s
}

/// The message of the error that decoding `s` reports.
pub uninterp spec fn b64_decode_error_text(s: Seq<char>) -> Seq<char>;

/// Encodes bytes as URL-safe base64 without padding, through
/// `base64::engine::general_purpose::URL_SAFE_NO_PAD.encode`.
#[verifier::external_body]
pub(crate) fn b64_encode_bytes(b: &[u8]) -> (s: String)
    ensures
        s@ == b64_encoding(b@),
{
    base64::engine::general_purpose::URL_SAFE_NO_PAD.encode(b)
}

/// URL-safe base64 of `bytes`, without padding (the payload and response
/// wire format).
pub fn b64_encode(bytes: &[u8]) -> (s: String)
    ensures
        s@ == b64_encoding(bytes@),
{
    b64_encode_bytes(bytes)
}

/// Decodes URL-safe base64 without padding, through
/// `base64::engine::general_purpose::URL_SAFE_NO_PAD.decode`. That engine
/// rejects padding, non-alphabet characters and non-zero trailing bits, so
/// it accepts exactly the canonical encodings: decoding succeeds with `b`
/// iff `s` is the encoding of `b`. On failure the error's message is
/// returned.
#[verifier::external_body]
pub(crate) fn b64_decode_text(s: &str) -> (r: Result<Vec<u8>, String>)
    ensures
        r matches Ok(b) ==> b64_encoding(b@) == s@,
        r is Err <==> !is_b64_text(s@),
        r matches Err(m) ==> m@ == b64_decode_error_text(s@),
{
    match base64::engine::general_purpose::URL_SAFE_NO_PAD.decode(s.as_bytes()) {
        Ok(b) => Ok(b),
        Err(e) => Err(e.to_string()),
    }
}

/// The character of the Crockford-base32 alphabet for a 5-bit value:
/// the digits, then the upper-case letters without I, L, O and U.
pub open spec fn crockford_char(d: int) -> char {
    let code: int = if d < 10 {
        48 + d
    } else if d < 18 {
        65 + d - 10
    } else if d < 20 {
        74 + d - 18
    } else if d < 22 {
        77 + d - 20
    } else if d < 27 {
        80 + d - 22
    } else {
        86 + d - 27
    };
    (code as u32) as char
}

/// The Crockford-base32 alphabet used by ULIDs, `0`-`9` then `A`-`Z`
/// without I, L, O and U.
pub open spec fn crockford_alphabet() -> Seq<char> {
    Seq::new(32, |d: int| crockford_char(d))
}

/// The 26-character rendering of a 128-bit value: five bits per
/// character, most significant first (the first character carries the
/// top three bits).
pub open spec fn ulid_text(bits: u128) -> Seq<char> {
    Seq::new(
        26,
        |i: int| crockford_alphabet()[(bits as int / pow2((125 - 5 * i) as nat) as int) % 32],
    )
}

/// The value of a character when decoding: the alphabet in either case.
pub open spec fn ulid_char_value(c: char) -> Option<int> {
    if exists|i: int| 0 <= i < 32 && crockford_alphabet()[i] == c {
        Some(choose|i: int| 0 <= i < 32 && crockford_alphabet()[i] == c)
    } else if 'a' <= c <= 'z' && exists|i: int|
        10 <= i < 32 && crockford_alphabet()[i] == ((c as u32 - 32) as char) {
        Some(choose|i: int| 10 <= i < 32 && crockford_alphabet()[i] == ((c as u32 - 32) as char))
    } else {
        None
    }
}

/// Every character decodes.
pub open spec fn ulid_chars_valid(s: Seq<char>) -> bool {
    forall|i: int| 0 <= i < s.len() ==> ulid_char_value(#[trigger] s[i]) is Some
}

/// Decoded value: five bits per character, shifted in from the right,
/// keeping the low 128 bits.
pub open spec fn ulid_value(s: Seq<char>) -> int
    decreases s.len(),
{
    if s.len() == 0 {
        0
    } else {
        (ulid_value(s.drop_last()) * 32 + ulid_char_value(s.last())->0) % pow2(128) as int
    }
}

/// Width in bytes of the UTF-8 encoding of a character.
pub open spec fn utf8_width(c: char) -> nat {
    if (c as u32) < 0x80 {
        1
    } else if (c as u32) < 0x800 {
        2
    } else if (c as u32) < 0x10000 {
        3
    } else {
        4
    }
}

/// Length in bytes of the UTF-8 encoding of a string.
pub open spec fn utf8_len(s: Seq<char>) -> nat
    decreases s.len(),
{
    if s.len() == 0 {
        0
    } else {
        utf8_len(s.drop_last()) + utf8_width(s.last())
    }
}

/// Why a string is not a ULID.
#[derive(Clone, Copy, Debug, PartialEq, Eq, Structural)]
pub enum UlidDecodeError {
    /// The string is not 26 bytes long.
    InvalidLength,
    /// A character outside the Crockford alphabet.
    InvalidChar,
}

impl UlidDecodeError {
    /// The error's message, as `ulid::DecodeError` displays it.
    pub fn to_string(&self) -> (s: String)
        ensures
            s@ == ulid_error_text(*self),
    {
        match self {
            UlidDecodeError::InvalidLength => String::from_str("invalid length"),
            UlidDecodeError::InvalidChar => String::from_str("invalid character"),
        }
    }
}

pub open spec fn ulid_error_text(e: UlidDecodeError) -> Seq<char> {
    match e {
        UlidDecodeError::InvalidLength => "invalid length"@,
        UlidDecodeError::InvalidChar => "invalid character"@,
    }
}

/// A fresh 128-bit ULID (millisecond timestamp in the top 48 bits, random
/// low 80 bits), from `ulid::Ulid::new`. Nothing is stated of the value:
/// it depends on the clock and on chance.
#[verifier::external_body]
pub(crate) fn ulid_generate() -> (bits: u128) {
    ulid::Ulid::new().0
}

/// Renders 128 bits in the ULID text form, through `ulid::Ulid::to_string`.
#[verifier::external_body]
pub(crate) fn ulid_encode(bits: u128) -> (s: String)
    ensures
        s@ == ulid_text(bits),
{
    ulid::Ulid(bits).to_string()
}

/// Parses the ULID text form, through `ulid::Ulid::from_string`: the string
/// must be 26 bytes of Crockford-base32 characters in either case.
#[verifier::external_body]
pub(crate) fn ulid_decode(s: &str) -> (r: Result<u128, UlidDecodeError>)
    ensures
        r matches Ok(v) ==> v as int == ulid_value(s@),
        r is Ok <==> (s@.len() == 26 && ulid_chars_valid(s@)),
        r matches Err(e) ==> (e == UlidDecodeError::InvalidLength <==> utf8_len(s@) != 26),
{
    match ulid::Ulid::from_string(s) {
        Ok(u) => Ok(u.0),
        Err(ulid::DecodeError::InvalidLength) => Err(UlidDecodeError::InvalidLength),
        Err(ulid::DecodeError::InvalidChar) => Err(UlidDecodeError::InvalidChar),
    }
}

/// Distinct positions of the alphabet hold distinct characters.
proof fn lemma_alphabet_distinct()
    ensures
        forall|i: int, j: int| 0 <= i < 32 && 0 <= j < 32 && i != j ==> crockford_alphabet()[i] != crockford_alphabet()[j],
{
    assert forall|i: int, j: int| 0 <= i < 32 && 0 <= j < 32 && i != j implies crockford_alphabet()[i]
        != crockford_alphabet()[j] by {
        assert((crockford_char(i) as u32) != (crockford_char(j) as u32));
    }
}

/// A character of the alphabet decodes to its position.
proof fn lemma_char_value(d: int)
    requires
        0 <= d < 32,
    ensures
        ulid_char_value(crockford_alphabet()[d]) == Some(d),
{
    lemma_alphabet_distinct();
    let c = crockford_alphabet()[d];
    assert(exists|i: int| 0 <= i < 32 && crockford_alphabet()[i] == c);
}

/// The first `n` characters of the rendering decode to the top bits.
proof fn lemma_ulid_prefix_value(bits: u128, n: int)
    requires
        0 <= n <= 26,
    ensures
        ulid_value(ulid_text(bits).take(n)) == bits as int / pow2((130 - 5 * n) as nat) as int,
    decreases n,
{
    lemma2_to64();
    lemma_pow2_adds(64, 64);
    let b = bits as int;
    if n == 0 {
        assert(ulid_text(bits).take(0) =~= Seq::<char>::empty());
        lemma_pow2_adds(128, 2);
        assert(pow2(130) == pow2(128) * 4);
        assert(b < pow2(130) as int);
        assert(b / pow2(130) as int == 0) by {
            lemma_pow2_pos(130);
            vstd::arithmetic::div_mod::lemma_basic_div(b, pow2(130) as int);
        }
    } else {
        lemma_ulid_prefix_value(bits, n - 1);
        let s = ulid_text(bits).take(n);
        assert(s.drop_last() =~= ulid_text(bits).take(n - 1));
        let e = (130 - 5 * n) as nat;
        let q = b / pow2(e) as int;
        lemma_pow2_pos(e);
        lemma_pow2_adds(e, 5);
        assert(pow2(5) == 32);
        assert((135 - 5 * n) as nat == e + 5);
        lemma_div_denominator(b, pow2(e) as int, 32);
        assert(b / pow2((135 - 5 * n) as nat) as int == q / 32);
        assert(s.last() == crockford_alphabet()[q % 32]);
        lemma_char_value(q % 32);
        lemma_fundamental_div_mod(q, 32);
        assert(q / 32 * 32 + q % 32 == q);
        assert(0 <= q <= b) by {
            vstd::arithmetic::div_mod::lemma_div_pos_is_pos(b, pow2(e) as int);
            vstd::arithmetic::div_mod::lemma_div_is_ordered_by_denominator(b, 1, pow2(e) as int);
        }
        lemma_small_mod(q as nat, pow2(128));
    }
}

/// The rendering of 128 bits is 26 alphabet characters that decode back
/// to the same bits.
pub proof fn lemma_ulid_text_decodes(bits: u128)
    ensures
        ulid_text(bits).len() == 26,
        ulid_chars_valid(ulid_text(bits)),
        ulid_value(ulid_text(bits)) == bits as int,
{
    let t = ulid_text(bits);
    assert forall|i: int| 0 <= i < t.len() implies ulid_char_value(#[trigger] t[i]) is Some by {
        let v = (bits as int / pow2((125 - 5 * i) as nat) as int) % 32;
        lemma_char_value(v);
    }
    lemma_ulid_prefix_value(bits, 26);
    assert(t.take(26) =~= t);
    assert(pow2(0) == 1) by {
        lemma2_to64();
    }
    assert((130 - 5 * 26) as nat == 0);
    assert(bits as int / 1 == bits as int);
}

/// Distinct 6-bit values have distinct characters.
proof fn lemma_b64_char_injective(v: int, w: int)
    requires
        0 <= v < 64,
        0 <= w < 64,
        b64_char(v) == b64_char(w),
    ensures
        v == w,
{
    assert((b64_char(v) as u32) == (b64_char(w) as u32));
}

/// Length of an encoding: four characters per three bytes, two or three
/// for a trailing group of one or two bytes.
proof fn lemma_b64_encode_len(b: Seq<u8>)
    ensures
        b64_encoding(b).len() == 4 * (b.len() / 3) + (if b.len() % 3 == 0 { 0int } else { (b.len() % 3 + 1) as int }),
    decreases b.len(),
{
    if b.len() >= 3 {
        lemma_b64_encode_len(b.subrange(3, b.len() as int));
    }
}

/// Encoding is injective: a text is the encoding of at most one byte string.
pub proof fn lemma_b64_encode_injective(a: Seq<u8>, b: Seq<u8>)
    requires
        b64_encoding(a) == b64_encoding(b),
    ensures
        a == b,
    decreases a.len(),
{
    lemma_b64_encode_len(a);
    lemma_b64_encode_len(b);
    let e = b64_encoding(a);
    if a.len() == 0 || b.len() == 0 {
        assert(a.len() == 0 && b.len() == 0);
        assert(a =~= b);
    } else if a.len() < 3 || b.len() < 3 {
        assert(a.len() == b.len());
        if a.len() == 1 {
            lemma_b64_char_injective(a[0] as int / 4, b[0] as int / 4);
            lemma_b64_char_injective((a[0] as int % 4) * 16, (b[0] as int % 4) * 16);
            assert(a[0] == b[0]);
            assert(a =~= b);
        } else {
            lemma_b64_char_injective(a[0] as int / 4, b[0] as int / 4);
            lemma_b64_char_injective((a[0] as int % 4) * 16 + a[1] as int / 16, (b[0] as int % 4) * 16 + b[1] as int / 16);
            lemma_b64_char_injective((a[1] as int % 16) * 4, (b[1] as int % 16) * 4);
            assert(a[0] == b[0]);
            assert(a[1] == b[1]);
            assert(a =~= b);
        }
    } else {
        let ha = seq![
            b64_char(a[0] as int / 4),
            b64_char((a[0] as int % 4) * 16 + a[1] as int / 16),
            b64_char((a[1] as int % 16) * 4 + a[2] as int / 64),
            b64_char(a[2] as int % 64),
        ];
        let hb = seq![
            b64_char(b[0] as int / 4),
            b64_char((b[0] as int % 4) * 16 + b[1] as int / 16),
            b64_char((b[1] as int % 16) * 4 + b[2] as int / 64),
            b64_char(b[2] as int % 64),
        ];
        assert(b64_encoding(a) == ha + b64_encoding(a.subrange(3, a.len() as int)));
        assert(b64_encoding(b) == hb + b64_encoding(b.subrange(3, b.len() as int)));
        assert(e[0] == ha[0] && e[1] == ha[1] && e[2] == ha[2] && e[3] == ha[3]);
        assert(e[0] == hb[0] && e[1] == hb[1] && e[2] == hb[2] && e[3] == hb[3]);
        lemma_b64_char_injective(a[0] as int / 4, b[0] as int / 4);
        lemma_b64_char_injective((a[0] as int % 4) * 16 + a[1] as int / 16, (b[0] as int % 4) * 16 + b[1] as int / 16);
        lemma_b64_char_injective((a[1] as int % 16) * 4 + a[2] as int / 64, (b[1] as int % 16) * 4 + b[2] as int / 64);
        lemma_b64_char_injective(a[2] as int % 64, b[2] as int % 64);
        assert(a[0] == b[0]);
        assert(a[1] == b[1]);
        assert(a[2] == b[2]);
        let ra = a.subrange(3, a.len() as int);
        let rb = b.subrange(3, b.len() as int);
        assert(b64_encoding(ra) =~= e.subrange(4, e.len() as int));
        assert(b64_encoding(rb) =~= e.subrange(4, e.len() as int));
        lemma_b64_encode_injective(ra, rb);
        assert(a.len() == b.len());
        assert forall|i: int| 0 <= i < a.len() implies a[i] == b[i] by {
            if i >= 3 {
                assert(a[i] == ra[i - 3] && b[i] == rb[i - 3]);
            }
        }
        assert(a =~= b);
    }
}

/// The bytes a base64 text encodes (meaningful when it encodes some).
pub open spec fn b64_decoded(s: Seq<char>) -> Seq<u8> {
    choose|b: Seq<u8>| b64_encoding(b) == s
}

/// Decoding a text that encodes `b` gives `b`.
pub proof fn lemma_b64_decoded(b: Seq<u8>)
    ensures
        is_b64_text(b64_encoding(b)),
        b64_decoded(b64_encoding(b)) == b,
{
    assert(b64_encoding(b) == b64_encoding(b));
    let c = b64_decoded(b64_encoding(b));
    lemma_b64_encode_injective(c, b);
}

/// A valid base64 text is the encoding of what it decodes to: a response
/// decoded from text and encoded again is the same text.
pub proof fn lemma_b64_text_round_trip(s: Seq<char>)
    requires
        is_b64_text(s),
    ensures
        b64_encoding(b64_decoded(s)) == s,
{
}

} // verus!

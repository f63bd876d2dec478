//! Character-level helpers shared by the formatting and parsing code:
//! decimal rendering, zero padding, and building `String`s char by char.

use vstd::prelude::*;

verus! {

/// The ASCII digit for a value below ten.
pub open spec fn digit_char(v: int) -> char
    recommends 0 <= v < 10,
{
    ((v + 48) as u32) as char
}

/// Decimal rendering of a natural number, most significant digit first,
/// without leading zeros ("0" for zero).
pub open spec fn decimal(v: nat) -> Seq<char>
    decreases v,
{
    if v < 10 {
        seq![digit_char(v as int)]
    } else {
        decimal(v / 10).push(digit_char((v % 10) as int))
    }
}

/// `s` left-padded with `'0'` up to at least `width` characters.
pub open spec fn zero_pad(s: Seq<char>, width: nat) -> Seq<char>
    decreases width,
{
    if s.len() >= width || width == 0 {
        s
    } else {
        zero_pad(s, (width - 1) as nat).insert(0, '0')
    }
}

/// Decimal rendering padded with zeros to `width` digits, as `{:0width}` prints it.
pub open spec fn padded_decimal(v: nat, width: nat) -> Seq<char> {
    zero_pad(decimal(v), width)
}

/// The number a string of ASCII digits spells, most significant first.
pub open spec fn digits_value(s: Seq<char>) -> int
    decreases s.len(),
{
    if s.len() == 0 {
        0
    } else {
        digits_value(s.drop_last()) * 10 + (s.last() as int - 48)
    }
}

proof fn lemma_digit_char_value(v: int)
    requires
        0 <= v < 10,
    ensures
        digit_char(v) as int == v + 48,
{
}

/// A decimal rendering spells its value and has at least one digit.
pub proof fn lemma_decimal_value(v: nat)
    ensures
        digits_value(decimal(v)) == v,
        decimal(v).len() >= 1,
        v < 10 ==> decimal(v).len() == 1,
        10 <= v < 100 ==> decimal(v).len() == 2,
    decreases v,
{
    if v < 10 {
        lemma_digit_char_value(v as int);
        assert(decimal(v).drop_last() =~= Seq::<char>::empty());
        assert(digits_value(Seq::<char>::empty()) == 0);
        assert(decimal(v).last() == digit_char(v as int));
    } else {
        lemma_decimal_value(v / 10);
        lemma_digit_char_value((v % 10) as int);
        assert(decimal(v).drop_last() =~= decimal(v / 10));
        assert(decimal(v).last() == digit_char((v % 10) as int));
        assert((v / 10) * 10 + v % 10 == v);
    }
}

proof fn lemma_leading_zero_value(t: Seq<char>)
    ensures
        digits_value(t.insert(0, '0')) == digits_value(t),
    decreases t.len(),
{
    let u = t.insert(0, '0');
    if t.len() == 0 {
        assert(u.drop_last() =~= Seq::<char>::empty());
        assert(u.last() == '0');
        assert(digits_value(Seq::<char>::empty()) == 0);
        assert('0' as int == 48);
    } else {
        lemma_leading_zero_value(t.drop_last());
        assert(u.drop_last() =~= t.drop_last().insert(0, '0'));
        assert(u.last() == t.last());
    }
}

/// Zero padding keeps the value and reaches the width.
pub proof fn lemma_zero_pad(s: Seq<char>, width: nat)
    ensures
        digits_value(zero_pad(s, width)) == digits_value(s),
        zero_pad(s, width).len() == if s.len() >= width { s.len() } else { width },
    decreases width,
{
    if s.len() >= width || width == 0 {
    } else {
        lemma_zero_pad(s, (width - 1) as nat);
        lemma_leading_zero_value(zero_pad(s, (width - 1) as nat));
    }
}

/// Padded renderings of the same width are equal only for equal values;
/// one of a value below 100 padded to two digits has two characters.
pub proof fn lemma_padded_decimal(u: nat, v: nat, width: nat)
    ensures
        padded_decimal(u, width) == padded_decimal(v, width) ==> u == v,
        u < 100 && width == 2 ==> padded_decimal(u, width).len() == 2,
{
    lemma_decimal_value(u);
    lemma_decimal_value(v);
    lemma_zero_pad(decimal(u), width);
    lemma_zero_pad(decimal(v), width);
}

/// Appends one character to a `String`.
#[verifier::external_body]
pub(crate) fn push_char(s: &mut String, c: char)
    ensures
        final(s)@ == old(s)@.push(c),
{
    s.push(c);
}

/// The ASCII digit for `v`.
pub fn digit(v: u64) -> (c: char)
    requires
        v < 10,
    ensures
        c == digit_char(v as int),
{
    let b: u8 = v as u8;
    assert((b as u32 + 48) < 0xD800) by (bit_vector)
        requires b < 10u8;
    ((b + 48u8) as char)
}

/// Appends the decimal digits of `v` to `out`.
pub fn push_decimal(out: &mut String, v: u64)
    ensures
        final(out)@ == old(out)@ + decimal(v as nat),
    decreases v,
{
    if v < 10 {
        push_char(out, digit(v));
        assert(decimal(v as nat) =~= seq![digit_char(v as int)]);
        assert(final(out)@ =~= old(out)@ + decimal(v as nat));
    } else {
        push_decimal(out, v / 10);
        push_char(out, digit(v % 10));
        assert(final(out)@ =~= old(out)@ + decimal(v as nat));
    }
}

pub proof fn lemma_decimal_len_pos(v: nat)
    ensures
        decimal(v).len() >= 1,
    decreases v,
{
    if v >= 10 {
        lemma_decimal_len_pos(v / 10);
    }
}

pub proof fn lemma_decimal_len_ge(v: nat, k: nat, p: nat)
    requires
        p >= 1,
        v >= p,
        k >= 1,
        p == pow10(k),
    ensures
        decimal(v).len() >= k + 1,
    decreases k,
{
    if k == 1 {
        lemma_decimal_len_pos(v / 10);
    } else {
        lemma_decimal_len_ge(v / 10, (k - 1) as nat, p / 10);
    }
}

pub open spec fn pow10(k: nat) -> nat
    decreases k,
{
    if k == 0 {
        1
    } else {
        10 * pow10((k - 1) as nat)
    }
}

/// Appends `v` as at least two digits (`{:02}`).
pub fn push_padded2(out: &mut String, v: u64)
    requires
        v < 100,
    ensures
        final(out)@ == old(out)@ + padded_decimal(v as nat, 2),
{
    if v < 10 {
        push_char(out, '0');
        push_char(out, digit(v));
        assert(decimal(v as nat) =~= seq![digit_char(v as int)]);
        assert(zero_pad(decimal(v as nat), 1) =~= decimal(v as nat));
        assert(padded_decimal(v as nat, 2) =~= seq!['0', digit_char(v as int)]);
        assert(final(out)@ =~= old(out)@ + padded_decimal(v as nat, 2));
    } else {
        push_decimal(out, v);
        assert(decimal(v as nat) =~= decimal((v / 10) as nat).push(digit_char((v % 10) as int)));
        assert(decimal((v / 10) as nat).len() == 1);
        assert(padded_decimal(v as nat, 2) == decimal(v as nat));
    }
}

/// Appends `v` as at least four digits (`{:04}`).
pub fn push_padded4(out: &mut String, v: u64)
    requires
        v >= 1000,
    ensures
        final(out)@ == old(out)@ + padded_decimal(v as nat, 4),
{
    push_decimal(out, v);
    proof {
        assert(pow10(3) == 1000) by {
            reveal_with_fuel(pow10, 4);
        }
        lemma_decimal_len_ge(v as nat, 3, 1000);
    }
}

/// Appends every character of `t` to `out`.
pub fn push_str(out: &mut String, t: &str)
    ensures
        final(out)@ == old(out)@ + t@,
{
    out.append(t);
}

} // verus!

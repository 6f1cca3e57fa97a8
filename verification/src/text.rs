//! Text building: decimal and hexadecimal renderings of integers, and the
//! small string operations the rest of the library composes.

use vstd::prelude::*;

verus! {

/// `std::string::String::push`: appends one character to the string.
#[verifier::external_body]
pub(crate) fn push_char(s: &mut String, c: char)
    ensures
        final(s)@ == old(s)@.push(c),
{
    s.push(c);
}

/// `<str as PartialEq>::eq`: the two strings hold the same characters.
#[verifier::external_body]
pub(crate) fn str_equals(a: &str, b: &str) -> (r: bool)
    ensures
        r == (a@ == b@),
{
    a == b
}

/// Lower-case hexadecimal digit of a value below 16.
pub open spec fn hex_char(d: nat) -> char {
    if d < 10 {
        (48 + d) as char
    } else {
        (87 + d) as char
    }
}

/// Decimal digit of a value below 10.
pub open spec fn dec_char(d: nat) -> char {
    (48 + d) as char
}

/// Shortest lower-case hexadecimal rendering of `v` ("0" for zero).
pub open spec fn spec_hex_digits(v: nat) -> Seq<char>
    decreases v,
{
    if v < 16 {
        seq![hex_char(v)]
    } else {
        spec_hex_digits(v / 16).push(hex_char(v % 16))
    }
}

/// `s`, left-padded with '0' up to `width` characters.
pub open spec fn spec_pad_zero(s: Seq<char>, width: nat) -> Seq<char> {
    if s.len() >= width {
        s
    } else {
        Seq::new((width - s.len()) as nat, |i: int| '0') + s
    }
}

/// Lower-case hexadecimal rendering of `v`, zero-padded to `width`.
pub open spec fn spec_hex_padded(v: nat, width: nat) -> Seq<char> {
    spec_pad_zero(spec_hex_digits(v), width)
}

/// Shortest decimal rendering of `v`.
pub open spec fn spec_decimal(v: nat) -> Seq<char>
    decreases v,
{
    if v < 10 {
        seq![dec_char(v)]
    } else {
        spec_decimal(v / 10).push(dec_char(v % 10))
    }
}

/// Decimal rendering of a signed value, with a leading '-' when negative.
pub open spec fn spec_signed_decimal(v: int) -> Seq<char> {
    if v < 0 {
        seq!['-'] + spec_decimal((-v) as nat)
    } else {
        spec_decimal(v as nat)
    }
}

/// Two lower-case hexadecimal characters per byte, high nibble first.
pub open spec fn spec_hex_bytes(b: Seq<u8>) -> Seq<char>
    decreases b.len(),
{
    if b.len() == 0 {
        Seq::empty()
    } else {
        seq![hex_char((b[0] / 16) as nat), hex_char((b[0] % 16) as nat)] + spec_hex_bytes(
            b.drop_first(),
        )
    }
}

fn hex_digit(d: u8) -> (c: char)
    requires
        d < 16,
    ensures
        c == hex_char(d as nat),
{
    if d < 10 {
        (48 + d) as char
    } else {
        (87 + d) as char
    }
}

fn dec_digit(d: u8) -> (c: char)
    requires
        d < 10,
    ensures
        c == dec_char(d as nat),
{
    (48 + d) as char
}

/// Number of characters in the shortest hexadecimal rendering of `v`.
fn hex_digit_count(v: u64) -> (n: usize)
    ensures
        n == spec_hex_digits(v as nat).len(),
        n <= 16,
    decreases v,
{
    if v < 16 {
        1
    } else {
        let n = hex_digit_count(v / 16);
        proof {
            lemma_hex_digits_len_bound(v as nat);
        }
        n + 1
    }
}

proof fn lemma_hex_digits_len_bound(v: nat)
    requires
        v <= u64::MAX,
    ensures
        spec_hex_digits(v).len() <= 16,
        spec_hex_digits(v).len() >= 1,
    decreases v,
{
    if v >= 16 {
        lemma_hex_digits_len_bound(v / 16);
    }
    reveal_with_fuel(pow16, 17);
    assert(pow16(16) == 0x1_0000_0000_0000_0000);
    lemma_hex_len_upper(v, 16);
}

proof fn lemma_hex_len_upper(v: nat, k: nat)
    requires
        v < pow16(k),
        k >= 1,
    ensures
        spec_hex_digits(v).len() <= k,
    decreases v,
{
    if v >= 16 {
        assert(v / 16 < pow16((k - 1) as nat)) by {
            assert(pow16(k) == 16 * pow16((k - 1) as nat));
        }
        if k == 1 {
            assert(false);
        } else {
            lemma_hex_len_upper(v / 16, (k - 1) as nat);
        }
    }
}

spec fn pow16(k: nat) -> nat
    decreases k,
{
    if k == 0 {
        1
    } else {
        16 * pow16((k - 1) as nat)
    }
}

/// Shortest lower-case hexadecimal rendering of `v`.
pub fn hex_digits(v: u64) -> (s: String)
    ensures
        s@ == spec_hex_digits(v as nat),
    decreases v,
{
    if v < 16 {
        let mut s = String::new();
        push_char(&mut s, hex_digit(v as u8));
        s
    } else {
        let mut s = hex_digits(v / 16);
        push_char(&mut s, hex_digit((v % 16) as u8));
        s
    }
}

/// Lower-case hexadecimal rendering of `v`, zero-padded to `width`
/// characters (the `{:0width$x}` format).
pub fn hex_padded(v: u64, width: usize) -> (s: String)
    ensures
        s@ == spec_hex_padded(v as nat, width as nat),
{
    let digits = hex_digits(v);
    let count = hex_digit_count(v);
    let mut s = String::new();
    if count < width {
        let pad = width - count;
        let mut i: usize = 0;
        while i < pad
            invariant
                i <= pad,
                s@ == Seq::new(i as nat, |j: int| '0'),
            decreases pad - i,
        {
            push_char(&mut s, '0');
            i = i + 1;
            assert(s@ =~= Seq::new(i as nat, |j: int| '0'));
        }
    }
    s.append(digits.as_str());
    assert(s@ =~= spec_hex_padded(v as nat, width as nat));
    s
}

/// Shortest decimal rendering of `v` (the `{}` format of an unsigned integer).
pub fn u64_to_decimal(v: u64) -> (s: String)
    ensures
        s@ == spec_decimal(v as nat),
    decreases v,
{
    if v < 10 {
        let mut s = String::new();
        push_char(&mut s, dec_digit(v as u8));
        s
    } else {
        let mut s = u64_to_decimal(v / 10);
        push_char(&mut s, dec_digit((v % 10) as u8));
        s
    }
}

/// Decimal rendering of a signed value (the `{}` format of a signed integer).
pub fn i64_to_decimal(v: i64) -> (s: String)
    ensures
        s@ == spec_signed_decimal(v as int),
{
    if v < 0 {
        let magnitude: u64 = if v == i64::MIN {
            9223372036854775808u64
        } else {
            (-v) as u64
        };
        let digits = u64_to_decimal(magnitude);
        let mut s = String::new();
        push_char(&mut s, '-');
        s.append(digits.as_str());
        assert(s@ =~= spec_signed_decimal(v as int));
        s
    } else {
        u64_to_decimal(v as u64)
    }
}

/// `hex::encode`: renders bytes as lower-case hexadecimal, two characters per
/// byte, high nibble first.
#[verifier::external_body]
pub(crate) fn hex_encode(bytes: &[u8]) -> (s: String)
    ensures
        s@ == spec_hex_bytes(bytes@),
{
    hex::encode(bytes)
}

/// A string holding the characters of `s`.
pub fn owned(s: &str) -> (r: String)
    ensures
        r@ == s@,
{
    String::from_str(s)
}

/// The concatenation of two strings.
pub fn concat(a: &str, b: &str) -> (r: String)
    ensures
        r@ == a@ + b@,
{
    let mut r = String::from_str(a);
    r.append(b);
    r
}

/// The characters of a string.
pub fn chars_of(s: &str) -> (v: Vec<char>)
    ensures
        v@ == s@,
{
    let mut v: Vec<char> = Vec::new();
    for c in it: s.chars()
        invariant
            it.seq() == s@,
            v@ == s@.take(it.index() as int),
    {
        v.push(c);
        assert(v@ =~= s@.take(it.index() + 1));
    }
    assert(v@ =~= s@);
    v
}

} // verus!

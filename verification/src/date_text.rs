//! The text form `YYYY-MM-DD` in which days are stored and compared, and the
//! byte order in which the database compares such text.
use crate::calendar::CivilDate;
use vstd::prelude::*;
use vstd::utf8::encode_utf8;
use vstd::utf8::encode_utf8_decode_utf8;
use vstd::utf8::is_ascii_chars;
use vstd::utf8::is_ascii_chars_encode_utf8;

verus! {

/// The decimal digit character for `d` in 0 to 9.
pub open spec fn digit_char(d: int) -> char {
    (48 + d) as char
}

/// The decimal digits of `n`, most significant first, without leading zeros.
pub open spec fn decimal_digits(n: nat) -> Seq<char>
    decreases n,
{
    if n < 10 {
        seq![digit_char(n as int)]
    } else {
        decimal_digits(n / 10).push(digit_char((n % 10) as int))
    }
}

/// The digits of `n`, with zeros in front up to `width` characters.
pub open spec fn zero_padded(n: nat, width: nat) -> Seq<char> {
    let digits = decimal_digits(n);
    if digits.len() >= width {
        digits
    } else {
        Seq::new((width - digits.len()) as nat, |i: int| digit_char(0)) + digits
    }
}

/// A year as `%Y` writes it: four digits from 0 to 9999, and otherwise a sign
/// followed by at least four digits.
pub open spec fn year_text(year: int) -> Seq<char> {
    if 0 <= year <= 9999 {
        zero_padded(year as nat, 4)
    } else if year > 9999 {
        seq!['+'] + zero_padded(year as nat, 4)
    } else {
        seq!['-'] + zero_padded((-year) as nat, 4)
    }
}

/// A day written as `%Y-%m-%d`.
pub open spec fn ymd_text(d: CivilDate) -> Seq<char> {
    year_text(d.year as int) + seq!['-'] + zero_padded(d.month as nat, 2) + seq!['-']
        + zero_padded(d.day as nat, 2)
}

/// The bytes by which the database orders a text value.
pub open spec fn text_bytes(s: Seq<char>) -> Seq<u8> {
    encode_utf8(s)
}

/// Byte-wise lexicographic order, a proper prefix coming first.
pub open spec fn bytes_le(a: Seq<u8>, b: Seq<u8>) -> bool
    decreases a.len(),
{
    if a.len() == 0 {
        true
    } else if b.len() == 0 {
        false
    } else if a[0] < b[0] {
        true
    } else if a[0] > b[0] {
        false
    } else {
        bytes_le(a.drop_first(), b.drop_first())
    }
}

/// `a` sorts at or before `b` in the database's text order.
pub open spec fn text_le(a: Seq<char>, b: Seq<char>) -> bool {
    bytes_le(text_bytes(a), text_bytes(b))
}

/// `a` sorts strictly before `b` in the database's text order.
pub open spec fn text_lt(a: Seq<char>, b: Seq<char>) -> bool {
    text_le(a, b) && !text_le(b, a)
}

/// Every byte string is ordered with itself.
pub proof fn lemma_bytes_le_reflexive(a: Seq<u8>)
    ensures
        bytes_le(a, a),
    decreases a.len(),
{
    if a.len() > 0 {
        lemma_bytes_le_reflexive(a.drop_first());
    }
}

/// Any two byte strings are ordered one way or the other.
pub proof fn lemma_bytes_le_total(a: Seq<u8>, b: Seq<u8>)
    ensures
        bytes_le(a, b) || bytes_le(b, a),
    decreases a.len(),
{
    if a.len() > 0 && b.len() > 0 && a[0] == b[0] {
        lemma_bytes_le_total(a.drop_first(), b.drop_first());
    }
}

/// The byte order is transitive.
pub proof fn lemma_bytes_le_transitive(a: Seq<u8>, b: Seq<u8>, c: Seq<u8>)
    requires
        bytes_le(a, b),
        bytes_le(b, c),
    ensures
        bytes_le(a, c),
    decreases a.len(),
{
    if a.len() > 0 && b.len() > 0 && c.len() > 0 && a[0] == b[0] && b[0] == c[0] {
        lemma_bytes_le_transitive(a.drop_first(), b.drop_first(), c.drop_first());
    }
}

/// Byte strings that are ordered both ways are equal.
pub proof fn lemma_bytes_le_antisymmetric(a: Seq<u8>, b: Seq<u8>)
    requires
        bytes_le(a, b),
        bytes_le(b, a),
    ensures
        a == b,
    decreases a.len(),
{
    if a.len() > 0 {
        lemma_bytes_le_antisymmetric(a.drop_first(), b.drop_first());
        assert(a =~= seq![a[0]] + a.drop_first());
        assert(b =~= seq![b[0]] + b.drop_first());
    } else {
        assert(b =~= a);
    }
}

/// Any two texts are ordered one way or the other.
pub proof fn lemma_text_le_total(a: Seq<char>, b: Seq<char>)
    ensures
        text_le(a, b) || text_le(b, a),
{
    lemma_bytes_le_total(text_bytes(a), text_bytes(b));
}

/// The text order is transitive.
pub proof fn lemma_text_le_transitive(a: Seq<char>, b: Seq<char>, c: Seq<char>)
    requires
        text_le(a, b),
        text_le(b, c),
    ensures
        text_le(a, c),
{
    lemma_bytes_le_transitive(text_bytes(a), text_bytes(b), text_bytes(c));
}

/// Texts that are ordered both ways are the same text.
pub proof fn lemma_text_le_antisymmetric(a: Seq<char>, b: Seq<char>)
    requires
        text_le(a, b),
        text_le(b, a),
    ensures
        a == b,
{
    lemma_bytes_le_antisymmetric(text_bytes(a), text_bytes(b));
    encode_utf8_decode_utf8(a);
    encode_utf8_decode_utf8(b);
}

/// Compares two byte strings in the order of `bytes_le`.
pub fn bytes_at_most(a: &[u8], b: &[u8]) -> (r: bool)
    ensures
        r == bytes_le(a@, b@),
{
    let mut i: usize = 0;
    assert(a@.skip(0) =~= a@);
    assert(b@.skip(0) =~= b@);
    while i < a.len() && i < b.len()
        invariant
            i <= a@.len(),
            i <= b@.len(),
            forall|j: int| 0 <= j < i ==> a@[j] == b@[j],
            bytes_le(a@, b@) == bytes_le(a@.skip(i as int), b@.skip(i as int)),
        decreases a.len() - i,
    {
        if a[i] < b[i] {
            return true;
        }
        if a[i] > b[i] {
            return false;
        }
        assert(a@.skip(i as int).drop_first() =~= a@.skip(i + 1));
        assert(b@.skip(i as int).drop_first() =~= b@.skip(i + 1));
        i = i + 1;
    }
    i == a.len()
}

/// Whether `a` sorts at or before `b` in the database's text order.
pub fn text_at_most(a: &str, b: &str) -> (r: bool)
    ensures
        r == text_le(a@, b@),
{
    bytes_at_most(a.as_bytes(), b.as_bytes())
}

/// The ten characters of `YYYY-MM-DD` for a year from 0 to 9999.
pub open spec fn ymd_chars(y: int, m: int, d: int) -> Seq<char> {
    seq![
        digit_char(y / 1000),
        digit_char(y / 100 % 10),
        digit_char(y / 10 % 10),
        digit_char(y % 10),
        '-',
        digit_char(m / 10),
        digit_char(m % 10),
        '-',
        digit_char(d / 10),
        digit_char(d % 10),
    ]
}

proof fn lemma_two_digits(n: int)
    requires
        0 <= n < 100,
    ensures
        zero_padded(n as nat, 2) =~= seq![digit_char(n / 10), digit_char(n % 10)],
{
    reveal_with_fuel(decimal_digits, 3);
    if n >= 10 {
        assert(decimal_digits((n / 10) as nat) =~= seq![digit_char(n / 10)]);
    }
}

proof fn lemma_four_digits(n: int)
    requires
        0 <= n < 10000,
    ensures
        zero_padded(n as nat, 4) =~= seq![
            digit_char(n / 1000),
            digit_char(n / 100 % 10),
            digit_char(n / 10 % 10),
            digit_char(n % 10),
        ],
{
    reveal_with_fuel(decimal_digits, 5);
    if n >= 1000 {
        assert(n / 10 / 10 / 10 == n / 1000);
        assert(n / 10 / 10 % 10 == n / 100 % 10);
        assert(decimal_digits((n / 1000) as nat) =~= seq![digit_char(n / 1000)]);
    } else if n >= 100 {
        assert(n / 10 / 10 == n / 100);
        assert(decimal_digits((n / 100) as nat) =~= seq![digit_char(n / 100)]);
    } else if n >= 10 {
        assert(decimal_digits((n / 10) as nat) =~= seq![digit_char(n / 10)]);
    }
}

/// For a year from 0 to 9999, `ymd_text` is ten characters: four, two and two
/// digits with dashes between.
pub proof fn lemma_ymd_text_chars(d: CivilDate)
    requires
        0 <= d.year <= 9999,
        1 <= d.month <= 12,
        1 <= d.day <= 31,
    ensures
        ymd_text(d) =~= ymd_chars(d.year as int, d.month as int, d.day as int),
{
    lemma_four_digits(d.year as int);
    lemma_two_digits(d.month as int);
    lemma_two_digits(d.day as int);
}

/// The byte of a decimal digit character.
proof fn lemma_digit_byte(k: int)
    requires
        0 <= k < 10,
    ensures
        '\0' <= digit_char(k) <= '\u{7f}',
        digit_char(k) as u8 == 48 + k,
{
}

/// The bytes of `YYYY-MM-DD`, for a year from 0 to 9999.
pub open spec fn ymd_bytes(y: int, m: int, d: int) -> Seq<u8> {
    seq![
        (48 + y / 1000) as u8,
        (48 + y / 100 % 10) as u8,
        (48 + y / 10 % 10) as u8,
        (48 + y % 10) as u8,
        45u8,
        (48 + m / 10) as u8,
        (48 + m % 10) as u8,
        45u8,
        (48 + d / 10) as u8,
        (48 + d % 10) as u8,
    ]
}

pub proof fn lemma_ymd_chars_bytes(y: int, m: int, d: int)
    requires
        0 <= y <= 9999,
        1 <= m <= 12,
        1 <= d <= 31,
    ensures
        text_bytes(ymd_chars(y, m, d)) =~= ymd_bytes(y, m, d),
{
    let c = ymd_chars(y, m, d);
    lemma_digit_byte(y / 1000);
    lemma_digit_byte(y / 100 % 10);
    lemma_digit_byte(y / 10 % 10);
    lemma_digit_byte(y % 10);
    lemma_digit_byte(m / 10);
    lemma_digit_byte(m % 10);
    lemma_digit_byte(d / 10);
    lemma_digit_byte(d % 10);
    assert(is_ascii_chars(c));
    is_ascii_chars_encode_utf8(c);
}

/// Lexicographic order of equal-length byte strings from position `i` on.
pub open spec fn lex_from(a: Seq<u8>, b: Seq<u8>, i: int) -> bool
    decreases a.len() - i,
{
    if i >= a.len() {
        true
    } else if a[i] < b[i] {
        true
    } else if a[i] > b[i] {
        false
    } else {
        lex_from(a, b, i + 1)
    }
}

proof fn lemma_bytes_le_lex_from(a: Seq<u8>, b: Seq<u8>, i: int)
    requires
        a.len() == b.len(),
        0 <= i <= a.len(),
    ensures
        bytes_le(a.skip(i), b.skip(i)) == lex_from(a, b, i),
    decreases a.len() - i,
{
    if i < a.len() {
        lemma_bytes_le_lex_from(a, b, i + 1);
        assert(a.skip(i).drop_first() =~= a.skip(i + 1));
        assert(b.skip(i).drop_first() =~= b.skip(i + 1));
    }
}

/// The number whose decimal digits, read in order, are those of `YYYYMMDD`.
pub open spec fn ymd_key(y: int, m: int, d: int) -> int {
    y * 10000 + m * 100 + d
}

proof fn lemma_digits4(y: int)
    requires
        0 <= y <= 9999,
    ensures
        y == 1000 * (y / 1000) + 100 * (y / 100 % 10) + 10 * (y / 10 % 10) + y % 10,
        0 <= y / 1000 <= 9,
        0 <= y / 100 % 10 <= 9,
        0 <= y / 10 % 10 <= 9,
        0 <= y % 10 <= 9,
{
}

pub proof fn lemma_ymd_bytes_order(y1: int, m1: int, d1: int, y2: int, m2: int, d2: int)
    requires
        0 <= y1 <= 9999,
        0 <= y2 <= 9999,
        1 <= m1 <= 12,
        1 <= m2 <= 12,
        1 <= d1 <= 31,
        1 <= d2 <= 31,
    ensures
        bytes_le(ymd_bytes(y1, m1, d1), ymd_bytes(y2, m2, d2)) <==> ymd_key(y1, m1, d1) <= ymd_key(
            y2,
            m2,
            d2,
        ),
{
    let a = ymd_bytes(y1, m1, d1);
    let b = ymd_bytes(y2, m2, d2);
    lemma_bytes_le_lex_from(a, b, 0);
    assert(a.skip(0) =~= a);
    assert(b.skip(0) =~= b);
    lemma_digits4(y1);
    lemma_digits4(y2);
    lemma_digits4(m1);
    lemma_digits4(m2);
    lemma_digits4(d1);
    lemma_digits4(d2);
    reveal_with_fuel(lex_from, 11);
}

} // verus!

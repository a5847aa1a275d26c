//! Character classes of the TL language, and the numbers that runs of digits
//! spell.
//!
//! TL source text is read as bytes. Every character that the grammar itself
//! names is ASCII, so a class is a set of byte values; text that the grammar
//! only carries along (the content of a comment) may hold any UTF-8.

use vstd::prelude::*;

verus! {

/// A space or a tab: the whitespace that may stand between the tokens of one
/// declaration.
pub open spec fn space(b: u8) -> bool {
    b == 0x20 || b == 0x09
}

/// `0` to `9`.
pub open spec fn decimal_digit(b: u8) -> bool {
    0x30 <= b <= 0x39
}

/// `0` to `9`, `a` to `f`, `A` to `F`.
pub open spec fn hex_digit(b: u8) -> bool {
    decimal_digit(b) || (0x61 <= b <= 0x66) || (0x41 <= b <= 0x46)
}

/// An upper-case or lower-case Latin letter: what an identifier begins with.
pub open spec fn ident_beginning_char(b: u8) -> bool {
    (0x41 <= b <= 0x5a) || (0x61 <= b <= 0x7a)
}

/// A Latin letter, a decimal digit or an underscore: what an identifier
/// holds after its first character.
pub open spec fn ident_char(b: u8) -> bool {
    ident_beginning_char(b) || decimal_digit(b) || b == 0x5f
}

/// Whether `c` is a space or a tab.
pub fn is_space(c: u8) -> (r: bool)
    ensures
        r == space(c),
{
    c == 0x20 || c == 0x09
}

/// Whether `c` is a decimal digit.
pub fn is_decimal_digit(c: u8) -> (r: bool)
    ensures
        r == decimal_digit(c),
{
    0x30 <= c && c <= 0x39
}

/// Whether `c` is a hexadecimal digit, in either case.
pub fn is_hex_digit(c: u8) -> (r: bool)
    ensures
        r == hex_digit(c),
{
    (0x30 <= c && c <= 0x39) || (0x61 <= c && c <= 0x66) || (0x41 <= c && c <= 0x46)
}

/// Whether an identifier may begin with `c`.
pub fn is_ident_beginning_char(c: u8) -> (r: bool)
    ensures
        r == ident_beginning_char(c),
{
    (0x41 <= c && c <= 0x5a) || (0x61 <= c && c <= 0x7a)
}

/// Whether an identifier may hold `c`.
pub fn is_ident_char(c: u8) -> (r: bool)
    ensures
        r == ident_char(c),
{
    is_ident_beginning_char(c) || is_decimal_digit(c) || c == 0x5f
}

/// The bytes of `text`, each taken as the ASCII character of that value.
pub open spec fn ascii_chars(text: Seq<u8>) -> Seq<char> {
    Seq::new(text.len(), |i: int| text[i] as char)
}

/// The characters of `text`, each taken as the byte of its code. This is the
/// UTF-8 encoding of `text` where all its characters are ASCII.
pub open spec fn ascii_bytes(text: Seq<char>) -> Seq<u8> {
    Seq::new(text.len(), |i: int| text[i] as u8)
}

/// Whether every byte of `text` is an ASCII character.
pub open spec fn all_ascii(text: Seq<u8>) -> bool {
    forall|i: int| 0 <= i < text.len() ==> text[i] < 0x80
}

/// Whether `text` is a valid identifier: it is not empty, begins with a
/// Latin letter and holds, after that, Latin letters, decimal digits and
/// underscores only.
pub open spec fn valid_ident(text: Seq<u8>) -> bool {
    &&& text.len() > 0
    &&& ident_beginning_char(text[0])
    &&& forall|i: int| 0 <= i < text.len() ==> ident_char(#[trigger] text[i])
}

/// A class of bytes that a run of input is taken from.
#[derive(Clone, Copy, Debug, PartialEq, Eq, Structural)]
pub enum CharClass {
    /// Spaces and tabs.
    Space,
    /// Decimal digits.
    DecimalDigit,
    /// Hexadecimal digits.
    HexDigit,
    /// What an identifier may hold.
    Ident,
}

impl CharClass {
    /// Whether `b` is in this class.
    pub open spec fn contains(self, b: u8) -> bool {
        match self {
            CharClass::Space => space(b),
            CharClass::DecimalDigit => decimal_digit(b),
            CharClass::HexDigit => hex_digit(b),
            CharClass::Ident => ident_char(b),
        }
    }

    /// Whether `b` is in this class.
    pub fn has(self, b: u8) -> (r: bool)
        ensures
            r == self.contains(b),
            r ==> b < 0x80,
    {
        match self {
            CharClass::Space => is_space(b),
            CharClass::DecimalDigit => is_decimal_digit(b),
            CharClass::HexDigit => is_hex_digit(b),
            CharClass::Ident => is_ident_char(b),
        }
    }
}

/// The number of bytes at the start of `s` that are in `class`.
pub open spec fn run(s: Seq<u8>, class: CharClass) -> int
    decreases s.len(),
{
    if s.len() > 0 && class.contains(s[0]) {
        1 + run(s.drop_first(), class)
    } else {
        0
    }
}

/// The number of bytes at the start of `s` that are spaces or tabs.
pub open spec fn spaces(s: Seq<u8>) -> int {
    run(s, CharClass::Space)
}

/// Text of ASCII bytes is valid UTF-8, and the characters that it encodes
/// are the characters of those codes.
pub proof fn lemma_ascii_text(text: Seq<u8>)
    requires
        all_ascii(text),
    ensures
        vstd::utf8::valid_utf8(text),
        vstd::utf8::decode_utf8(text) == ascii_chars(text),
        vstd::utf8::encode_utf8(ascii_chars(text)) == text,
    decreases text.len(),
{
    if text.len() > 0 {
        let b = text[0];
        let rest = text.drop_first();
        assert(b < 0x80);
        assert((b & 0x7f) as u32 == b as u32) by (bit_vector)
            requires
                b < 0x80u8,
        ;
        assert(vstd::utf8::valid_first_scalar(text));
        assert(vstd::utf8::pop_first_scalar(text) =~= rest);
        assert(all_ascii(rest)) by {
            assert forall|i: int| 0 <= i < rest.len() implies rest[i] < 0x80 by {
                assert(rest[i] == text[i + 1]);
            }
        }
        lemma_ascii_text(rest);
        assert(vstd::utf8::decode_utf8(text) =~= ascii_chars(text));
    } else {
        assert(vstd::utf8::decode_utf8(text) =~= ascii_chars(text));
    }
    vstd::utf8::decode_utf8_encode_utf8(text);
}

/// The number of bytes that the whitespace character at the start of `s`
/// takes, or zero where `s` does not begin with one.
///
/// Whitespace is what Unicode gives the property `White_Space`: the
/// characters U+0009 to U+000D, U+0020, U+0085, U+00A0, U+1680, U+2000 to
/// U+200A, U+2028, U+2029, U+202F, U+205F and U+3000, here in UTF-8.
pub open spec fn whitespace_at(s: Seq<u8>) -> int {
    if s.len() >= 1 && ((0x09 <= s[0] <= 0x0d) || s[0] == 0x20) {
        1
    } else if s.len() >= 2 && s[0] == 0xc2 && (s[1] == 0x85 || s[1] == 0xa0) {
        2
    } else if s.len() >= 3 && s[0] == 0xe1 && s[1] == 0x9a && s[2] == 0x80 {
        3
    } else if s.len() >= 3 && s[0] == 0xe2 && s[1] == 0x80 && ((0x80 <= s[2] <= 0x8a) || s[2]
        == 0xa8 || s[2] == 0xa9 || s[2] == 0xaf) {
        3
    } else if s.len() >= 3 && s[0] == 0xe2 && s[1] == 0x81 && s[2] == 0x9f {
        3
    } else if s.len() >= 3 && s[0] == 0xe3 && s[1] == 0x80 && s[2] == 0x80 {
        3
    } else {
        0
    }
}

/// The number of bytes at the start of `s` that are whitespace characters.
pub open spec fn whitespace_run(s: Seq<u8>) -> int
    decreases s.len(),
{
    let n = whitespace_at(s);
    if 0 < n <= s.len() {
        n + whitespace_run(s.skip(n))
    } else {
        0
    }
}

/// The whitespace at the start of the input lies inside the input.
pub proof fn lemma_whitespace_run(s: Seq<u8>)
    ensures
        0 <= whitespace_run(s) <= s.len(),
    decreases s.len(),
{
    let n = whitespace_at(s);
    if 0 < n <= s.len() {
        lemma_whitespace_run(s.skip(n));
    }
}

/// The number of bytes that the line ending at the start of `s` takes: one
/// for a line feed, two for a carriage return with a line feed, and zero
/// where `s` does not begin with a line ending.
pub open spec fn line_ending_at(s: Seq<u8>) -> int {
    if s.len() >= 1 && s[0] == 0x0a {
        1
    } else if s.len() >= 2 && s[0] == 0x0d && s[1] == 0x0a {
        2
    } else {
        0
    }
}

/// The value of one decimal or hexadecimal digit.
pub open spec fn digit_value(b: u8) -> nat {
    if decimal_digit(b) {
        (b - 0x30) as nat
    } else if 0x61 <= b <= 0x66 {
        (b - 0x61 + 10) as nat
    } else if 0x41 <= b <= 0x46 {
        (b - 0x41 + 10) as nat
    } else {
        0
    }
}

/// The number that `digits` spell in base `radix`, most significant digit
/// first. The empty sequence spells zero.
pub open spec fn number(digits: Seq<u8>, radix: nat) -> nat
    decreases digits.len(),
{
    if digits.len() == 0 {
        0
    } else {
        number(digits.drop_last(), radix) * radix + digit_value(digits.last())
    }
}

/// The digit, in lower case, that stands for `d` in any base up to 16.
pub open spec fn digit_char(d: nat) -> u8 {
    if d < 10 {
        (0x30 + d) as u8
    } else {
        (0x61 + d - 10) as u8
    }
}

/// The decimal digits that spell `n`, most significant first, without
/// leading zeros; zero is spelled by the single digit `0`.
pub open spec fn decimal_digits(n: nat) -> Seq<u8>
    decreases n,
{
    if n < 10 {
        seq![digit_char(n)]
    } else {
        decimal_digits(n / 10).push(digit_char(n % 10))
    }
}

/// The hexadecimal digits, in lower case, that spell `n`, most significant
/// first, without leading zeros; zero is spelled by the single digit `0`.
pub open spec fn hex_digits(n: nat) -> Seq<u8>
    decreases n,
{
    if n < 16 {
        seq![digit_char(n)]
    } else {
        hex_digits(n / 16).push(digit_char(n % 16))
    }
}

/// A run of a class ends at the first byte outside the class or at the end
/// of the input, and every byte before that is in the class.
pub proof fn lemma_run(s: Seq<u8>, class: CharClass)
    ensures
        0 <= run(s, class) <= s.len(),
        forall|i: int| 0 <= i < run(s, class) ==> class.contains(#[trigger] s[i]),
        run(s, class) < s.len() ==> !class.contains(s[run(s, class)]),
    decreases s.len(),
{
    if s.len() > 0 && class.contains(s[0]) {
        let t = s.drop_first();
        lemma_run(t, class);
        assert forall|i: int| 0 <= i < run(s, class) implies class.contains(#[trigger] s[i]) by {
            if i > 0 {
                assert(s[i] == t[i - 1]);
            }
        }
        if run(s, class) < s.len() {
            assert(s[run(s, class)] == t[run(s, class) - 1]);
        }
    }
}

/// The run of a class is the only position such that every byte before it
/// is in the class and the byte at it, if there is one, is not.
pub proof fn lemma_run_is(s: Seq<u8>, class: CharClass, n: int)
    requires
        0 <= n <= s.len(),
        forall|i: int| 0 <= i < n ==> class.contains(#[trigger] s[i]),
        n < s.len() ==> !class.contains(s[n]),
    ensures
        run(s, class) == n,
    decreases s.len(),
{
    if n > 0 {
        assert(class.contains(s[0]));
        let t = s.drop_first();
        assert forall|i: int| 0 <= i < n - 1 implies class.contains(#[trigger] t[i]) by {
            assert(t[i] == s[i + 1]);
        }
        lemma_run_is(t, class, n - 1);
    }
}

/// A run of a class is at least as long as any stretch of the class at the
/// start of the input.
pub proof fn lemma_run_at_least(s: Seq<u8>, class: CharClass, n: int)
    requires
        0 <= n <= s.len(),
        forall|i: int| 0 <= i < n ==> class.contains(#[trigger] s[i]),
    ensures
        n <= run(s, class),
    decreases s.len(),
{
    lemma_run(s, class);
    if n > 0 {
        assert(class.contains(s[0]));
        let t = s.drop_first();
        assert forall|i: int| 0 <= i < n - 1 implies class.contains(#[trigger] t[i]) by {
            assert(t[i] == s[i + 1]);
        }
        lemma_run_at_least(t, class, n - 1);
    }
}

/// A number does not get smaller when digits are put behind it.
pub proof fn lemma_number_grows(digits: Seq<u8>, k: int, radix: nat)
    requires
        0 <= k <= digits.len(),
        radix >= 1,
    ensures
        number(digits.take(k), radix) <= number(digits, radix),
    decreases digits.len(),
{
    if k == digits.len() {
        assert(digits.take(k) =~= digits);
    } else {
        let shorter = digits.drop_last();
        assert(shorter.take(k) =~= digits.take(k));
        lemma_number_grows(shorter, k, radix);
        assert(number(shorter, radix) * radix >= number(shorter, radix)) by (nonlinear_arith)
            requires
                radix >= 1,
        ;
    }
}

/// `radix` to the power `n`.
pub open spec fn power(radix: nat, n: nat) -> nat
    decreases n,
{
    if n == 0 {
        1
    } else {
        radix * power(radix, (n - 1) as nat)
    }
}

/// A number of `n` digits in base `radix` is below `radix` to the power `n`.
pub proof fn lemma_number_below_power(digits: Seq<u8>, radix: nat)
    requires
        radix >= 1,
        forall|i: int| 0 <= i < digits.len() ==> digit_value(#[trigger] digits[i]) < radix,
    ensures
        number(digits, radix) < power(radix, digits.len()),
    decreases digits.len(),
{
    if digits.len() > 0 {
        let shorter = digits.drop_last();
        assert forall|i: int| 0 <= i < shorter.len() implies digit_value(#[trigger] shorter[i])
            < radix by {
            assert(shorter[i] == digits[i]);
        }
        lemma_number_below_power(shorter, radix);
        let hi = number(shorter, radix);
        let p = power(radix, shorter.len());
        assert(digit_value(digits.last()) < radix);
        assert(hi * radix + (radix - 1) < radix * p) by (nonlinear_arith)
            requires
                hi < p,
                radix >= 1,
        ;
    }
}

/// Up to eight hexadecimal digits spell a number that fits 32 bits.
pub proof fn lemma_number_bound_hex(digits: Seq<u8>)
    requires
        digits.len() <= 8,
    ensures
        number(digits, 16) <= u32::MAX,
{
    lemma_number_below_power(digits, 16);
    reveal_with_fuel(power, 9);
    assert(power(16, 8) == 0x1_0000_0000);
    lemma_power_grows(16, digits.len(), 8);
}

/// A power does not get smaller when the exponent grows.
pub proof fn lemma_power_grows(radix: nat, m: nat, n: nat)
    requires
        radix >= 1,
        m <= n,
    ensures
        1 <= power(radix, m) <= power(radix, n),
    decreases n,
{
    if n == 0 {
    } else if m == n {
        lemma_power_grows(radix, (m - 1) as nat, (n - 1) as nat);
        let p = power(radix, (n - 1) as nat);
        assert(radix * p >= 1) by (nonlinear_arith)
            requires
                radix >= 1,
                p >= 1,
        ;
    } else {
        lemma_power_grows(radix, m, (n - 1) as nat);
        let p = power(radix, (n - 1) as nat);
        assert(radix * p >= p) by (nonlinear_arith)
            requires
                radix >= 1,
                p >= 1,
        ;
    }
}

/// The digits of a number are digits of its base, and there is at least
/// one.
pub proof fn lemma_digits_ascii(n: nat)
    ensures
        decimal_digits(n).len() >= 1,
        hex_digits(n).len() >= 1,
        forall|i: int| 0 <= i < decimal_digits(n).len() ==>
            decimal_digit(#[trigger] decimal_digits(n)[i]),
        forall|i: int| 0 <= i < hex_digits(n).len() ==> hex_digit(#[trigger] hex_digits(n)[i]),
        all_ascii(decimal_digits(n)),
        all_ascii(hex_digits(n)),
    decreases n,
{
    if n >= 10 {
        lemma_digits_ascii(n / 10);
    }
    if n >= 16 {
        lemma_digits_ascii(n / 16);
    }
    assert forall|i: int| 0 <= i < decimal_digits(n).len() implies decimal_digit(
        #[trigger] decimal_digits(n)[i],
    ) by {
        if n >= 10 && i < decimal_digits(n / 10).len() {
            assert(decimal_digits(n)[i] == decimal_digits(n / 10)[i]);
        }
    }
    assert forall|i: int| 0 <= i < hex_digits(n).len() implies hex_digit(
        #[trigger] hex_digits(n)[i],
    ) by {
        if n >= 16 && i < hex_digits(n / 16).len() {
            assert(hex_digits(n)[i] == hex_digits(n / 16)[i]);
        }
    }
}

/// The value of the decimal or hexadecimal digit `b`.
pub fn digit_of(b: u8) -> (r: u32)
    ensures
        r == digit_value(b),
        r < 16,
{
    if is_decimal_digit(b) {
        (b - 0x30) as u32
    } else if 0x61 <= b && b <= 0x66 {
        (b - 0x61 + 10) as u32
    } else if 0x41 <= b && b <= 0x46 {
        (b - 0x41 + 10) as u32
    } else {
        0
    }
}

/// The number that `digits` spell in base `radix`, or `None` where it does
/// not fit 32 bits.
pub fn number_of(digits: &[u8], radix: u32) -> (r: Option<u32>)
    requires
        radix == 10 || radix == 16,
    ensures
        r is Some <==> number(digits@, radix as nat) <= u32::MAX,
        r matches Some(v) ==> v == number(digits@, radix as nat),
{
    let mut acc: u64 = 0;
    let mut i: usize = 0;
    while i < digits.len()
        invariant
            i <= digits.len(),
            radix == 10 || radix == 16,
            acc == number(digits@.take(i as int), radix as nat),
            acc <= u32::MAX,
        decreases digits.len() - i,
    {
        let d = digit_of(digits[i]);
        proof {
            let longer = digits@.take(i as int + 1);
            assert(longer.drop_last() =~= digits@.take(i as int));
            assert(longer.last() == digits@[i as int]);
            assert(acc * radix + d <= 0xffff_ffff * 16 + 15) by (nonlinear_arith)
                requires
                    acc <= 0xffff_ffff,
                    radix <= 16,
                    d <= 15,
            ;
        }
        let next: u64 = acc * (radix as u64) + (d as u64);
        if next > 0xffff_ffff {
            proof {
                lemma_number_grows(digits@, i as int + 1, radix as nat);
            }
            return None;
        }
        acc = next;
        i += 1;
    }
    proof {
        assert(digits@.take(i as int) =~= digits@);
    }
    Some(acc as u32)
}

/// The digit, in lower case, that stands for `d`.
pub fn digit_for(d: u32) -> (r: u8)
    requires
        d < 16,
    ensures
        r == digit_char(d as nat),
{
    if d < 10 {
        0x30 + d as u8
    } else {
        0x61 + (d as u8 - 10)
    }
}

/// Put the decimal digits of `n` behind `out`.
pub fn push_decimal(out: &mut Vec<u8>, n: u32)
    ensures
        final(out)@ == old(out)@ + decimal_digits(n as nat),
        vstd::utf8::valid_utf8(old(out)@) ==> vstd::utf8::valid_utf8(final(out)@),
    decreases n,
{
    proof {
        lemma_digits_ascii(n as nat);
        lemma_ascii_text(decimal_digits(n as nat));
        if vstd::utf8::valid_utf8(old(out)@) {
            vstd::utf8::valid_utf8_concat(old(out)@, decimal_digits(n as nat));
        }
    }
    if n < 10 {
        out.push(digit_for(n));
        proof {
            assert(out@ =~= old(out)@ + decimal_digits(n as nat));
        }
    } else {
        push_decimal(out, n / 10);
        out.push(digit_for(n % 10));
        proof {
            assert(out@ =~= old(out)@ + decimal_digits(n as nat));
        }
    }
}

/// Put the hexadecimal digits of `n`, in lower case, behind `out`.
pub fn push_hex(out: &mut Vec<u8>, n: u32)
    ensures
        final(out)@ == old(out)@ + hex_digits(n as nat),
        vstd::utf8::valid_utf8(old(out)@) ==> vstd::utf8::valid_utf8(final(out)@),
    decreases n,
{
    proof {
        lemma_digits_ascii(n as nat);
        lemma_ascii_text(hex_digits(n as nat));
        if vstd::utf8::valid_utf8(old(out)@) {
            vstd::utf8::valid_utf8_concat(old(out)@, hex_digits(n as nat));
        }
    }
    if n < 16 {
        out.push(digit_for(n));
        proof {
            assert(out@ =~= old(out)@ + hex_digits(n as nat));
        }
    } else {
        push_hex(out, n / 16);
        out.push(digit_for(n % 16));
        proof {
            assert(out@ =~= old(out)@ + hex_digits(n as nat));
        }
    }
}

} // verus!

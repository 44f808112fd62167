//! The colour model: hex literals, 8-bit RGB triples, the alpha channel,
//! and HSL as exact fractions.

use regex::Regex;
use vstd::prelude::*;
use vstd::string::*;

use crate::text::chars_of;

verus! {

/// Whether `c` is one of the digits `0`-`9`, `a`-`f`, `A`-`F`.
pub open spec fn is_hex_digit(c: char) -> bool {
    ('0' <= c && c <= '9') || ('a' <= c && c <= 'f') || ('A' <= c && c <= 'F')
}

/// A colour literal: `#` followed by exactly six hexadecimal digits.
pub open spec fn is_hex_literal(s: Seq<char>) -> bool {
    &&& s.len() == 7
    &&& s[0] == '#'
    &&& forall|i: int| 1 <= i < 7 ==> is_hex_digit(#[trigger] s[i])
}

/// The upper-case form of a character of a colour literal: `a`-`f` become
/// `A`-`F`, every other character stays.
pub open spec fn upper(c: char) -> char {
    if c == 'a' {
        'A'
    } else if c == 'b' {
        'B'
    } else if c == 'c' {
        'C'
    } else if c == 'd' {
        'D'
    } else if c == 'e' {
        'E'
    } else if c == 'f' {
        'F'
    } else {
        c
    }
}

/// The canonical form of a colour literal: the same digits in upper case.
pub open spec fn canonical(s: Seq<char>) -> Seq<char> {
    Seq::new(s.len(), |i: int| upper(s[i]))
}

/// The number that a hexadecimal digit stands for.
pub open spec fn digit_value(c: char) -> int {
    if '0' <= c && c <= '9' {
        c as u32 - 48
    } else if 'a' <= c && c <= 'f' {
        c as u32 - 87
    } else {
        c as u32 - 55
    }
}

/// The byte that two hexadecimal digits stand for. `None` where one of the
/// characters is no hexadecimal digit.
pub open spec fn pair_value(a: char, b: char) -> Option<u8> {
    if is_hex_digit(a) && is_hex_digit(b) {
        Some((16 * digit_value(a) + digit_value(b)) as u8)
    } else {
        None
    }
}

/// The channels that a string encodes: it has to be `#` and six hexadecimal
/// digits, two for each channel. `None` for every other string.
pub open spec fn rgb_of(s: Seq<char>) -> Option<(u8, u8, u8)> {
    if s.len() == 7 && s[0] == '#' {
        match (pair_value(s[1], s[2]), pair_value(s[3], s[4]), pair_value(s[5], s[6])) {
            (Some(r), Some(g), Some(b)) => Some((r, g, b)),
            _ => None,
        }
    } else {
        None
    }
}

/// The upper-case hexadecimal digit for a value below sixteen.
pub open spec fn digit_char(v: int) -> char {
    if v == 0 {
        '0'
    } else if v == 1 {
        '1'
    } else if v == 2 {
        '2'
    } else if v == 3 {
        '3'
    } else if v == 4 {
        '4'
    } else if v == 5 {
        '5'
    } else if v == 6 {
        '6'
    } else if v == 7 {
        '7'
    } else if v == 8 {
        '8'
    } else if v == 9 {
        '9'
    } else if v == 10 {
        'A'
    } else if v == 11 {
        'B'
    } else if v == 12 {
        'C'
    } else if v == 13 {
        'D'
    } else if v == 14 {
        'E'
    } else {
        'F'
    }
}

/// A byte as two upper-case hexadecimal digits.
pub open spec fn hex_byte(v: u8) -> Seq<char> {
    seq![digit_char(v as int / 16), digit_char(v as int % 16)]
}

/// `#RRGGBBAA`: four bytes as an eight-digit colour.
pub open spec fn hex8(r: u8, g: u8, b: u8, a: u8) -> Seq<char> {
    seq!['#'] + hex_byte(r) + hex_byte(g) + hex_byte(b) + hex_byte(a)
}

/// The pattern that a colour literal has to match.
pub open spec fn hex_pattern() -> Seq<char> {
    "^#[0-9A-Fa-f]{6}$"@
}

/// Compiles `pattern` with `regex::Regex::new` and asks `Regex::is_match`
/// whether `text` matches it. Only the colour pattern is admitted. It is
/// anchored at both ends of the text and lists its digits by range, so a text
/// matches exactly when it is `#` followed by six ASCII hexadecimal digits:
/// that is what this contract takes on trust from the regex crate.
#[verifier::external_body]
fn pattern_matches(pattern: &str, text: &str) -> (b: bool)
    requires
        pattern@ == hex_pattern(),
    ensures
        b == is_hex_literal(text@),
{
    match Regex::new(pattern) {
        Ok(re) => re.is_match(text),
        Err(_) => false,
    }
}

/// Whether `raw` is a colour literal.
pub fn is_hex_color(raw: &str) -> (b: bool)
    ensures
        b == is_hex_literal(raw@),
{
    pattern_matches("^#[0-9A-Fa-f]{6}$", raw)
}

fn upper_char(c: char) -> (u: char)
    ensures
        u == upper(c),
{
    if c == 'a' {
        'A'
    } else if c == 'b' {
        'B'
    } else if c == 'c' {
        'C'
    } else if c == 'd' {
        'D'
    } else if c == 'e' {
        'E'
    } else if c == 'f' {
        'F'
    } else {
        c
    }
}

/// `raw` with the letters `a`-`f` in upper case.
pub fn to_canonical(raw: &str) -> (s: String)
    ensures
        s@ == canonical(raw@),
{
    let mut s = String::new();
    for c in it: raw.chars()
        invariant
            it.seq() == raw@,
            s@ == canonical(raw@.take(it.index() as int)),
    {
        proof {
            assert(canonical(raw@.take(it.index() + 1)) =~= canonical(
                raw@.take(it.index() as int),
            ).push(upper(c)));
        }
        s.push(upper_char(c));
    }
    proof {
        assert(raw@.take(raw@.len() as int) =~= raw@);
    }
    s
}

fn hex_digit_value(c: char) -> (v: Option<u8>)
    ensures
        v is Some <==> is_hex_digit(c),
        v matches Some(d) ==> d == digit_value(c) && d < 16,
{
    if '0' <= c && c <= '9' {
        Some((c as u32 - 48) as u8)
    } else if 'a' <= c && c <= 'f' {
        Some((c as u32 - 87) as u8)
    } else if 'A' <= c && c <= 'F' {
        Some((c as u32 - 55) as u8)
    } else {
        None
    }
}

fn parse_pair(a: char, b: char) -> (v: Option<u8>)
    ensures
        v == pair_value(a, b),
{
    match (hex_digit_value(a), hex_digit_value(b)) {
        (Some(high), Some(low)) => Some(16 * high + low),
        _ => None,
    }
}

/// Reads a `#RRGGBB` string as its three channels. Anything else gives `None`.
pub fn hex_to_rgb(hex: &str) -> (rgb: Option<(u8, u8, u8)>)
    ensures
        rgb == rgb_of(hex@),
{
    let chars = chars_of(hex);
    if chars.len() != 7 || chars[0] != '#' {
        return None;
    }
    let r = parse_pair(chars[1], chars[2]);
    let g = parse_pair(chars[3], chars[4]);
    let b = parse_pair(chars[5], chars[6]);
    match (r, g, b) {
        (Some(r), Some(g), Some(b)) => Some((r, g, b)),
        _ => None,
    }
}

fn digit_of(v: u8) -> (c: char)
    requires
        v < 16,
    ensures
        c == digit_char(v as int),
{
    if v == 0 {
        '0'
    } else if v == 1 {
        '1'
    } else if v == 2 {
        '2'
    } else if v == 3 {
        '3'
    } else if v == 4 {
        '4'
    } else if v == 5 {
        '5'
    } else if v == 6 {
        '6'
    } else if v == 7 {
        '7'
    } else if v == 8 {
        '8'
    } else if v == 9 {
        '9'
    } else if v == 10 {
        'A'
    } else if v == 11 {
        'B'
    } else if v == 12 {
        'C'
    } else if v == 13 {
        'D'
    } else if v == 14 {
        'E'
    } else {
        'F'
    }
}

fn push_hex_byte(s: &mut String, v: u8)
    ensures
        final(s)@ == old(s)@ + hex_byte(v),
{
    s.push(digit_of(v / 16));
    s.push(digit_of(v % 16));
    proof {
        assert(old(s)@.push(digit_char(v as int / 16)).push(digit_char(v as int % 16)) =~= old(s)@
            + hex_byte(v));
    }
}

/// Writes four channels as `#RRGGBBAA`, in upper case.
pub fn to_hex8(r: u8, g: u8, b: u8, a: u8) -> (s: String)
    ensures
        s@ == hex8(r, g, b, a),
{
    let mut s = String::new();
    s.push('#');
    push_hex_byte(&mut s, r);
    push_hex_byte(&mut s, g);
    push_hex_byte(&mut s, b);
    push_hex_byte(&mut s, a);
    proof {
        assert(Seq::<char>::empty().push('#') =~= seq!['#']);
    }
    s
}

/// Two to the power `n`.
pub open spec fn two_to(n: nat) -> nat
    decreases n,
{
    if n == 0 {
        1
    } else {
        2 * two_to((n - 1) as nat)
    }
}

/// Powers of two grow with the exponent.
pub proof fn lemma_two_to_grows(a: nat, b: nat)
    requires
        a <= b,
    ensures
        1 <= two_to(a) <= two_to(b),
    decreases b,
{
    if a < b {
        lemma_two_to_grows(a, (b - 1) as nat);
    } else if a > 0 {
        lemma_two_to_grows((a - 1) as nat, (a - 1) as nat);
    }
}

/// Whether `bits` are the bits of a single-precision float that lies
/// between 0.0 and 1.0: one of the floats from 0.0 up to 1.0, or -0.0.
pub open spec fn alpha_in_range(bits: u32) -> bool {
    bits <= 0x3F80_0000 || bits == 0x8000_0000
}

/// `n / unit`, rounded to the nearest whole number, ties to the even one.
pub open spec fn nearest_even(n: int, unit: int) -> int {
    let q = n / unit;
    let rest = n % unit;
    if 2 * rest > unit || (2 * rest == unit && q % 2 == 1) {
        q + 1
    } else {
        q
    }
}

/// The float `bits`, a normal number of at most 1.0, times 255, as the
/// multiplication of two single-precision floats gives it: the exact
/// product of 255 and the 24-bit significand, rounded to 24 bits with ties
/// to even. The result is `(q, sh)`, which stands for `q / 2^sh`.
pub open spec fn scaled_alpha(bits: u32) -> (int, int) {
    let exponent = bits as int / 0x80_0000;
    let product = 255 * (0x80_0000 + bits as int % 0x80_0000);
    if product >= 0x8000_0000 {
        (nearest_even(product, 256), 142 - exponent)
    } else {
        (nearest_even(product, 128), 143 - exponent)
    }
}

/// `q / 2^sh`, rounded to the nearest whole number, halves upwards.
pub open spec fn round_half_up(q: int, sh: int) -> int {
    (q + two_to((sh - 1) as nat)) / (two_to(sh as nat) as int)
}

/// The alpha channel for an alpha between 0.0 and 1.0, given by its bits:
/// alpha times 255 in single precision, rounded to the nearest whole
/// number, halves upwards. `None` where alpha is not between 0.0 and 1.0.
pub open spec fn alpha_byte_spec(bits: u32) -> Option<u8> {
    if !alpha_in_range(bits) {
        None
    } else if bits < 0x0080_0000 || bits == 0x8000_0000 {
        Some(0)
    } else {
        let (q, sh) = scaled_alpha(bits);
        Some(round_half_up(q, sh) as u8)
    }
}

/// The scaled alpha is at most 255: `q` is at most `255 * 2^sh`, with at
/// least sixteen places behind the point.
pub proof fn lemma_scaled_alpha_bound(bits: u32)
    requires
        0x0080_0000 <= bits <= 0x3F80_0000,
    ensures
        0 <= scaled_alpha(bits).0 <= 0x100_0000,
        16 <= scaled_alpha(bits).1 <= 149,
        scaled_alpha(bits).0 <= 255 * two_to(scaled_alpha(bits).1 as nat),
{
    let exponent = bits as int / 0x80_0000;
    let product = 255 * (0x80_0000 + bits as int % 0x80_0000);
    let (q, sh) = scaled_alpha(bits);
    reveal_with_fuel(two_to, 18);
    assert(two_to(16) == 0x1_0000);
    assert(two_to(17) == 0x2_0000);
    if exponent == 127 {
        assert(bits as int % 0x80_0000 == 0);
        assert(q == 255 * 0x1_0000);
        assert(sh == 16);
    } else if product >= 0x8000_0000 {
        assert(q <= 255 * 0x1_0000);
        lemma_two_to_grows(16, sh as nat);
    } else {
        assert(q <= 0x100_0000);
        lemma_two_to_grows(17, sh as nat);
    }
}

/// Rounding a number of at most 255 gives at most 255, and a number with
/// more than twenty-five places behind the point that is below one half
/// gives zero.
pub proof fn lemma_round_half_up(q: int, sh: int)
    requires
        sh >= 1,
        0 <= q <= 255 * two_to(sh as nat),
    ensures
        0 <= round_half_up(q, sh) <= 255,
        q < two_to((sh - 1) as nat) ==> round_half_up(q, sh) == 0,
{
    let half = two_to((sh - 1) as nat) as int;
    let whole = two_to(sh as nat) as int;
    lemma_two_to_grows(0, (sh - 1) as nat);
    assert(whole == 2 * half);
    assert(0 <= (q + half) / whole <= 255) by (nonlinear_arith)
        requires
            0 <= q <= 255 * whole,
            whole == 2 * half,
            half > 0,
    ;
    if q < half {
        assert((q + half) / whole == 0) by (nonlinear_arith)
            requires
                0 <= q < half,
                whole == 2 * half,
        ;
    }
}

fn power_of_two(n: u32) -> (d: u64)
    requires
        n <= 25,
    ensures
        d == two_to(n as nat),
        d <= 0x200_0000,
{
    let mut d: u64 = 1;
    let mut k: u32 = 0;
    proof {
        reveal_with_fuel(two_to, 26);
        assert(two_to(25) == 0x200_0000);
    }
    while k < n
        invariant
            k <= n <= 25,
            d == two_to(k as nat),
            two_to(25) == 0x200_0000,
        decreases n - k,
    {
        proof {
            lemma_two_to_grows((k + 1) as nat, 25);
        }
        d = d * 2;
        k = k + 1;
    }
    proof {
        lemma_two_to_grows(n as nat, 25);
    }
    d
}

fn round_256(n: u64) -> (q: u64)
    requires
        n < 0x1_0000_0000,
    ensures
        q == nearest_even(n as int, 256),
{
    let q = n / 256;
    let rest = n % 256;
    if rest > 128 || (rest == 128 && q % 2 == 1) {
        q + 1
    } else {
        q
    }
}

fn round_128(n: u64) -> (q: u64)
    requires
        n < 0x1_0000_0000,
    ensures
        q == nearest_even(n as int, 128),
{
    let q = n / 128;
    let rest = n % 128;
    if rest > 64 || (rest == 64 && q % 2 == 1) {
        q + 1
    } else {
        q
    }
}

fn rounded(q: u64, sh: u32) -> (byte: u8)
    requires
        1 <= sh <= 149,
        q <= 0x100_0000,
        q <= 255 * two_to(sh as nat),
    ensures
        byte == round_half_up(q as int, sh as int),
{
    proof {
        lemma_round_half_up(q as int, sh as int);
        lemma_two_to_grows(0, sh as nat);
        assert(two_to(sh as nat) == 2 * two_to((sh - 1) as nat));
    }
    if sh > 25 {
        proof {
            reveal_with_fuel(two_to, 26);
            assert(two_to(25) == 0x200_0000);
            lemma_two_to_grows(25, (sh - 1) as nat);
        }
        return 0;
    }
    let whole = power_of_two(sh);
    let half = whole / 2;
    ((q + half) / whole) as u8
}

/// The alpha channel, 0 to 255, for the alpha whose bits as a
/// single-precision float are `bits`.
pub fn alpha_byte(bits: u32) -> (a: Option<u8>)
    ensures
        a == alpha_byte_spec(bits),
{
    if bits == 0x8000_0000 {
        return Some(0);
    }
    if bits > 0x3F80_0000 {
        return None;
    }
    if bits < 0x0080_0000 {
        return Some(0);
    }
    proof {
        lemma_scaled_alpha_bound(bits);
    }
    let exponent: u32 = bits / 0x80_0000;
    let product: u64 = 255 * (0x80_0000 + (bits % 0x80_0000) as u64);
    if product >= 0x8000_0000 {
        Some(rounded(round_256(product), 142 - exponent))
    } else {
        Some(rounded(round_128(product), 143 - exponent))
    }
}

/// A fraction `num / den`.
#[derive(Debug, Clone, Copy, PartialEq, Eq)]
pub struct Ratio {
    pub num: u32,
    pub den: u32,
}

/// A colour as hue, saturation and lightness, each a fraction of one.
#[derive(Debug, Clone, Copy, PartialEq, Eq)]
pub struct Hsl {
    pub h: Ratio,
    pub s: Ratio,
    pub l: Ratio,
}

/// The greatest of three channels.
pub open spec fn max3(r: u8, g: u8, b: u8) -> int {
    if r >= g && r >= b {
        r as int
    } else if g >= b {
        g as int
    } else {
        b as int
    }
}

/// The least of three channels.
pub open spec fn min3(r: u8, g: u8, b: u8) -> int {
    if r <= g && r <= b {
        r as int
    } else if g <= b {
        g as int
    } else {
        b as int
    }
}

/// Lightness: the mean of the greatest and the least channel, as a fraction
/// of 255. Numerator and denominator.
pub open spec fn lightness(r: u8, g: u8, b: u8) -> (int, int) {
    (max3(r, g, b) + min3(r, g, b), 510)
}

/// Saturation: zero for a grey; else the spread `d` of the channels over
/// `max + min` where the lightness is at most one half, and over
/// `2 - max - min` (in units of 255) where it is more.
pub open spec fn saturation(r: u8, g: u8, b: u8) -> (int, int) {
    let max = max3(r, g, b);
    let min = min3(r, g, b);
    if max == min {
        (0, 1)
    } else if max + min > 255 {
        (max - min, 510 - max - min)
    } else {
        (max - min, max + min)
    }
}

/// Hue as a fraction of the full turn: zero for a grey; else by the channel
/// that is greatest, `(g - b) / d` (and six more where that is negative),
/// `(b - r) / d + 2` or `(r - g) / d + 4`, the whole divided by six.
pub open spec fn hue(r: u8, g: u8, b: u8) -> (int, int) {
    let max = max3(r, g, b);
    let d = max - min3(r, g, b);
    if d == 0 {
        (0, 1)
    } else if max == r {
        if g < b {
            (g - b + 6 * d, 6 * d)
        } else {
            (g - b, 6 * d)
        }
    } else if max == g {
        (b - r + 2 * d, 6 * d)
    } else {
        (r - g + 4 * d, 6 * d)
    }
}

/// Whether a fraction is the pair of a numerator and a denominator.
pub open spec fn ratio_is(x: Ratio, pair: (int, int)) -> bool {
    x.num == pair.0 && x.den == pair.1
}

/// Hue, saturation and lightness are fractions between zero and one.
pub proof fn law_hsl_in_unit_range(r: u8, g: u8, b: u8)
    ensures
        0 <= hue(r, g, b).0 < hue(r, g, b).1 || (hue(r, g, b).0 == 0 && hue(r, g, b).1 == 1),
        0 <= saturation(r, g, b).0 <= saturation(r, g, b).1,
        0 < saturation(r, g, b).1,
        0 <= lightness(r, g, b).0 <= lightness(r, g, b).1,
        max3(r, g, b) == min3(r, g, b) ==> hue(r, g, b).0 == 0 && saturation(r, g, b).0 == 0,
{
}

/// Converts a colour to hue, saturation and lightness, as exact fractions.
pub fn rgb_to_hsl(r: u8, g: u8, b: u8) -> (hsl: Hsl)
    ensures
        ratio_is(hsl.h, hue(r, g, b)),
        ratio_is(hsl.s, saturation(r, g, b)),
        ratio_is(hsl.l, lightness(r, g, b)),
{
    let max: u8 = if r >= g && r >= b {
        r
    } else if g >= b {
        g
    } else {
        b
    };
    let min: u8 = if r <= g && r <= b {
        r
    } else if g <= b {
        g
    } else {
        b
    };
    let sum: u32 = max as u32 + min as u32;
    let l = Ratio { num: sum, den: 510 };
    if max == min {
        return Hsl { h: Ratio { num: 0, den: 1 }, s: Ratio { num: 0, den: 1 }, l };
    }
    let d: u32 = (max - min) as u32;
    let s = if sum > 255 {
        Ratio { num: d, den: 510 - sum }
    } else {
        Ratio { num: d, den: sum }
    };
    let (r, g, b) = (r as u32, g as u32, b as u32);
    let num: u32 = if max as u32 == r {
        if g < b {
            g + 6 * d - b
        } else {
            g - b
        }
    } else if max as u32 == g {
        b + 2 * d - r
    } else {
        r + 4 * d - g
    };
    Hsl { h: Ratio { num, den: 6 * d }, s, l }
}

} // verus!

//! Numbers, positions and distances as text.

use crate::geo::{
    all_digits, decimal, dms_seconds, extend, is_digit, is_latlon, lat_seconds, lon_seconds,
    digit_value, LatLon, Metres,
};
use vstd::prelude::*;
use vstd::string::*;

verus! {

/// The character of a decimal digit.
pub open spec fn digit_char(d: int) -> char {
    seq!['0', '1', '2', '3', '4', '5', '6', '7', '8', '9'][d]
}

/// A number in decimal, without leading zeros.
pub open spec fn digits(n: nat) -> Seq<char>
    decreases n,
{
    if n < 10 {
        seq![digit_char(n as int)]
    } else {
        digits(n / 10).push(digit_char((n % 10) as int))
    }
}

/// A number in decimal, with at least two digits.
pub open spec fn two_digits(n: nat) -> Seq<char> {
    if n < 10 {
        "0"@ + digits(n)
    } else {
        digits(n)
    }
}

/// A number in decimal, with at least three digits.
pub open spec fn three_digits(n: nat) -> Seq<char> {
    if n < 10 {
        "00"@ + digits(n)
    } else if n < 100 {
        "0"@ + digits(n)
    } else {
        digits(n)
    }
}

/// Arc-seconds as degrees, minutes and seconds with colons between; the
/// degrees have three digits where `wide`, else two.
pub open spec fn dms_text(seconds: nat, wide: bool) -> Seq<char> {
    (if wide {
        three_digits(seconds / 3600)
    } else {
        two_digits(seconds / 3600)
    }) + ":"@ + two_digits((seconds / 60) % 60) + ":"@ + two_digits(seconds % 60)
}

/// The size of a signed number.
pub open spec fn magnitude(v: int) -> nat {
    if v < 0 {
        (-v) as nat
    } else {
        v as nat
    }
}

/// A position as `DD:MM:SS N DDD:MM:SS E`, with `S` and `W` for the
/// negative halves.
pub open spec fn position_text(p: LatLon) -> Seq<char> {
    dms_text(magnitude(p.lat as int), false) + (if p.lat < 0 {
        " S "@
    } else {
        " N "@
    }) + dms_text(magnitude(p.lon as int), true) + (if p.lon < 0 {
        " W"@
    } else {
        " E"@
    })
}

/// Ten to the power `e`.
pub open spec fn pow10(e: nat) -> nat
    decreases e,
{
    if e == 0 {
        1
    } else {
        10 * pow10((e - 1) as nat)
    }
}

/// A distance in thousandths of a nautical mile, rounded to the nearest,
/// a half upwards.
pub open spec fn nm_thousandths(m: Metres) -> nat {
    let den = 1852 * pow10(m.places as nat);
    (m.scaled as nat * 2000 + den) / (2 * den)
}

/// A distance in nautical miles with three decimal places.
pub open spec fn nm_text(m: Metres) -> Seq<char> {
    digits(nm_thousandths(m) / 1000) + "."@ + three_digits(nm_thousandths(m) % 1000)
}

/// The text of one digit.
fn digit_str(d: u128) -> (s: &'static str)
    requires
        d < 10,
    ensures
        s@ == seq![digit_char(d as int)],
{
    let s = match d {
        0 => "0",
        1 => "1",
        2 => "2",
        3 => "3",
        4 => "4",
        5 => "5",
        6 => "6",
        7 => "7",
        8 => "8",
        _ => "9",
    };
    proof {
        reveal_strlit("0");
        reveal_strlit("1");
        reveal_strlit("2");
        reveal_strlit("3");
        reveal_strlit("4");
        reveal_strlit("5");
        reveal_strlit("6");
        reveal_strlit("7");
        reveal_strlit("8");
        reveal_strlit("9");
        assert(s@ =~= seq![digit_char(d as int)]);
    }
    s
}

/// Writes a number in decimal behind `out`.
pub fn push_number(out: &mut String, n: u128)
    ensures
        final(out)@ == old(out)@ + digits(n as nat),
    decreases n,
{
    if n >= 10 {
        push_number(out, n / 10);
    }
    out.append(digit_str(n % 10));
    assert(out@ =~= old(out)@ + digits(n as nat));
}

/// Writes a number with at least two digits behind `out`.
pub fn push_two_digits(out: &mut String, n: u128)
    ensures
        final(out)@ == old(out)@ + two_digits(n as nat),
{
    if n < 10 {
        out.append("0");
    }
    push_number(out, n);
    assert(out@ =~= old(out)@ + two_digits(n as nat));
}

/// Writes a number with at least three digits behind `out`.
pub fn push_three_digits(out: &mut String, n: u128)
    ensures
        final(out)@ == old(out)@ + three_digits(n as nat),
{
    if n < 10 {
        out.append("00");
    } else if n < 100 {
        out.append("0");
    }
    push_number(out, n);
    assert(out@ =~= old(out)@ + three_digits(n as nat));
}

/// Writes arc-seconds as degrees, minutes and seconds behind `out`.
fn push_dms(out: &mut String, seconds: u128, wide: bool)
    ensures
        final(out)@ == old(out)@ + dms_text(seconds as nat, wide),
{
    if wide {
        push_three_digits(out, seconds / 3600);
    } else {
        push_two_digits(out, seconds / 3600);
    }
    out.append(":");
    push_two_digits(out, (seconds / 60) % 60);
    out.append(":");
    push_two_digits(out, seconds % 60);
    assert(out@ =~= old(out)@ + dms_text(seconds as nat, wide));
}

/// The size of a signed number.
fn size_of(v: i32) -> (m: u128)
    ensures
        m == magnitude(v as int),
{
    if v < 0 {
        (-(v as i64)) as u128
    } else {
        v as u128
    }
}

/// Writes a position behind `out`.
pub fn push_position(out: &mut String, p: LatLon)
    ensures
        final(out)@ == old(out)@ + position_text(p),
{
    push_dms(out, size_of(p.lat), false);
    out.append(if p.lat < 0 {
        " S "
    } else {
        " N "
    });
    push_dms(out, size_of(p.lon), true);
    out.append(if p.lon < 0 {
        " W"
    } else {
        " E"
    });
    assert(out@ =~= old(out)@ + position_text(p));
}

/// Powers of ten grow with the exponent.
pub proof fn lemma_pow10_grows(a: nat, b: nat)
    requires
        a <= b,
    ensures
        1 <= pow10(a) <= pow10(b),
    decreases b,
{
    if a < b {
        lemma_pow10_grows(a, (b - 1) as nat);
    } else if b > 0 {
        lemma_pow10_grows((a - 1) as nat, (b - 1) as nat);
    }
}

/// Ten to the twenty-first, written out.
pub proof fn lemma_pow10_21()
    ensures
        pow10(21) == 1_000_000_000_000_000_000_000,
{
    assert(pow10(0) == 1);
    assert(pow10(1) == 10);
    assert(pow10(2) == 100);
    assert(pow10(3) == 1_000);
    assert(pow10(4) == 10_000);
    assert(pow10(5) == 100_000);
    assert(pow10(6) == 1_000_000);
    assert(pow10(7) == 10_000_000);
    assert(pow10(8) == 100_000_000);
    assert(pow10(9) == 1_000_000_000);
    assert(pow10(10) == 10_000_000_000);
    assert(pow10(11) == 100_000_000_000);
    assert(pow10(12) == 1_000_000_000_000);
    assert(pow10(13) == 10_000_000_000_000);
    assert(pow10(14) == 100_000_000_000_000);
    assert(pow10(15) == 1_000_000_000_000_000);
    assert(pow10(16) == 10_000_000_000_000_000);
    assert(pow10(17) == 100_000_000_000_000_000);
    assert(pow10(18) == 1_000_000_000_000_000_000);
    assert(pow10(19) == 10_000_000_000_000_000_000);
    assert(pow10(20) == 100_000_000_000_000_000_000);
}

/// A distance in thousandths of a nautical mile.
pub fn thousandths_of_nm(m: Metres) -> (t: u128)
    ensures
        t == nm_thousandths(m),
{
    proof {
        lemma_pow10_21();
    }
    if m.places > 20 {
        proof {
            lemma_pow10_grows(21, m.places as nat);
            let den = 1852 * pow10(m.places as nat);
            let num = m.scaled as nat * 2000 + den;
            assert(num < 2 * den);
            assert(num / (2 * den) == 0) by (nonlinear_arith)
                requires
                    0 <= num < 2 * den,
            ;
        }
        return 0;
    }
    let mut scale: u128 = 1;
    let mut i: u32 = 0;
    while i < m.places
        invariant
            i <= m.places <= 20,
            scale == pow10(i as nat),
            pow10(21) == 1_000_000_000_000_000_000_000,
        decreases m.places - i,
    {
        proof {
            lemma_pow10_grows(i as nat + 1, 21);
        }
        scale = scale * 10;
        i += 1;
    }
    proof {
        lemma_pow10_grows(m.places as nat, 21);
    }
    let den: u128 = 1852 * scale;
    (m.scaled as u128 * 2000 + den) / (2 * den)
}

/// Writes a distance in nautical miles behind `out`.
pub fn push_nm(out: &mut String, m: Metres)
    ensures
        final(out)@ == old(out)@ + nm_text(m),
{
    let t = thousandths_of_nm(m);
    push_number(out, t / 1000);
    out.append(".");
    push_three_digits(out, t % 1000);
    assert(out@ =~= old(out)@ + nm_text(m));
}

/// Whether two texts are the same.
pub fn text_is(s: &str, word: &str) -> (b: bool)
    ensures
        b == (s@ == word@),
{
    let n = word.unicode_len();
    if s.unicode_len() != n {
        return false;
    }
    let mut i: usize = 0;
    while i < n
        invariant
            i <= n,
            s@.len() == n,
            word@.len() == n,
            forall|k: int| 0 <= k < i ==> s@[k] == word@[k],
        decreases n - i,
    {
        if s.get_char(i) != word.get_char(i) {
            return false;
        }
        i += 1;
    }
    assert(s@ =~= word@);
    true
}

/// Whether a text is one or more digits and nothing else.
pub fn is_number(s: &str) -> (b: bool)
    ensures
        b == (s@.len() > 0 && all_digits(s@, 0, s@.len() as int)),
{
    let n = s.unicode_len();
    let mut i: usize = 0;
    while i < n
        invariant
            i <= n,
            s@.len() == n,
            all_digits(s@, 0, i as int),
        decreases n - i,
    {
        let c = s.get_char(i);
        if !(c >= '0' && c <= '9') {
            return false;
        }
        i += 1;
    }
    n > 0
}

/// A position literal as it is read back by a person: minutes and seconds
/// below sixty, and no southern or western zero.
pub open spec fn is_plain_latlon(s: Seq<char>) -> bool {
    &&& is_latlon(s)
    &&& decimal(s.subrange(2, 4)) < 60
    &&& decimal(s.subrange(4, 6)) < 60
    &&& decimal(s.subrange(11, 13)) < 60
    &&& decimal(s.subrange(13, 15)) < 60
    &&& (lat_seconds(s) == 0 ==> s[6] == 'N')
    &&& (lon_seconds(s) == 0 ==> s[15] == 'E')
}

/// The digits of degrees, minutes and seconds as they stand in a literal,
/// with colons between them.
pub open spec fn dms_set_out(s: Seq<char>, at: int, width: int) -> Seq<char> {
    s.subrange(at, at + width) + ":"@ + s.subrange(at + width, at + width + 2) + ":"@ + s.subrange(
        at + width + 2,
        at + width + 4,
    )
}

/// The digits and letters of a position literal, set out as a position is
/// written: `DD:MM:SS N DDD:MM:SS E`.
pub open spec fn set_out(s: Seq<char>) -> Seq<char> {
    dms_set_out(s, 0, 2) + (if s[6] == 'S' {
        " S "@
    } else {
        " N "@
    }) + dms_set_out(s, 8, 3) + (if s[15] == 'W' {
        " W"@
    } else {
        " E"@
    })
}

/// The character of the number of a digit is the digit.
pub proof fn lemma_digit_char(c: char)
    requires
        is_digit(c),
    ensures
        0 <= digit_value(c) <= 9,
        digit_char(digit_value(c) as int) == c,
{
    if c == '0' {
    } else if c == '1' {
    } else if c == '2' {
    } else if c == '3' {
    } else if c == '4' {
    } else if c == '5' {
    } else if c == '6' {
    } else if c == '7' {
    } else if c == '8' {
    } else {
        assert(c == '9');
    }
}

/// Two digits, read as a number and written with two digits, are the two
/// digits again.
pub proof fn lemma_two_digits_again(s: Seq<char>)
    requires
        s.len() == 2,
        is_digit(s[0]),
        is_digit(s[1]),
    ensures
        decimal(s) == 10 * digit_value(s[0]) + digit_value(s[1]),
        two_digits(decimal(s)) == s,
{
    lemma_digit_char(s[0]);
    lemma_digit_char(s[1]);
    reveal_with_fuel(extend, 3);
    reveal_with_fuel(digits, 3);
    reveal_strlit("0");
    assert(s.drop_last().last() == s[0]);
    let n = decimal(s);
    assert(n == 10 * digit_value(s[0]) + digit_value(s[1]));
    assert(two_digits(n) =~= s);
}

/// Three digits, read as a number and written with three digits, are the
/// three digits again.
pub proof fn lemma_three_digits_again(s: Seq<char>)
    requires
        s.len() == 3,
        is_digit(s[0]),
        is_digit(s[1]),
        is_digit(s[2]),
    ensures
        decimal(s) == 100 * digit_value(s[0]) + 10 * digit_value(s[1]) + digit_value(s[2]),
        three_digits(decimal(s)) == s,
{
    lemma_digit_char(s[0]);
    lemma_digit_char(s[1]);
    lemma_digit_char(s[2]);
    reveal_with_fuel(extend, 4);
    reveal_with_fuel(digits, 4);
    reveal_strlit("0");
    reveal_strlit("00");
    assert(s.drop_last().last() == s[1]);
    assert(s.drop_last().drop_last().last() == s[0]);
    let n = decimal(s);
    assert(n == 100 * digit_value(s[0]) + 10 * digit_value(s[1]) + digit_value(s[2]));
    let tens = n / 10;
    assert(tens == 10 * digit_value(s[0]) + digit_value(s[1]));
    assert(n % 10 == digit_value(s[2]));
    assert(tens / 10 == digit_value(s[0]));
    assert(tens % 10 == digit_value(s[1]));
    assert(three_digits(n) =~= s);
}

/// Degrees, minutes and seconds, read from their digits and written
/// again, are the digits with colons between them.
pub proof fn lemma_dms_again(s: Seq<char>, at: int, width: int)
    requires
        width == 2 || width == 3,
        0 <= at,
        at + width + 4 <= s.len(),
        all_digits(s, at, at + width + 4),
        decimal(s.subrange(at + width, at + width + 2)) < 60,
        decimal(s.subrange(at + width + 2, at + width + 4)) < 60,
    ensures
        dms_text(dms_seconds(s, at, width), width == 3) == dms_set_out(s, at, width),
        width == 2 ==> dms_seconds(s, at, width) <= 362439,
        dms_seconds(s, at, width) <= 3602439,
{
    let d = s.subrange(at, at + width);
    let m = s.subrange(at + width, at + width + 2);
    let c = s.subrange(at + width + 2, at + width + 4);
    assert(is_digit(s[at + width]) && is_digit(s[at + width + 1]));
    assert(is_digit(s[at + width + 2]) && is_digit(s[at + width + 3]));
    assert(is_digit(s[at]) && is_digit(s[at + 1]));
    lemma_two_digits_again(m);
    lemma_two_digits_again(c);
    let total = dms_seconds(s, at, width);
    let degrees = decimal(d);
    assert(total == degrees * 3600 + decimal(m) * 60 + decimal(c));
    assert(total / 3600 == degrees && (total / 60) % 60 == decimal(m) && total % 60 == decimal(c))
        by (nonlinear_arith)
        requires
            total == degrees * 3600 + decimal(m) * 60 + decimal(c),
            decimal(m) < 60,
            decimal(c) < 60,
    ;
    lemma_digit_char(s[at]);
    lemma_digit_char(s[at + 1]);
    if width == 2 {
        lemma_two_digits_again(d);
    } else {
        assert(is_digit(s[at + 2]));
        lemma_digit_char(s[at + 2]);
        lemma_three_digits_again(d);
    }
}

/// A position that was read from a plain literal is written with the
/// digits and the letters of that literal.
pub proof fn lemma_position_written_as_read(s: Seq<char>)
    requires
        is_plain_latlon(s),
    ensures
        position_text(LatLon { lat: lat_seconds(s) as i32, lon: lon_seconds(s) as i32 }) == set_out(
            s,
        ),
{
    lemma_dms_again(s, 0, 2);
    lemma_dms_again(s, 8, 3);
    let north = dms_seconds(s, 0, 2);
    let east = dms_seconds(s, 8, 3);
    let p = LatLon { lat: lat_seconds(s) as i32, lon: lon_seconds(s) as i32 };
    assert(magnitude(p.lat as int) == north);
    assert(magnitude(p.lon as int) == east);
    assert(p.lat < 0 <==> s[6] == 'S');
    assert(p.lon < 0 <==> s[15] == 'W');
}

} // verus!

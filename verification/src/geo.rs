//! Position and distance literals.
//!
//! Both are read into whole numbers. A position becomes signed arc-seconds,
//! 3600 to the degree. A distance becomes metres scaled by a power of ten,
//! so that a magnitude with decimal places is kept exactly.

use crate::error::ConversionError;
use vstd::prelude::*;
use vstd::string::*;

verus! {

/// A position in arc-seconds: `lat` positive to the north, `lon` to the east.
#[derive(Clone, Copy, Debug, PartialEq, Eq, Structural)]
pub struct LatLon {
    pub lat: i32,
    pub lon: i32,
}

/// The character is a decimal digit.
pub open spec fn is_digit(c: char) -> bool {
    '0' <= c && c <= '9'
}

/// The number that a digit stands for.
pub open spec fn digit_value(c: char) -> nat {
    (c as int - '0' as int) as nat
}

/// The number `start` with the digits of `s` written after it.
pub open spec fn extend(start: nat, s: Seq<char>) -> nat
    decreases s.len(),
{
    if s.len() == 0 {
        start
    } else {
        extend(start, s.drop_last()) * 10 + digit_value(s.last())
    }
}

/// The number that a run of decimal digits writes.
pub open spec fn decimal(s: Seq<char>) -> nat {
    extend(0, s)
}

/// Every character of `s` from `from` up to `to` is a digit.
pub open spec fn all_digits(s: Seq<char>, from: int, to: int) -> bool {
    forall|i: int| from <= i < to ==> is_digit(#[trigger] s[i])
}

/// Degrees, minutes and seconds starting at `at`, the degrees `width` digits
/// wide, as arc-seconds.
pub open spec fn dms_seconds(s: Seq<char>, at: int, width: int) -> nat {
    let degrees = decimal(s.subrange(at, at + width));
    let minutes = decimal(s.subrange(at + width, at + width + 2));
    let seconds = decimal(s.subrange(at + width + 2, at + width + 4));
    degrees * 3600 + minutes * 60 + seconds
}

/// A position literal: `DDMMSS`, `N` or `S`, any one character, `DDDMMSS`,
/// `E` or `W`.
pub open spec fn is_latlon(s: Seq<char>) -> bool {
    &&& s.len() == 16
    &&& all_digits(s, 0, 6)
    &&& (s[6] == 'N' || s[6] == 'S')
    &&& all_digits(s, 8, 15)
    &&& (s[15] == 'E' || s[15] == 'W')
}

/// Latitude of a position literal in arc-seconds, negative to the south.
pub open spec fn lat_seconds(s: Seq<char>) -> int {
    if s[6] == 'S' {
        -(dms_seconds(s, 0, 2) as int)
    } else {
        dms_seconds(s, 0, 2) as int
    }
}

/// Longitude of a position literal in arc-seconds, negative to the west.
pub open spec fn lon_seconds(s: Seq<char>) -> int {
    if s[15] == 'W' {
        -(dms_seconds(s, 8, 3) as int)
    } else {
        dms_seconds(s, 8, 3) as int
    }
}

/// Two digits write 99 at most, three digits 999.
pub proof fn lemma_decimal_bound(s: Seq<char>)
    requires
        all_digits(s, 0, s.len() as int),
    ensures
        s.len() == 2 ==> decimal(s) <= 99,
        s.len() == 3 ==> decimal(s) <= 999,
    decreases s.len(),
{
    reveal_with_fuel(extend, 4);
    if s.len() == 2 {
        assert(is_digit(s[0]) && is_digit(s[1]));
        assert(s.drop_last().last() == s[0]);
    } else if s.len() == 3 {
        assert(is_digit(s[0]) && is_digit(s[1]) && is_digit(s[2]));
        assert(s.drop_last().last() == s[1]);
        assert(s.drop_last().drop_last().last() == s[0]);
    }
}

/// Reads `count` digits of `s` starting at `from`.
fn read_digits(s: &str, from: usize, count: usize) -> (res: Option<u32>)
    requires
        from + count <= s@.len() <= usize::MAX,
        count <= 3,
    ensures
        res is Some <==> all_digits(s@, from as int, from + count),
        res matches Some(v) ==> v == decimal(s@.subrange(from as int, from + count)) && v <= 999
            && (count <= 2 ==> v <= 99),
{
    let mut value: u32 = 0;
    let mut i: usize = 0;
    while i < count
        invariant
            i <= count <= 3,
            from + count <= s@.len() <= usize::MAX,
            all_digits(s@, from as int, from + i),
            value == decimal(s@.subrange(from as int, from + i)),
            i == 0 ==> value == 0,
            i == 1 ==> value <= 9,
            i == 2 ==> value <= 99,
            i == 3 ==> value <= 999,
        decreases count - i,
    {
        let c = s.get_char(from + i);
        if !(c >= '0' && c <= '9') {
            assert(!is_digit(s@[from + i]));
            return None;
        }
        let d: u32 = c as u32 - '0' as u32;
        proof {
            let next = s@.subrange(from as int, from + i + 1);
            assert(next.drop_last() =~= s@.subrange(from as int, from + i));
            assert(next.last() == c);
        }
        value = value * 10 + d;
        i += 1;
    }
    Some(value)
}

/// Reads a position literal into arc-seconds.
///
/// The literal is good exactly when it has the sixteen-character shape; the
/// character between the two halves is not looked at.
pub fn latlon_to_degrees(latlon: &str) -> (res: Result<LatLon, ConversionError>)
    ensures
        is_latlon(latlon@) ==> res == Ok::<LatLon, ConversionError>(
            LatLon { lat: lat_seconds(latlon@) as i32, lon: lon_seconds(latlon@) as i32 },
        ),
        is_latlon(latlon@) ==> -362439 <= lat_seconds(latlon@) <= 362439 && -3602439
            <= lon_seconds(latlon@) <= 3602439,
        !is_latlon(latlon@) ==> res == Err::<LatLon, ConversionError>(
            ConversionError::MalformedCoordinate,
        ),
{
    if latlon.unicode_len() != 16 {
        return Err(ConversionError::MalformedCoordinate);
    }
    let lat = match read_dms(latlon, 0, 2) {
        Some(v) => v,
        None => {
            return Err(ConversionError::MalformedCoordinate);
        },
    };
    let lon = match read_dms(latlon, 8, 3) {
        Some(v) => v,
        None => {
            return Err(ConversionError::MalformedCoordinate);
        },
    };
    let ns = latlon.get_char(6);
    let ew = latlon.get_char(15);
    if !(ns == 'N' || ns == 'S') || !(ew == 'E' || ew == 'W') {
        return Err(ConversionError::MalformedCoordinate);
    }
    Ok(LatLon { lat: if ns == 'S' { -lat } else { lat }, lon: if ew == 'W' { -lon } else { lon } })
}

/// Reads degrees (`width` digits), minutes and seconds starting at `at`.
fn read_dms(s: &str, at: usize, width: usize) -> (res: Option<i32>)
    requires
        at + width + 4 <= s@.len() <= usize::MAX,
        2 <= width <= 3,
    ensures
        res is Some <==> all_digits(s@, at as int, at + width + 4),
        res matches Some(v) ==> v == dms_seconds(s@, at as int, width as int) && 0 <= v <= 3602439
            && (width == 2 ==> v <= 362439),
{
    let deg = match read_digits(s, at, width) {
        Some(v) => v,
        None => {
            return None;
        },
    };
    let min = match read_digits(s, at + width, 2) {
        Some(v) => v,
        None => {
            return None;
        },
    };
    let sec = match read_digits(s, at + width + 2, 2) {
        Some(v) => v,
        None => {
            return None;
        },
    };
    proof {
        lemma_decimal_bound(s@.subrange(at + width, at + width + 2));
        lemma_decimal_bound(s@.subrange(at + width + 2, at + width + 4));
    }
    Some((deg * 3600 + min * 60 + sec) as i32)
}

/// A distance in metres, scaled by ten to the `places`: the distance is
/// `scaled / 10^places` metres.
#[derive(Clone, Copy, Debug, PartialEq, Eq, Structural)]
pub struct Metres {
    pub scaled: u64,
    pub places: u32,
}

/// The most decimal places that a magnitude may have.
pub const MAX_PLACES: u32 = 18;

/// Where the run of digits that starts at `from` ends.
pub open spec fn digits_end(s: Seq<char>, from: int) -> int
    decreases s.len() - from,
{
    if 0 <= from < s.len() && is_digit(s[from]) {
        digits_end(s, from + 1)
    } else {
        from
    }
}

/// The magnitude has a decimal point after its leading digits.
pub open spec fn has_point(s: Seq<char>) -> bool {
    let e = digits_end(s, 0);
    e < s.len() && s[e] == '.'
}

/// Where the magnitude ends: after the leading digits and, where a point
/// follows them, after the digits behind the point.
pub open spec fn magnitude_end(s: Seq<char>) -> int {
    if has_point(s) {
        digits_end(s, digits_end(s, 0) + 1)
    } else {
        digits_end(s, 0)
    }
}

/// The digits of the magnitude, without the point.
pub open spec fn magnitude_digits(s: Seq<char>) -> Seq<char> {
    let e = digits_end(s, 0);
    if has_point(s) {
        s.subrange(0, e) + s.subrange(e + 1, magnitude_end(s))
    } else {
        s.subrange(0, e)
    }
}

/// The number of digits behind the point.
pub open spec fn magnitude_places(s: Seq<char>) -> nat {
    if has_point(s) {
        (magnitude_end(s) - digits_end(s, 0) - 1) as nat
    } else {
        0
    }
}

/// A distance literal: a magnitude of at least one digit, with at most one
/// point, and a space behind it.
pub open spec fn is_distance(s: Seq<char>) -> bool {
    let f = magnitude_end(s);
    &&& magnitude_digits(s).len() >= 1
    &&& f < s.len()
    &&& s[f] == ' '
}

/// The unit behind the magnitude's space is `nm`: those two letters, and
/// then the end of the literal or another space.
pub open spec fn unit_is_nm(s: Seq<char>) -> bool {
    let u = magnitude_end(s) + 1;
    &&& u + 2 <= s.len()
    &&& s[u] == 'n'
    &&& s[u + 1] == 'm'
    &&& (u + 2 == s.len() || s[u + 2] == ' ')
}

/// Metres to the unit: 1852 for nautical miles, 1000 for any other unit.
pub open spec fn metres_per_unit(s: Seq<char>) -> nat {
    if unit_is_nm(s) {
        1852
    } else {
        1000
    }
}

/// The magnitude in metres, scaled by ten to the number of its places.
pub open spec fn scaled_metres(s: Seq<char>) -> nat {
    decimal(magnitude_digits(s)) * metres_per_unit(s)
}

/// The distance can be held: not too many places, and the scaled metres
/// within 64 bits.
pub open spec fn distance_fits(s: Seq<char>) -> bool {
    magnitude_places(s) <= MAX_PLACES && scaled_metres(s) <= u64::MAX
}

/// Writing digits after a number in two steps is writing them in one.
pub proof fn lemma_extend_concat(start: nat, a: Seq<char>, b: Seq<char>)
    ensures
        extend(start, a + b) == extend(extend(start, a), b),
    decreases b.len(),
{
    if b.len() == 0 {
        assert(a + b =~= a);
    } else {
        lemma_extend_concat(start, a, b.drop_last());
        assert((a + b).drop_last() =~= a + b.drop_last());
        assert((a + b).last() == b.last());
    }
}

/// Writing digits after a number never makes it smaller.
pub proof fn lemma_extend_grows(start: nat, s: Seq<char>)
    ensures
        extend(start, s) >= start,
    decreases s.len(),
{
    if s.len() > 0 {
        lemma_extend_grows(start, s.drop_last());
    }
}

/// A run of digits ends at or after its start, holds digits only, and is
/// followed by the end of the text or by something that is no digit.
pub proof fn lemma_digits_end(s: Seq<char>, from: int)
    requires
        0 <= from <= s.len(),
    ensures
        from <= digits_end(s, from) <= s.len(),
        all_digits(s, from, digits_end(s, from)),
        digits_end(s, from) < s.len() ==> !is_digit(s[digits_end(s, from)]),
    decreases s.len() - from,
{
    if from < s.len() && is_digit(s[from]) {
        lemma_digits_end(s, from + 1);
    }
}

/// Where the digits of the magnitude write more than 64 bits hold, the
/// scaled metres are more than 64 bits hold too.
pub proof fn lemma_too_many_digits(s: Seq<char>)
    requires
        decimal(magnitude_digits(s)) > u64::MAX,
    ensures
        scaled_metres(s) > u64::MAX,
        !distance_fits(s),
{
    assert(scaled_metres(s) >= decimal(magnitude_digits(s))) by (nonlinear_arith)
        requires
            scaled_metres(s) == decimal(magnitude_digits(s)) * metres_per_unit(s),
            metres_per_unit(s) >= 1,
    ;
}

/// A run of digits that starts at `from` ends at `to`, where `to` is the
/// end of the text or holds something that is no digit.
pub proof fn lemma_digits_end_at(s: Seq<char>, from: int, to: int)
    requires
        0 <= from <= to <= s.len(),
        all_digits(s, from, to),
        to < s.len() ==> !is_digit(s[to]),
    ensures
        digits_end(s, from) == to,
    decreases to - from,
{
    if from < to {
        assert(is_digit(s[from]));
        lemma_digits_end_at(s, from + 1, to);
    }
}

/// The digits behind the point, where there is a point.
pub open spec fn behind_point(frac: Option<Seq<char>>) -> Seq<char> {
    match frac {
        Some(f) => f,
        None => Seq::empty(),
    }
}

/// A distance literal put together from its parts: the digits before the
/// point, the point and the digits behind it where there is one, a space,
/// and the unit.
pub open spec fn distance_literal(
    whole: Seq<char>,
    frac: Option<Seq<char>>,
    unit: Seq<char>,
) -> Seq<char> {
    whole + (match frac {
        Some(f) => seq!['.'] + f,
        None => Seq::empty(),
    }) + seq![' '] + unit
}

/// Metres to the unit, by the unit's text.
pub open spec fn metres_per(unit: Seq<char>) -> nat {
    if unit == seq!['n', 'm'] {
        1852
    } else {
        1000
    }
}

/// The conversion in general: a decimal magnitude, a space and a unit
/// without a space in it are a distance literal; its scaled metres are the
/// number that the magnitude's digits write, times 1852 for `nm` and times
/// 1000 for any other unit; and its places are the digits behind the point.
pub proof fn lemma_distance_of_parts(whole: Seq<char>, frac: Option<Seq<char>>, unit: Seq<char>)
    requires
        all_digits(whole, 0, whole.len() as int),
        all_digits(behind_point(frac), 0, behind_point(frac).len() as int),
        whole.len() + behind_point(frac).len() >= 1,
        forall|i: int| 0 <= i < unit.len() ==> unit[i] != ' ',
    ensures
        is_distance(distance_literal(whole, frac, unit)),
        magnitude_digits(distance_literal(whole, frac, unit)) == whole + behind_point(frac),
        magnitude_places(distance_literal(whole, frac, unit)) == behind_point(frac).len(),
        metres_per_unit(distance_literal(whole, frac, unit)) == metres_per(unit),
        scaled_metres(distance_literal(whole, frac, unit)) == decimal(whole + behind_point(frac))
            * metres_per(unit),
{
    let s = distance_literal(whole, frac, unit);
    let e = whole.len() as int;
    let digits = behind_point(frac);
    assert forall|i: int| 0 <= i < e implies is_digit(#[trigger] s[i]) by {
        assert(s[i] == whole[i]);
    }
    match frac {
        Some(f) => {
            let end = e + 1 + f.len();
            assert(s[e] == '.');
            lemma_digits_end_at(s, 0, e);
            assert forall|i: int| e + 1 <= i < end implies is_digit(#[trigger] s[i]) by {
                assert(s[i] == f[i - e - 1]);
            }
            assert(s[end] == ' ');
            lemma_digits_end_at(s, e + 1, end);
            assert(magnitude_end(s) == end);
            assert(s.subrange(0, e) =~= whole);
            assert(s.subrange(e + 1, end) =~= f);
            assert(s.len() == end + 1 + unit.len());
            assert forall|i: int| 0 <= i < unit.len() implies s[end + 1 + i] == unit[i] by {}
            lemma_unit_of_parts(s, end, unit);
        },
        None => {
            assert(s[e] == ' ');
            lemma_digits_end_at(s, 0, e);
            assert(!has_point(s));
            assert(s.subrange(0, e) =~= whole);
            assert(whole + digits =~= whole);
            assert(s.len() == e + 1 + unit.len());
            assert forall|i: int| 0 <= i < unit.len() implies s[e + 1 + i] == unit[i] by {}
            lemma_unit_of_parts(s, e, unit);
        },
    }
}

/// The unit behind the magnitude's space is `nm` exactly when the unit's
/// text is.
proof fn lemma_unit_of_parts(s: Seq<char>, end: int, unit: Seq<char>)
    requires
        magnitude_end(s) == end,
        0 <= end,
        s.len() == end + 1 + unit.len(),
        forall|i: int| 0 <= i < unit.len() ==> s[end + 1 + i] == unit[i],
        forall|i: int| 0 <= i < unit.len() ==> unit[i] != ' ',
    ensures
        metres_per_unit(s) == metres_per(unit),
{
    if unit_is_nm(s) {
        assert(unit.len() >= 2);
        assert(unit[0] == 'n' && unit[1] == 'm');
        if unit.len() > 2 {
            assert(s[end + 1 + 2] == unit[2]);
        }
        assert(unit =~= seq!['n', 'm']);
    }
    if unit == seq!['n', 'm'] {
        assert(s[end + 1 + 0] == unit[0]);
        assert(s[end + 1 + 1] == unit[1]);
        assert(unit_is_nm(s));
    }
}

/// Reads the run of digits at `from` as a continuation of `start`. Gives
/// the end of the run and the number, or nothing where the number would
/// not fit 64 bits.
fn read_run(s: &str, from: usize, start: u64) -> (res: Option<(usize, u64)>)
    requires
        from <= s@.len() <= usize::MAX,
    ensures
        res is Some <==> extend(start as nat, s@.subrange(from as int, digits_end(s@, from as int)))
            <= u64::MAX,
        res matches Some((end, value)) ==> end == digits_end(s@, from as int) && value == extend(
            start as nat,
            s@.subrange(from as int, end as int),
        ),
{
    let n = s.unicode_len();
    let mut value: u64 = start;
    let mut i: usize = from;
    proof {
        lemma_digits_end(s@, from as int);
    }
    while i < n
        invariant
            from <= i <= n == s@.len(),
            value == extend(start as nat, s@.subrange(from as int, i as int)),
            digits_end(s@, from as int) == digits_end(s@, i as int),
        decreases n - i,
    {
        let c = s.get_char(i);
        if !(c >= '0' && c <= '9') {
            return Some((i, value));
        }
        let d: u64 = (c as u32 - '0' as u32) as u64;
        proof {
            let next = s@.subrange(from as int, i + 1);
            assert(next.drop_last() =~= s@.subrange(from as int, i as int));
            assert(next.last() == c);
            if value > (u64::MAX - d) / 10 {
                let end = digits_end(s@, from as int);
                lemma_digits_end(s@, i + 1);
                let rest = s@.subrange(i + 1, end);
                assert(s@.subrange(from as int, end) =~= next + rest);
                lemma_extend_concat(start as nat, next, rest);
                lemma_extend_grows(extend(start as nat, next), rest);
            }
        }
        if value > (u64::MAX - d) / 10 {
            return None;
        }
        value = value * 10 + d;
        i += 1;
    }
    Some((i, value))
}

/// Reads a distance literal into scaled metres.
///
/// The magnitude is a decimal number without sign or exponent, and a space
/// follows it. The unit is what stands between that space and the next
/// one: `nm` counts 1852 metres, anything else 1000. The literal is refused
/// where it has not that shape, and where the result cannot be held.
pub fn radius_to_metres(radius: &str) -> (res: Result<Metres, ConversionError>)
    ensures
        is_distance(radius@) && distance_fits(radius@) ==> res == Ok::<Metres, ConversionError>(
            Metres { scaled: scaled_metres(radius@) as u64, places: magnitude_places(radius@) as u32 },
        ),
        !(is_distance(radius@) && distance_fits(radius@)) ==> res == Err::<Metres, ConversionError>(
            ConversionError::MalformedDistance,
        ),
{
    let n = radius.unicode_len();
    let ghost s = radius@;
    proof {
        lemma_digits_end(s, 0);
    }
    let (e, whole) = match read_run(radius, 0, 0) {
        Some(r) => r,
        None => {
            proof {
                if has_point(s) {
                    lemma_digits_end(s, digits_end(s, 0) + 1);
                    let a = s.subrange(0, digits_end(s, 0));
                    let b = s.subrange(digits_end(s, 0) + 1, magnitude_end(s));
                    lemma_extend_concat(0, a, b);
                    lemma_extend_grows(extend(0, a), b);
                }
                lemma_too_many_digits(s);
            }
            return Err(ConversionError::MalformedDistance);
        },
    };
    let point = e < n && radius.get_char(e) == '.';
    let (f, mantissa) = if point {
        proof {
            lemma_digits_end(s, e + 1);
            lemma_extend_concat(0, s.subrange(0, e as int), s.subrange(e + 1, magnitude_end(s)));
        }
        match read_run(radius, e + 1, whole) {
            Some(r) => r,
            None => {
                proof {
                    lemma_too_many_digits(s);
                }
                return Err(ConversionError::MalformedDistance);
            },
        }
    } else {
        (e, whole)
    };
    assert(f == magnitude_end(s));
    assert(mantissa == decimal(magnitude_digits(s)));
    let places: usize = if point {
        f - e - 1
    } else {
        0
    };
    assert(places == magnitude_places(s));
    assert(magnitude_digits(s).len() == e + places);
    if e == 0 && places == 0 {
        return Err(ConversionError::MalformedDistance);
    }
    if f >= n || radius.get_char(f) != ' ' {
        return Err(ConversionError::MalformedDistance);
    }
    if places > 18 {
        return Err(ConversionError::MalformedDistance);
    }
    let nm = n - f >= 3 && radius.get_char(f + 1) == 'n' && radius.get_char(f + 2) == 'm' && (n - f
        == 3 || radius.get_char(f + 3) == ' ');
    assert(nm == unit_is_nm(s));
    let factor: u64 = if nm {
        1852
    } else {
        1000
    };
    if mantissa > u64::MAX / factor {
        assert(mantissa * factor > u64::MAX) by (nonlinear_arith)
            requires
                mantissa > u64::MAX / factor,
                factor == 1852 || factor == 1000,
        ;
        return Err(ConversionError::MalformedDistance);
    }
    assert(mantissa * factor <= u64::MAX) by (nonlinear_arith)
        requires
            mantissa <= u64::MAX / factor,
            factor == 1852 || factor == 1000,
    ;
    Ok(Metres { scaled: mantissa * factor, places: places as u32 })
}

} // verus!

//! Spans of time: read from a clock reading, shown as hours, minutes and seconds.

use vstd::prelude::*;

use vstd::arithmetic::power::*;

use crate::decimal;
use crate::number;
use crate::text;

verus! {

/// Microseconds in a second.
pub const SECOND: i64 = 1_000_000;

/// A number of seconds, kept in microseconds: the time base that FFmpeg itself counts in.
#[derive(Clone, Copy, Debug, PartialEq, Eq, Structural)]
pub struct Seconds {
    pub micros: i64,
}

/// `n` held to the range of `i64`.
pub open spec fn clamp64(n: int) -> int {
    if n < i64::MIN {
        i64::MIN as int
    } else if n > i64::MAX {
        i64::MAX as int
    } else {
        n
    }
}

/// `n` held to the range of `i32`.
pub open spec fn clamp32(n: int) -> int {
    if n < i32::MIN {
        i32::MIN as int
    } else if n > i32::MAX {
        i32::MAX as int
    } else {
        n
    }
}

/// `n` held to the range of `i64`.
pub(crate) fn to_i64(n: i128) -> (m: i64)
    ensures
        m == clamp64(n as int),
{
    if n < i64::MIN as i128 {
        i64::MIN
    } else if n > i64::MAX as i128 {
        i64::MAX
    } else {
        n as i64
    }
}

/// `n` held to the range of `i32`.
pub(crate) fn to_i32(n: i128) -> (m: i32)
    ensures
        m == clamp32(n as int),
{
    if n < i32::MIN as i128 {
        i32::MIN
    } else if n > i32::MAX as i128 {
        i32::MAX
    } else {
        n as i32
    }
}

/// `a / b` with the remainder dropped towards zero.
pub open spec fn quotient(a: int, b: int) -> int {
    if a >= 0 {
        a / b
    } else {
        -((-a) / b)
    }
}

/// What the clock reading `s` comes to in microseconds. It has three fields, hours, minutes and
/// seconds, set apart by colons, each a number with white space allowed around it; a field that
/// is no number counts zero, and so does a reading that has not three fields.
pub open spec fn clock_micros(s: Seq<char>) -> int {
    let fields = text::split(s, ':');
    if fields.len() == 3 {
        let h = number::number_micros(text::trimmed(fields[0]));
        let m = number::number_micros(text::trimmed(fields[1]));
        let s = number::number_micros(text::trimmed(fields[2]));
        clamp64(h * 3600 + m * 60 + s)
    } else {
        0
    }
}

/// The time that a clock reading such as `01:02:03.45` gives.
pub fn time_str_to_seconds(time_str: &str) -> (t: Seconds)
    ensures
        t.micros == clock_micros(time_str@),
{
    let fields = text::split_at(time_str, ':');
    let ghost parts = text::texts(fields@);
    if fields.len() == 3 {
        assert(parts[0] == fields@[0]@ && parts[1] == fields@[1]@ && parts[2] == fields@[2]@);
        let h: i64 = number::parse_micros(text::trim(fields[0].as_str()).as_str());
        let m: i64 = number::parse_micros(text::trim(fields[1].as_str()).as_str());
        let s: i64 = number::parse_micros(text::trim(fields[2].as_str()).as_str());
        return Seconds { micros: to_i64(h as i128 * 3600 + m as i128 * 60 + s as i128) };
    }
    Seconds { micros: 0 }
}

/// Whole seconds, with the rest dropped towards zero, held to the range of `i32`.
pub open spec fn whole_seconds(micros: int) -> int {
    clamp32(quotient(micros, SECOND as int))
}

/// Hours, minutes and seconds in two places each. Of a negative time every part is negative
/// or zero.
pub open spec fn hms(micros: int) -> Seq<char> {
    let total = whole_seconds(micros);
    let hours = quotient(total, 3600);
    let minutes = quotient(total - hours * 3600, 60);
    let seconds = total - hours * 3600 - minutes * 60;
    decimal::two_places(hours) + seq![':'] + decimal::two_places(minutes) + seq![':']
        + decimal::two_places(seconds)
}

/// `seconds` as hours, minutes and seconds.
pub fn seconds_to_hms(seconds: Seconds) -> (s: String)
    ensures
        s@ == hms(seconds.micros as int),
{
    let negative = seconds.micros < 0;
    let size: i128 = if negative {
        -(seconds.micros as i128)
    } else {
        seconds.micros as i128
    };
    let whole: i128 = size / (SECOND as i128);
    let total: i32 = to_i32(
        if negative {
            -whole
        } else {
            whole
        },
    );
    assert(total == whole_seconds(seconds.micros as int));
    let rest: i64 = if negative {
        -(total as i64)
    } else {
        total as i64
    };
    let h: i64 = rest / 3600;
    let m: i64 = (rest - h * 3600) / 60;
    let s: i64 = rest - h * 3600 - m * 60;
    let mut out = String::new();
    decimal::push_two_places(
        &mut out,
        if negative {
            -h
        } else {
            h
        },
    );
    out.push(':');
    decimal::push_two_places(
        &mut out,
        if negative {
            -m
        } else {
            m
        },
    );
    out.push(':');
    decimal::push_two_places(
        &mut out,
        if negative {
            -s
        } else {
            s
        },
    );
    assert(out@ =~= hms(seconds.micros as int));
    out
}

/// A run of digits has no white space around it and holds no colon.
proof fn lemma_digits_are_bare(s: Seq<char>)
    requires
        s.len() > 0,
        decimal::all_digits(s),
    ensures
        text::trimmed(s) == s,
        !s.contains(':'),
{
    assert(decimal::is_digit(s[0]));
    assert(decimal::is_digit(s[s.len() - 1]));
    assert forall|i: int| 0 <= i < s.len() implies s[i] != ':' by {
        assert(decimal::is_digit(s[i]));
    }
}

/// A clock reading of hours, minutes, seconds and their decimals comes to what it says: an hour
/// counts 3600 seconds and a minute 60, and what is finer than a microsecond is dropped.
pub proof fn law_clock_reading(h: Seq<char>, m: Seq<char>, s: Seq<char>, fine: Seq<char>)
    requires
        h.len() > 0 && m.len() > 0 && s.len() > 0,
        decimal::all_digits(h) && decimal::all_digits(m) && decimal::all_digits(s),
        decimal::all_digits(fine),
        decimal::value(h) * 3600 + decimal::value(m) * 60 + decimal::value(s) < 9_000_000_000_000,
    ensures
        ({
            let t = clock_micros(h + seq![':'] + m + seq![':'] + s + seq!['.'] + fine);
            let whole = (decimal::value(h) * 3600 + decimal::value(m) * 60 + decimal::value(s))
                * 1_000_000;
            let unit = pow(10, fine.len());
            (t - whole) * unit <= decimal::value(fine) * 1_000_000 < (t - whole + 1) * unit
        }),
{
    let seconds = s.push('.') + fine;
    let parts = seq![h, m, seconds];
    lemma_digits_are_bare(h);
    lemma_digits_are_bare(m);
    lemma_digits_are_bare(s);
    assert(seconds[0] == s[0] && decimal::is_digit(s[0]));
    assert(!text::is_white_space(seconds.last())) by {
        if fine.len() > 0 {
            assert(seconds.last() == fine.last());
            assert(decimal::is_digit(fine[fine.len() - 1]));
        } else {
            assert(seconds.last() == '.');
        }
    }
    assert(text::trimmed(seconds) == seconds);
    assert forall|i: int| 0 <= i < seconds.len() implies seconds[i] != ':' by {
        if i < s.len() {
            assert(seconds[i] == s[i] && decimal::is_digit(s[i]));
        } else if i > s.len() {
            assert(seconds[i] == fine[i - s.len() - 1] && decimal::is_digit(
                fine[i - s.len() - 1],
            ));
        }
    }
    number::lemma_whole_number(h);
    number::lemma_whole_number(m);
    number::law_decimal_fraction(s, fine);
    assert(parts.drop_last() =~= seq![h, m]);
    assert(parts.drop_last().drop_last() =~= seq![h]);
    reveal_with_fuel(text::joined, 3);
    assert(text::joined(parts, ':') =~= h + seq![':'] + m + seq![':'] + s + seq!['.'] + fine);
    text::law_split_undoes_join(parts, ':');
    let unit = pow(10, fine.len());
    lemma_pow_positive(10, fine.len());
    decimal::law_value_is_bounded(fine);
    let n = number::number_micros(seconds);
    let v = decimal::value(s) as int;
    let f = decimal::value(fine) as int;
    assert((n - v * 1_000_000) * unit <= f * 1_000_000 < (n - v * 1_000_000 + 1) * unit)
        by (nonlinear_arith)
        requires
            n * unit <= (v * unit + f) * 1_000_000 < (n + 1) * unit,
    ;
    assert(v * 1_000_000 <= n <= (v + 1) * 1_000_000) by (nonlinear_arith)
        requires
            n * unit <= (v * unit + f) * 1_000_000 < (n + 1) * unit,
            0 <= f < unit,
            0 < unit,
    ;
}

/// A reading that has not two colons comes to nothing.
pub proof fn law_clock_needs_two_colons(s: Seq<char>)
    requires
        s.filter(|c: char| c == ':' || c == ':').len() != 2,
    ensures
        clock_micros(s) == 0,
{
    text::law_split_loses_only_cuts(s, ':', ':');
}

/// A reading of three fields comes to the seconds of each, the hours 3600 times and the minutes
/// 60 times, whatever white space stands round a field. What is too long counts as the longest.
pub proof fn law_clock_fields(h: Seq<char>, m: Seq<char>, s: Seq<char>)
    requires
        !h.contains(':') && !m.contains(':') && !s.contains(':'),
    ensures
        ({
            let exact = number::number_micros(text::trimmed(h)) * 3600 + number::number_micros(
                text::trimmed(m),
            ) * 60 + number::number_micros(text::trimmed(s));
            let t = clock_micros(h.push(':') + (m.push(':') + s));
            &&& i64::MIN <= exact <= i64::MAX ==> t == exact
            &&& exact > i64::MAX ==> t == i64::MAX
            &&& exact < i64::MIN ==> t == i64::MIN
        }),
{
    text::law_split_at_first(h, ':', m.push(':') + s);
    text::law_split_at_first(m, ':', s);
    text::lemma_split_clean(s, ':', ':');
    assert(text::split(h.push(':') + (m.push(':') + s), ':') =~= seq![h, m, s]);
}

/// The whole seconds of a time are no more than the time, and less than a second short of it; the
/// whole seconds of a negative time are those of the time turned over.
pub proof fn law_whole_seconds(micros: int)
    requires
        0 <= micros <= i32::MAX * 1_000_000,
    ensures
        whole_seconds(micros) * 1_000_000 <= micros < (whole_seconds(micros) + 1) * 1_000_000,
        whole_seconds(-micros) == -whole_seconds(micros),
{
}

/// More seconds than can be counted are shown as the most that can.
pub proof fn law_whole_seconds_saturate(micros: int)
    ensures
        micros >= i32::MAX * 1_000_000 ==> whole_seconds(micros) == i32::MAX,
        micros <= i32::MIN * 1_000_000 ==> whole_seconds(micros) == i32::MIN,
{
}

/// Of two times that are not negative the later one is not shown as an earlier one.
pub proof fn law_whole_seconds_in_order(a: int, b: int)
    requires
        a <= b,
    ensures
        whole_seconds(a) <= whole_seconds(b),
{
}

/// A time is shown as its hours, minutes and seconds; of a time before zero each of them is
/// turned over.
pub proof fn law_time_is_shown_as(micros: int, h: int, m: int, s: int)
    requires
        0 <= micros <= i32::MAX * 1_000_000,
        0 <= h && 0 <= m < 60 && 0 <= s < 60,
        (h * 3600 + m * 60 + s) * 1_000_000 <= micros < (h * 3600 + m * 60 + s + 1) * 1_000_000,
    ensures
        hms(micros) == decimal::two_places(h) + seq![':'] + decimal::two_places(m) + seq![':']
            + decimal::two_places(s),
        hms(-micros) == decimal::two_places(-h) + seq![':'] + decimal::two_places(-m) + seq![':']
            + decimal::two_places(-s),
{
    assert(whole_seconds(micros) == h * 3600 + m * 60 + s);
    assert(whole_seconds(-micros) == -(h * 3600 + m * 60 + s));
}

/// A number that is not negative, in two places, is a run of digits that stands for it.
proof fn lemma_two_places(n: int)
    requires
        n >= 0,
    ensures
        decimal::all_digits(decimal::two_places(n)),
        decimal::two_places(n).len() >= 2,
        decimal::value(decimal::two_places(n)) == n,
{
    decimal::law_two_places(n);
}

/// The clock that a time is shown as reads as its whole seconds.
pub proof fn law_shown_time_reads_back(micros: int)
    requires
        micros >= 0,
    ensures
        clock_micros(hms(micros)) == whole_seconds(micros) * SECOND,
{
    let total = whole_seconds(micros);
    let h = quotient(total, 3600);
    let m = quotient(total - h * 3600, 60);
    let s = total - h * 3600 - m * 60;
    let parts = seq![decimal::two_places(h), decimal::two_places(m), decimal::two_places(s)];
    lemma_two_places(h);
    lemma_two_places(m);
    lemma_two_places(s);
    lemma_digits_are_bare(parts[0]);
    lemma_digits_are_bare(parts[1]);
    lemma_digits_are_bare(parts[2]);
    number::lemma_whole_number(parts[0]);
    number::lemma_whole_number(parts[1]);
    number::lemma_whole_number(parts[2]);
    assert(parts.drop_last() =~= seq![parts[0], parts[1]]);
    assert(parts.drop_last().drop_last() =~= seq![parts[0]]);
    reveal_with_fuel(text::joined, 3);
    assert(text::joined(parts, ':') =~= hms(micros));
    text::law_split_undoes_join(parts, ':');
}

/// What is shown of a time that is not negative has minutes and seconds below sixty, and adds up
/// to its whole seconds.
pub proof fn law_clock_parts_in_range(micros: int)
    requires
        micros >= 0,
    ensures
        ({
            let total = whole_seconds(micros);
            let h = quotient(total, 3600);
            let m = quotient(total - h * 3600, 60);
            let s = total - h * 3600 - m * 60;
            &&& 0 <= h
            &&& 0 <= m < 60
            &&& 0 <= s < 60
            &&& h * 3600 + m * 60 + s == total
            &&& hms(micros) == decimal::two_places(h) + seq![':'] + decimal::two_places(m)
                + seq![':'] + decimal::two_places(s)
        }),
{
}

/// `n / d` rounded to the nearest whole number, a tie to the even one.
pub open spec fn rounded(n: nat, d: nat) -> nat {
    let q = n / d;
    let twice = 2 * (n % d);
    if twice < d || (twice == d && q % 2 == 0) {
        q
    } else {
        q + 1
    }
}

/// A quotient that lies half-way between two whole numbers is rounded to the even one.
pub proof fn law_tie_goes_to_even(k: nat, d: nat)
    requires
        d > 0,
    ensures
        rounded((k * (2 * d) + d) as nat, 2 * d) % 2 == 0,
        rounded((k * (2 * d) + d) as nat, 2 * d) == k || rounded((k * (2 * d) + d) as nat, 2 * d) == k
            + 1,
{
    let n = (k * (2 * d) + d) as int;
    vstd::arithmetic::div_mod::lemma_fundamental_div_mod_converse(
        n,
        2 * (d as int),
        k as int,
        d as int,
    );
}

/// Rounding moves a quotient by no more than a half, and only to a whole number.
pub proof fn lemma_rounded_close(n: nat, d: nat)
    requires
        d > 0,
    ensures
        2 * (rounded(n, d) * d - n) <= d,
        2 * (n - rounded(n, d) * d) <= d,
{
    vstd::arithmetic::div_mod::lemma_fundamental_div_mod(n as int, d as int);
    let q = n / d;
    assert(d * q == q * d) by (nonlinear_arith);
    assert((q + 1) * d == q * d + d) by (nonlinear_arith);
}

/// A time with three decimals, as FFmpeg takes it.
pub open spec fn three_decimals(micros: int) -> Seq<char> {
    let size = if micros < 0 {
        -micros
    } else {
        micros
    };
    let millis = rounded(size as nat, 1000);
    (if micros < 0 {
        seq!['-']
    } else {
        Seq::<char>::empty()
    }) + decimal::decimal(millis / 1000) + seq!['.'] + decimal::three_digits(
        (millis % 1000) as int,
    )
}

/// A time as FFmpeg takes it differs from the time itself by no more than half a millisecond.
pub proof fn law_three_decimals_are_close(micros: int)
    requires
        micros >= 0,
    ensures
        three_decimals(micros) == decimal::decimal(rounded(micros as nat, 1000) / 1000) + seq!['.']
            + decimal::three_digits((rounded(micros as nat, 1000) % 1000) as int),
        -500 <= rounded(micros as nat, 1000) * 1000 - micros <= 500,
{
    lemma_rounded_close(micros as nat, 1000);
    let millis = rounded(micros as nat, 1000);
    assert(three_decimals(micros) =~= decimal::decimal(millis / 1000) + seq!['.']
        + decimal::three_digits((millis % 1000) as int));
}

/// A time before zero is given as what it is after zero, behind a minus sign.
pub proof fn law_argument_before_zero(micros: int)
    requires
        micros > 0,
    ensures
        three_decimals(-micros) == seq!['-'] + three_decimals(micros),
{
    assert(three_decimals(-micros) =~= seq!['-'] + three_decimals(micros));
}

/// What FFmpeg reads out of a time as it is given is within half a millisecond of the time, and
/// has three decimals.
pub proof fn law_argument_reads_back(micros: int)
    requires
        0 <= micros <= 9_000_000_000_000_000_000,
    ensures
        -500 <= number::number_micros(three_decimals(micros)) - micros <= 500,
        number::number_micros(three_decimals(micros)) % 1000 == 0,
        three_decimals(micros).len() >= 5,
        three_decimals(micros)[three_decimals(micros).len() - 4] == '.',
{
    lemma_rounded_close(micros as nat, 1000);
    let millis = rounded(micros as nat, 1000);
    let whole = decimal::decimal(millis / 1000);
    let fine = decimal::three_digits((millis % 1000) as int);
    decimal::lemma_decimal_roundtrip(millis / 1000);
    decimal::law_three_digits((millis % 1000) as int);
    assert(three_decimals(micros) =~= whole.push('.') + fine);
    number::law_decimal_fraction(whole, fine);
    lemma_pow1(10);
    lemma_pow_adds(10, 1, 1);
    lemma_pow_adds(10, 2, 1);
    let n = number::number_micros(whole.push('.') + fine);
    let unit = pow(10, fine.len());
    assert(unit == 1000);
    assert(n * unit == n * 1000 && (n + 1) * unit == (n + 1) * 1000);
    assert(decimal::value(whole) * unit == decimal::value(whole) * 1000);
}

/// `t` with three decimals.
pub fn seconds_arg(t: Seconds) -> (s: String)
    ensures
        s@ == three_decimals(t.micros as int),
{
    let mut out = String::new();
    let size: u64 = if t.micros < 0 {
        out.push('-');
        (-(t.micros as i128)) as u64
    } else {
        t.micros as u64
    };
    let q: u64 = size / 1000;
    let twice: u64 = 2 * (size % 1000);
    let millis: u64 = if twice < 1000 || (twice == 1000 && q % 2 == 0) {
        q
    } else {
        q + 1
    };
    decimal::push_decimal(&mut out, millis / 1000);
    out.push('.');
    decimal::push_three_digits(&mut out, millis % 1000);
    assert(out@ =~= three_decimals(t.micros as int));
    out
}

} // verus!

//! Reading a decimal number as a count of millionths.
//!
//! The notation is the usual one for floating point: an optional sign, digits with an optional
//! point among them, an optional exponent; or the words `inf`, `infinity` and `nan`.

use vstd::prelude::*;

use vstd::arithmetic::power::*;

use crate::decimal;
use crate::text;

verus! {

/// Ten to the `k`-th.
pub open spec fn pow10(k: nat) -> nat
    decreases k,
{
    if k == 0 {
        1
    } else {
        10 * pow10((k - 1) as nat)
    }
}

/// How many digits `s` begins with.
pub open spec fn digit_run(s: Seq<char>) -> nat
    decreases s.len(),
{
    if s.len() > 0 && decimal::is_digit(s[0]) {
        1 + digit_run(s.drop_first())
    } else {
        0
    }
}

/// Whether `s` begins with a minus sign, and what follows its sign, if it has one.
pub open spec fn unsigned(s: Seq<char>) -> (bool, Seq<char>) {
    if s.len() > 0 && (s[0] == '-' || s[0] == '+') {
        (s[0] == '-', s.skip(1))
    } else {
        (false, s)
    }
}

/// The power of ten that the end of a number gives: none given is zero.
pub open spec fn exponent(s: Seq<char>) -> Option<int> {
    if s.len() == 0 {
        Some(0)
    } else if s[0] == 'e' || s[0] == 'E' {
        let (negative, digits) = unsigned(s.skip(1));
        if digits.len() > 0 && decimal::all_digits(digits) {
            Some(
                if negative {
                    -(decimal::value(digits) as int)
                } else {
                    decimal::value(digits) as int
                },
            )
        } else {
            None
        }
    } else {
        None
    }
}

/// The whole part of `0.digits` times ten to the `n`-th.
pub open spec fn shifted(digits: Seq<char>, n: int) -> nat {
    if n <= 0 {
        0
    } else if n <= digits.len() {
        decimal::value(digits.take(n))
    } else {
        decimal::value(digits) * pow10((n - digits.len()) as nat)
    }
}

/// A number without sign in millionths; what is finer than a millionth is dropped.
pub open spec fn magnitude(s: Seq<char>) -> Option<nat> {
    let whole = digit_run(s);
    let rest = s.skip(whole as int);
    let pointed = rest.len() > 0 && rest[0] == '.';
    let after = if pointed {
        rest.skip(1)
    } else {
        rest
    };
    let fine = if pointed {
        digit_run(after)
    } else {
        0
    };
    let digits = s.take(whole as int) + after.take(fine as int);
    if digits.len() == 0 {
        None
    } else {
        match exponent(after.skip(fine as int)) {
            Some(e) => Some(shifted(digits, whole + e + 6)),
            None => None,
        }
    }
}

/// Whether `s` is `word`, in capitals or small letters.
pub open spec fn is_word(s: Seq<char>, word: Seq<char>) -> bool {
    s.map_values(|c: char| text::ascii_small(c)) == word
}

pub open spec fn at_most(n: nat, limit: int) -> int {
    if n <= limit {
        n as int
    } else {
        limit
    }
}

/// The number that `s` writes, in millionths and held to the range of `i64`. What is no number
/// counts zero, as does `nan`.
pub open spec fn number_micros(s: Seq<char>) -> int {
    let (negative, body) = unsigned(s);
    let size = if is_word(body, "inf"@) || is_word(body, "infinity"@) {
        i64::MAX as int
    } else {
        match magnitude(body) {
            Some(m) => at_most(m, i64::MAX as int),
            None => 0,
        }
    };
    if negative {
        -size
    } else {
        size
    }
}

proof fn lemma_digit_run(s: Seq<char>)
    ensures
        digit_run(s) <= s.len(),
        decimal::all_digits(s.take(digit_run(s) as int)),
        digit_run(s) < s.len() ==> !decimal::is_digit(s[digit_run(s) as int]),
    decreases s.len(),
{
    if s.len() > 0 && decimal::is_digit(s[0]) {
        let t = s.drop_first();
        lemma_digit_run(t);
        let run = s.take(digit_run(s) as int);
        assert forall|i: int| 0 <= i < run.len() implies decimal::is_digit(#[trigger] run[i]) by {
            if i > 0 {
                assert(run[i] == t.take(digit_run(t) as int)[i - 1]);
            }
        }
    }
}

proof fn lemma_digit_run_whole(s: Seq<char>)
    ensures
        digit_run(s) == s.len() <==> decimal::all_digits(s),
{
    lemma_digit_run(s);
    if digit_run(s) == s.len() {
        assert(s.take(s.len() as int) == s);
    }
}

/// A run of digits writes the whole number that it stands for.
pub proof fn lemma_whole_number(s: Seq<char>)
    requires
        s.len() > 0,
        decimal::all_digits(s),
    ensures
        number_micros(s) == at_most(decimal::value(s) * 1_000_000, i64::MAX as int),
{
    lemma_digit_run_whole(s);
    assert(decimal::is_digit(s[0]));
    assert(unsigned(s) == (false, s));
    reveal_strlit("inf");
    reveal_strlit("infinity");
    let small = s.map_values(|c: char| text::ascii_small(c));
    assert(small[0] == s[0]);
    assert("inf"@[0] == 'i' && "infinity"@[0] == 'i');
    let n = s.len() as int;
    let rest = s.skip(n);
    assert(rest.len() == 0);
    let digits = s.take(n) + rest.take(0);
    assert(digits =~= s);
    assert(rest.skip(0).len() == 0);
    reveal_with_fuel(pow10, 7);
    assert(pow10(6) == 1_000_000);
    assert(shifted(s, n + 6) == decimal::value(s) * 1_000_000);
}

proof fn lemma_pow10_is_pow(k: nat)
    ensures
        pow10(k) == pow(10, k),
    decreases k,
{
    lemma_pow0(10);
    if k > 0 {
        lemma_pow10_is_pow((k - 1) as nat);
        lemma_pow_adds(10, 1, (k - 1) as nat);
        lemma_pow1(10);
    }
}

/// The digits that a text begins with are all that come before one that is no digit.
proof fn lemma_digit_run_is(s: Seq<char>, k: int)
    requires
        0 <= k <= s.len(),
        decimal::all_digits(s.take(k)),
        k < s.len() ==> !decimal::is_digit(s[k]),
    ensures
        digit_run(s) == k,
{
    lemma_digit_run(s);
    let n = digit_run(s) as int;
    if n < k {
        assert(decimal::is_digit(s.take(k)[n]));
    } else if k < n {
        assert(decimal::is_digit(s.take(n)[k]));
    }
}

/// What digits with a point among them write.
proof fn lemma_pointed(whole: Seq<char>, fine: Seq<char>)
    requires
        whole.len() + fine.len() > 0,
        decimal::all_digits(whole),
        decimal::all_digits(fine),
    ensures
        number_micros(whole.push('.') + fine) == at_most(
            shifted(whole + fine, whole.len() as int + 6),
            i64::MAX as int,
        ),
{
    let s = whole.push('.') + fine;
    let k = whole.len() as int;
    if k > 0 {
        assert(decimal::is_digit(whole[0]));
        assert(s[0] == whole[0]);
    } else {
        assert(s[0] == '.');
    }
    assert(unsigned(s) == (false, s));
    assert(!is_word(s, "inf"@) && !is_word(s, "infinity"@)) by {
        reveal_strlit("inf");
        reveal_strlit("infinity");
        let small = s.map_values(|c: char| text::ascii_small(c));
        assert(small[0] == s[0]);
        assert("inf"@[0] == 'i' && "infinity"@[0] == 'i');
    }
    assert(s.take(k) =~= whole);
    assert(s[k] == '.');
    lemma_digit_run_is(s, k);
    let rest = s.skip(k);
    assert(rest[0] == '.');
    let after = rest.skip(1);
    assert(after =~= fine);
    lemma_digit_run_whole(fine);
    assert(s.take(k) + after.take(fine.len() as int) =~= whole + fine);
    assert(after.skip(fine.len() as int).len() == 0);
}

/// Digits with a point among them write the fraction that they stand for, and what is finer than
/// a millionth is dropped: with `f` digits behind the point, the millionths are the whole part
/// of the digits' value times a million, divided by ten to the `f`-th.
pub proof fn law_decimal_fraction(whole: Seq<char>, fine: Seq<char>)
    requires
        whole.len() > 0,
        decimal::all_digits(whole),
        decimal::all_digits(fine),
        (decimal::value(whole) + 1) * 1_000_000 <= i64::MAX,
    ensures
        ({
            let n = number_micros(whole.push('.') + fine);
            let unit = pow(10, fine.len());
            let digits = decimal::value(whole) * unit + decimal::value(fine);
            n * unit <= digits * 1_000_000 < (n + 1) * unit
        }),
{
    let k = whole.len() as int;
    lemma_pointed(whole, fine);
    let n = shifted(whole + fine, k + 6) as int;
    decimal::law_value_of_two_runs(whole, fine);
    decimal::law_value_is_bounded(fine);
    let unit = pow(10, fine.len());
    let v = decimal::value(whole) as int;
    let all = decimal::value(whole + fine) as int;
    lemma_pow_positive(10, fine.len());
    assert(pow(10, 6) == 1_000_000) by {
        lemma_pow10_is_pow(6);
        reveal_with_fuel(pow10, 7);
    }
    if fine.len() >= 6 {
        let first = fine.take(6);
        let last = fine.skip(6);
        assert(forall|i: int| 0 <= i < 6 ==> #[trigger] first[i] == fine[i]);
        assert(forall|i: int| 0 <= i < last.len() ==> #[trigger] last[i] == fine[i + 6]);
        assert(decimal::all_digits(first) && decimal::all_digits(last));
        let head = whole + first;
        assert((whole + fine).take(k + 6) =~= head);
        assert(head + last =~= whole + fine);
        assert forall|i: int| 0 <= i < head.len() implies decimal::is_digit(#[trigger] head[i]) by {
            if i < k {
                assert(head[i] == whole[i]);
            } else {
                assert(head[i] == first[i - k]);
            }
        }
        decimal::law_value_of_two_runs(head, last);
        decimal::law_value_is_bounded(last);
        let less = pow(10, last.len());
        lemma_pow_adds(10, 6, last.len());
        let tail = decimal::value(last) as int;
        assert(n * (1_000_000 * less) <= (n * less + tail) * 1_000_000 < (n + 1) * (1_000_000
            * less)) by (nonlinear_arith)
            requires
                0 <= tail < less,
        ;
    } else {
        let more = (6 - fine.len()) as nat;
        lemma_pow10_is_pow(more);
        lemma_pow_adds(10, fine.len(), more);
        let p = pow(10, more);
        assert((all * p) * unit == all * (unit * p)) by (nonlinear_arith);
        assert((n + 1) * unit == n * unit + unit) by (nonlinear_arith);
    }
    assert((v + 1) * unit == v * unit + unit) by (nonlinear_arith);
    assert(n < (v + 1) * 1_000_000) by (nonlinear_arith)
        requires
            n * unit <= all * 1_000_000,
            all < (v + 1) * unit,
            unit > 0,
    ;
}

/// A power of ten behind a number multiplies it. What is too large counts as the largest number.
pub proof fn law_exponent_multiplies(whole: Seq<char>, power: Seq<char>)
    requires
        whole.len() > 0 && power.len() > 0,
        decimal::all_digits(whole),
        decimal::all_digits(power),
    ensures
        ({
            let exact = decimal::value(whole) * pow(10, decimal::value(power)) * 1_000_000;
            let n = number_micros(whole.push('e') + power);
            &&& exact <= i64::MAX ==> n == exact
            &&& exact > i64::MAX ==> n == i64::MAX
            &&& number_micros(whole.push('E') + power) == n
            &&& number_micros(whole.push('e') + (seq!['+'] + power)) == n
        }),
{
    let e = decimal::value(power);
    assert(decimal::is_digit(power[0]));
    assert(unsigned(power) == (false, power));
    assert((seq!['+'] + power).skip(1) =~= power);
    lemma_with_exponent(whole, 'e', power, e as int);
    lemma_with_exponent(whole, 'E', power, e as int);
    lemma_with_exponent(whole, 'e', seq!['+'] + power, e as int);
    lemma_pow10_is_pow(e + 6);
    lemma_pow_adds(10, e, 6);
    assert(pow(10, 6) == 1_000_000) by {
        lemma_pow10_is_pow(6);
        reveal_with_fuel(pow10, 7);
    }
    let v = decimal::value(whole) as int;
    let p = pow(10, e);
    assert(v * (p * 1_000_000) == v * p * 1_000_000) by (nonlinear_arith);
}

/// A negative power of ten behind a number divides it, and what is finer than a millionth is
/// dropped.
pub proof fn law_exponent_divides(whole: Seq<char>, power: Seq<char>)
    requires
        whole.len() > 0 && power.len() > 0,
        decimal::all_digits(whole),
        decimal::all_digits(power),
        decimal::value(whole) * 1_000_000 <= i64::MAX,
    ensures
        ({
            let unit = pow(10, decimal::value(power));
            let n = number_micros(whole.push('e') + (seq!['-'] + power));
            n * unit <= decimal::value(whole) * 1_000_000 < (n + 1) * unit
        }),
{
    let e = decimal::value(power);
    let k = whole.len();
    assert((seq!['-'] + power).skip(1) =~= power);
    lemma_with_exponent(whole, 'e', seq!['-'] + power, -(e as int));
    let n = shifted(whole, k - e + 6) as int;
    let v = decimal::value(whole) as int;
    let unit = pow(10, e);
    lemma_pow_positive(10, e);
    assert(pow(10, 6) == 1_000_000) by {
        lemma_pow10_is_pow(6);
        reveal_with_fuel(pow10, 7);
    }
    if e <= 6 {
        let more = (6 - e) as nat;
        lemma_pow10_is_pow(more);
        lemma_pow_adds(10, e, more);
        let p = pow(10, more);
        assert(n == v * p) by {
            if e == 6 {
                assert(whole.take(k as int) =~= whole);
                lemma_pow0(10);
                assert(v * 1 == v);
            } else {
                assert(k - e + 6 > k);
                assert(((k - e + 6) - k) as nat == more);
            }
        }
        assert((v * p) * unit == v * (unit * p)) by (nonlinear_arith);
        assert((n + 1) * unit == n * unit + unit) by (nonlinear_arith);
        assert(n <= v * 1_000_000) by (nonlinear_arith)
            requires
                n * unit == v * 1_000_000,
                unit >= 1,
                n >= 0,
        ;
    } else {
        let less = (e - 6) as nat;
        lemma_pow_adds(10, less, 6);
        let u = pow(10, less);
        lemma_pow_positive(10, less);
        assert(n * u <= v < (n + 1) * u) by {
            if less < k {
                let head = whole.take(k - less);
                let tail = whole.skip(k - less);
                assert(head + tail =~= whole);
                assert(forall|i: int| 0 <= i < head.len() ==> #[trigger] head[i] == whole[i]);
                assert(forall|i: int|
                    0 <= i < tail.len() ==> #[trigger] tail[i] == whole[i + k - less]);
                assert(decimal::all_digits(head) && decimal::all_digits(tail));
                decimal::law_value_of_two_runs(head, tail);
                decimal::law_value_is_bounded(tail);
                assert((n + 1) * u == n * u + u) by (nonlinear_arith);
            } else {
                decimal::law_value_is_bounded(whole);
                lemma_pow_increases(10, k, less);
                assert(n == 0);
                assert(0 * u == 0 && 1 * u == u);
            }
        }
        assert(n * (u * 1_000_000) <= v * 1_000_000 < (n + 1) * (u * 1_000_000))
            by (nonlinear_arith)
            requires
                n * u <= v < (n + 1) * u,
        ;
        assert(n <= v) by (nonlinear_arith)
            requires
                n * u <= v,
                u >= 1,
                n >= 0,
        ;
    }
}

/// What a run of digits with a power of ten behind it writes.
proof fn lemma_with_exponent(whole: Seq<char>, mark: char, power: Seq<char>, e: int)
    requires
        whole.len() > 0,
        decimal::all_digits(whole),
        mark == 'e' || mark == 'E',
        unsigned(power).1.len() > 0,
        decimal::all_digits(unsigned(power).1),
        e == (if unsigned(power).0 {
            -(decimal::value(unsigned(power).1) as int)
        } else {
            decimal::value(unsigned(power).1) as int
        }),
    ensures
        number_micros(whole.push(mark) + power) == at_most(
            shifted(whole, whole.len() + e + 6),
            i64::MAX as int,
        ),
{
    let s = whole.push(mark) + power;
    let k = whole.len() as int;
    assert(decimal::is_digit(whole[0]));
    assert(s[0] == whole[0]);
    assert(unsigned(s) == (false, s));
    reveal_strlit("inf");
    reveal_strlit("infinity");
    let small = s.map_values(|c: char| text::ascii_small(c));
    assert(small[0] == s[0]);
    assert("inf"@[0] == 'i' && "infinity"@[0] == 'i');
    assert(s.take(k) =~= whole);
    assert(s[k] == mark);
    lemma_digit_run_is(s, k);
    let rest = s.skip(k);
    assert(rest[0] == mark);
    assert(s.take(k) + rest.take(0) =~= whole);
    assert(rest.skip(0) =~= rest);
    assert(rest.skip(1) =~= power);
    assert(exponent(rest) == Some(e));
}

/// A point may stand before the first digit.
pub proof fn law_point_before_digits(fine: Seq<char>)
    requires
        fine.len() > 0,
        decimal::all_digits(fine),
    ensures
        ({
            let n = number_micros(seq!['.'] + fine);
            let unit = pow(10, fine.len());
            n * unit <= decimal::value(fine) * 1_000_000 < (n + 1) * unit
        }),
{
    let zero = seq!['0'];
    let none = Seq::<char>::empty();
    decimal::law_value_of_a_digit('0');
    law_decimal_fraction(zero, fine);
    lemma_pointed(zero, fine);
    lemma_pointed(none, fine);
    assert(none.push('.') + fine =~= seq!['.'] + fine);
    assert(none + fine =~= fine);
    decimal::law_value_of_two_runs(zero, fine);
    assert(0 * pow(10, fine.len()) == 0);
    if fine.len() >= 6 {
        let head = fine.take(6);
        assert((zero + fine).take(7) =~= zero + head);
        assert(forall|i: int| 0 <= i < 6 ==> #[trigger] head[i] == fine[i]);
        assert(decimal::all_digits(head));
        decimal::law_value_of_two_runs(zero, head);
        assert(0 * pow(10, head.len()) == 0);
    }
    assert(shifted(zero + fine, 7) == shifted(fine, 6));
}

/// `inf` and `infinity`, in whatever letters, are larger than everything.
pub proof fn law_infinity(s: Seq<char>)
    requires
        s.map_values(|c: char| text::ascii_small(c)) == seq!['i', 'n', 'f'] || s.map_values(
            |c: char| text::ascii_small(c),
        ) == seq!['i', 'n', 'f', 'i', 'n', 'i', 't', 'y'],
    ensures
        number_micros(s) == i64::MAX,
{
    let small = s.map_values(|c: char| text::ascii_small(c));
    assert(small.len() == s.len());
    assert(small[0] == text::ascii_small(s[0]));
    assert(small[0] == 'i');
    assert(unsigned(s) == (false, s));
    reveal_strlit("inf");
    reveal_strlit("infinity");
    assert("inf"@ =~= seq!['i', 'n', 'f']);
    assert("infinity"@ =~= seq!['i', 'n', 'f', 'i', 'n', 'i', 't', 'y']);
}

/// A sign before a number that has none turns it over, or leaves it.
pub proof fn law_sign_of_number(s: Seq<char>)
    requires
        s.len() > 0,
        s[0] != '-' && s[0] != '+',
    ensures
        number_micros(seq!['-'] + s) == -number_micros(s),
        number_micros(seq!['+'] + s) == number_micros(s),
{
    assert((seq!['-'] + s).skip(1) =~= s);
    assert((seq!['+'] + s).skip(1) =~= s);
}

/// What holds a character that occurs in no number is none, and counts zero.
pub proof fn law_no_number(s: Seq<char>, i: int)
    requires
        0 <= i < s.len(),
        !decimal::is_digit(s[i]),
        s[i] != '.' && s[i] != '-' && s[i] != '+',
        !('a' <= s[i] <= 'z'),
        !('A' <= s[i] <= 'Z'),
    ensures
        number_micros(s) == 0,
{
    let (negative, body) = unsigned(s);
    let at = if s[0] == '-' || s[0] == '+' {
        i - 1
    } else {
        i
    };
    assert(0 <= at < body.len());
    assert(body[at] == s[i]);
    reveal_strlit("inf");
    reveal_strlit("infinity");
    let small = body.map_values(|c: char| text::ascii_small(c));
    assert(small.len() == body.len());
    assert(small[at] == s[i]);
    assert("inf"@.len() == 3 && "infinity"@.len() == 8);
    assert(forall|j: int| 0 <= j < 3 ==> 'a' <= #[trigger] "inf"@[j] <= 'z');
    assert(forall|j: int| 0 <= j < 8 ==> 'a' <= #[trigger] "infinity"@[j] <= 'z');
    assert(small != "inf"@ && small != "infinity"@) by {
        if small == "inf"@ {
            assert('a' <= "inf"@[at] <= 'z');
        }
        if small == "infinity"@ {
            assert('a' <= "infinity"@[at] <= 'z');
        }
    }
    if let Some(m) = magnitude(body) {
        lemma_magnitude_characters(body, at);
    }
}

proof fn lemma_magnitude_characters(s: Seq<char>, i: int)
    requires
        magnitude(s) is Some,
        0 <= i < s.len(),
    ensures
        decimal::is_digit(s[i]) || s[i] == '.' || s[i] == 'e' || s[i] == 'E' || s[i] == '-' || s[i]
            == '+',
{
    lemma_digit_run(s);
    let whole = digit_run(s) as int;
    let rest = s.skip(whole);
    let pointed = rest.len() > 0 && rest[0] == '.';
    let after = if pointed {
        rest.skip(1)
    } else {
        rest
    };
    lemma_digit_run(after);
    let fine = if pointed {
        digit_run(after) as int
    } else {
        0
    };
    let end = after.skip(fine);
    let start = s.len() - end.len();
    if i < whole {
        assert(s.take(whole)[i] == s[i]);
    } else if i < start {
        if i > whole {
            assert(after.take(fine)[i - whole - 1] == s[i]);
        } else {
            assert(rest[0] == s[i]);
        }
    } else {
        let j = i - start;
        assert(end[j] == s[i]);
        if j > 0 {
            let tail = end.skip(1);
            assert(tail[j - 1] == s[i]);
            let (negative, digits) = unsigned(tail);
            if digits.len() < tail.len() {
                if j > 1 {
                    assert(digits[j - 2] == s[i]);
                }
            }
        }
    }
}

/// Where the run of digits that begins at `from` ends.
fn digit_run_end(chars: &Vec<char>, from: usize) -> (to: usize)
    requires
        from <= chars@.len(),
    ensures
        from <= to <= chars@.len(),
        to == from + digit_run(chars@.skip(from as int)),
{
    let mut to: usize = from;
    while to < chars.len() && decimal::digit_of(chars[to]).is_some()
        invariant
            from <= to <= chars@.len(),
            digit_run(chars@.skip(from as int)) == to - from + digit_run(chars@.skip(to as int)),
        decreases chars@.len() - to,
    {
        assert(chars@.skip(to as int).drop_first() == chars@.skip(to + 1));
        to += 1;
    }
    to
}

proof fn lemma_capped_step(n: nat, d: int, limit: int)
    requires
        0 <= d < 10,
        limit > 0,
    ensures
        at_most((n * 10 + d) as nat, limit) == at_most(
            (at_most(n, limit) * 10 + d) as nat,
            limit,
        ),
{
}

/// The value of `chars[from..to]`, held to `limit`.
fn capped_value(chars: &Vec<char>, from: usize, to: usize, limit: i128) -> (v: i128)
    requires
        from <= to <= chars@.len(),
        decimal::all_digits(chars@.subrange(from as int, to as int)),
        0 < limit <= 0x1_0000_0000_0000_0000_0000_0000_0000,
    ensures
        v == at_most(decimal::value(chars@.subrange(from as int, to as int)), limit as int),
{
    let mut v: i128 = 0;
    let mut i: usize = from;
    assert(chars@.subrange(from as int, from as int) == Seq::<char>::empty());
    while i < to
        invariant
            from <= i <= to <= chars@.len(),
            decimal::all_digits(chars@.subrange(from as int, to as int)),
            0 < limit <= 0x1_0000_0000_0000_0000_0000_0000_0000,
            v == at_most(decimal::value(chars@.subrange(from as int, i as int)), limit as int),
        decreases to - i,
    {
        let ghost grown = chars@.subrange(from as int, i + 1);
        assert(grown.drop_last() == chars@.subrange(from as int, i as int));
        assert(grown.last() == chars@.subrange(from as int, to as int)[i - from]);
        let d: u8 = match decimal::digit_of(chars[i]) {
            Some(d) => d,
            None => 0,
        };
        proof {
            lemma_capped_step(decimal::value(grown.drop_last()), d as int, limit as int);
        }
        v = v * 10 + d as i128;
        if v > limit {
            v = limit;
        }
        i += 1;
    }
    v
}

proof fn lemma_pow10_grows(k: nat)
    ensures
        pow10(k) >= 1,
        k >= 19 ==> pow10(k) > i64::MAX,
    decreases k,
{
    if k > 0 {
        lemma_pow10_grows((k - 1) as nat);
    }
    if k == 19 {
        reveal_with_fuel(pow10, 20);
    }
}

proof fn lemma_product_grows(v: nat, p: nat)
    requires
        v >= 1,
    ensures
        v * p >= p,
{
    assert(v * p >= p) by (nonlinear_arith)
        requires
            v >= 1,
    ;
}

/// `shifted`, held to the largest `i64`.
fn capped_shifted(digits: &Vec<char>, n: i128) -> (v: i64)
    requires
        decimal::all_digits(digits@),
    ensures
        v == at_most(shifted(digits@, n as int), i64::MAX as int),
{
    let limit: i128 = i64::MAX as i128;
    if n <= 0 {
        return 0;
    }
    if n <= digits.len() as i128 {
        assert(digits@.subrange(0, n as int) == digits@.take(n as int));
        return capped_value(digits, 0, n as usize, limit) as i64;
    }
    assert(digits@.subrange(0, digits@.len() as int) == digits@);
    let mut v: i128 = capped_value(digits, 0, digits.len(), limit);
    let ghost all = decimal::value(digits@);
    let missing: i128 = n - digits.len() as i128;
    if v == 0 {
        assert(all == 0);
        assert(0 * pow10(missing as nat) == 0);
        return 0;
    }
    let mut k: i128 = 0;
    assert(pow10(0) == 1);
    assert(all * 1 == all);
    while k < missing && v < limit
        invariant
            0 <= k <= missing,
            limit == i64::MAX,
            1 <= v <= limit,
            v == at_most(all * pow10(k as nat), limit as int),
        decreases missing - k,
    {
        proof {
            let p = pow10(k as nat);
            assert(pow10((k + 1) as nat) == 10 * p);
            assert(all * (10 * p) == (all * p) * 10) by (nonlinear_arith);
            lemma_capped_step(all * p, 0, limit as int);
        }
        v = v * 10;
        if v > limit {
            v = limit;
        }
        k += 1;
    }
    if k < missing {
        proof {
            lemma_pow10_split(k as nat, (missing - k) as nat);
            lemma_pow10_grows((missing - k) as nat);
            let now = all * pow10(k as nat);
            assert(all * (pow10(k as nat) * pow10((missing - k) as nat)) == now * pow10(
                (missing - k) as nat,
            )) by (nonlinear_arith)
                requires
                    now == all * pow10(k as nat),
            ;
            assert(now * pow10((missing - k) as nat) >= now) by (nonlinear_arith)
                requires
                    pow10((missing - k) as nat) >= 1,
                    now >= 0,
            ;
        }
    }
    v as i64
}

proof fn lemma_pow10_split(a: nat, b: nat)
    ensures
        pow10(a + b) == pow10(a) * pow10(b),
    decreases a,
{
    if a == 0 {
        assert(1 * pow10(b) == pow10(b));
    } else {
        lemma_pow10_split((a - 1) as nat, b);
        let p = pow10((a - 1) as nat);
        assert(pow10((a + b) as nat) == 10 * pow10((a - 1 + b) as nat));
        assert(10 * (p * pow10(b)) == (10 * p) * pow10(b)) by (nonlinear_arith);
    }
}

/// Whether `chars[from..]` is `word`, in capitals or small letters.
fn spells(chars: &Vec<char>, from: usize, word: &str) -> (b: bool)
    requires
        from <= chars@.len(),
    ensures
        b == is_word(chars@.skip(from as int), word@),
{
    let letters = text::chars_of(word);
    let ghost rest = chars@.skip(from as int);
    let ghost small = rest.map_values(|c: char| text::ascii_small(c));
    let total: usize = chars.len();
    if letters.len() != total - from {
        return false;
    }
    let mut i: usize = 0;
    while i < letters.len()
        invariant
            from <= total == chars@.len(),
            i <= letters@.len(),
            letters@ == word@,
            letters@.len() == chars@.len() - from,
            rest == chars@.skip(from as int),
            small == rest.map_values(|c: char| text::ascii_small(c)),
            forall|j: int| 0 <= j < i ==> small[j] == #[trigger] letters@[j],
        decreases letters@.len() - i,
    {
        let c = chars[from + i];
        assert(rest[i as int] == c);
        let s: char = if 'A' <= c && c <= 'Z' {
            let code: u32 = c as u32;
            (code as u8 + 32) as char
        } else {
            c
        };
        assert(s == text::ascii_small(c));
        if s != letters[i] {
            assert(small[i as int] != word@[i as int]);
            return false;
        }
        i += 1;
    }
    assert(small =~= word@);
    true
}

/// The largest exponent told apart: beyond it every number is out of range or zero.
const EXPONENT_LIMIT: i128 = 0x1_0000_0000_0000_0000_0000_0000;

/// The exponent of `chars[from..]`, held to `EXPONENT_LIMIT` either way.
fn capped_exponent(chars: &Vec<char>, from: usize) -> (e: Option<i128>)
    requires
        from <= chars@.len(),
    ensures
        match (e, exponent(chars@.skip(from as int))) {
            (Some(c), Some(x)) => c == if x < 0 {
                -at_most((-x) as nat, EXPONENT_LIMIT as int)
            } else {
                at_most(x as nat, EXPONENT_LIMIT as int)
            },
            (None, None) => true,
            _ => false,
        },
{
    let ghost s = chars@.skip(from as int);
    if from == chars.len() {
        return Some(0);
    }
    assert(s[0] == chars@[from as int]);
    if chars[from] != 'e' && chars[from] != 'E' {
        return None;
    }
    let mut at: usize = from + 1;
    let ghost tail = s.skip(1);
    assert(tail == chars@.skip(at as int));
    let mut negative = false;
    if at < chars.len() && (chars[at] == '-' || chars[at] == '+') {
        assert(tail[0] == chars@[at as int]);
        negative = chars[at] == '-';
        assert(tail.skip(1) == chars@.skip(at + 1));
        at += 1;
    } else {
        assert(tail.len() > 0 ==> tail[0] == chars@[at as int]);
    }
    let ghost digits = chars@.skip(at as int);
    assert(unsigned(tail) == (negative, digits));
    let end = digit_run_end(chars, at);
    proof {
        lemma_digit_run_whole(digits);
        assert(chars@.subrange(at as int, chars@.len() as int) == digits);
    }
    if at == chars.len() || end != chars.len() {
        return None;
    }
    let size = capped_value(chars, at, end, EXPONENT_LIMIT);
    if negative {
        Some(-size)
    } else {
        Some(size)
    }
}

/// Holding the exponent to its limit does not change what the number comes to.
proof fn lemma_exponent_limit(digits: Seq<char>, whole: nat, x: int)
    requires
        decimal::all_digits(digits),
        whole <= digits.len() <= usize::MAX * 2,
        x > EXPONENT_LIMIT || x < -EXPONENT_LIMIT,
    ensures
        ({
            let c = if x < 0 {
                -EXPONENT_LIMIT as int
            } else {
                EXPONENT_LIMIT as int
            };
            at_most(shifted(digits, whole + x + 6), i64::MAX as int) == at_most(
                shifted(digits, whole + c + 6),
                i64::MAX as int,
            )
        }),
{
    if x > 0 {
        let v = decimal::value(digits);
        let far = (whole + x + 6 - digits.len()) as nat;
        let near = (whole + EXPONENT_LIMIT + 6 - digits.len()) as nat;
        if v == 0 {
            assert(0 * pow10(far) == 0);
            assert(0 * pow10(near) == 0);
        } else {
            lemma_pow10_grows(far);
            lemma_pow10_grows(near);
            lemma_product_grows(v, pow10(far));
            lemma_product_grows(v, pow10(near));
        }
    }
}

/// The digits of `chars[a..b]` and of `chars[c..d]`.
fn two_runs(chars: &Vec<char>, a: usize, b: usize, c: usize, d: usize) -> (digits: Vec<char>)
    requires
        a <= b <= c <= d <= chars@.len(),
        decimal::all_digits(chars@.subrange(a as int, b as int)),
        decimal::all_digits(chars@.subrange(c as int, d as int)),
    ensures
        digits@ == chars@.subrange(a as int, b as int) + chars@.subrange(c as int, d as int),
        decimal::all_digits(digits@),
{
    let mut digits: Vec<char> = Vec::new();
    let mut i: usize = a;
    while i < b
        invariant
            a <= i <= b <= chars@.len(),
            digits@ == chars@.subrange(a as int, i as int),
        decreases b - i,
    {
        digits.push(chars[i]);
        i += 1;
    }
    let ghost front = chars@.subrange(a as int, b as int);
    let ghost back = chars@.subrange(c as int, d as int);
    let mut j: usize = c;
    while j < d
        invariant
            c <= j <= d <= chars@.len(),
            digits@ == front + chars@.subrange(c as int, j as int),
        decreases d - j,
    {
        digits.push(chars[j]);
        j += 1;
    }
    assert forall|k: int| 0 <= k < digits@.len() implies decimal::is_digit(
        #[trigger] digits@[k],
    ) by {
        if k < front.len() {
            assert(digits@[k] == front[k]);
        } else {
            assert(digits@[k] == back[k - front.len()]);
        }
    }
    digits
}

/// The size of the number `chars[from..]`, in millionths and held to the largest `i64`.
fn capped_magnitude(chars: &Vec<char>, from: usize) -> (m: Option<i64>)
    requires
        from <= chars@.len(),
    ensures
        match (m, magnitude(chars@.skip(from as int))) {
            (Some(v), Some(x)) => v == at_most(x, i64::MAX as int),
            (None, None) => true,
            _ => false,
        },
{
    let ghost s = chars@.skip(from as int);
    let whole_end = digit_run_end(chars, from);
    let whole: usize = whole_end - from;
    let ghost rest = s.skip(whole as int);
    proof {
        lemma_digit_run(s);
        assert(rest == chars@.skip(whole_end as int));
        assert(rest.len() > 0 ==> rest[0] == chars@[whole_end as int]);
    }
    let pointed = whole_end < chars.len() && chars[whole_end] == '.';
    let fine_start: usize = if pointed {
        whole_end + 1
    } else {
        whole_end
    };
    let ghost after = if pointed {
        rest.skip(1)
    } else {
        rest
    };
    assert(after == chars@.skip(fine_start as int));
    let fine_end: usize = if pointed {
        digit_run_end(chars, fine_start)
    } else {
        fine_start
    };
    let ghost fine = fine_end - fine_start;
    proof {
        lemma_digit_run(after);
    }
    assert(chars@.subrange(from as int, whole_end as int) == s.take(whole as int));
    assert(chars@.subrange(fine_start as int, fine_end as int) == after.take(fine));
    let digits = two_runs(chars, from, whole_end, fine_start, fine_end);
    assert(after.skip(fine) == chars@.skip(fine_end as int));
    if digits.len() == 0 {
        return None;
    }
    match capped_exponent(chars, fine_end) {
        None => None,
        Some(e) => {
            proof {
                let x = exponent(after.skip(fine))->0;
                if x > EXPONENT_LIMIT || x < -EXPONENT_LIMIT {
                    lemma_exponent_limit(digits@, whole as nat, x);
                }
            }
            Some(capped_shifted(&digits, whole as i128 + e + 6))
        },
    }
}

/// The number that `s` writes, in millionths.
pub fn parse_micros(s: &str) -> (micros: i64)
    ensures
        micros == number_micros(s@),
{
    let chars = text::chars_of(s);
    let mut from: usize = 0;
    let mut negative = false;
    assert(chars@.skip(0) == chars@);
    if chars.len() > 0 && (chars[0] == '-' || chars[0] == '+') {
        negative = chars[0] == '-';
        from = 1;
    }
    let size: i64 = if spells(&chars, from, "inf") || spells(&chars, from, "infinity") {
        i64::MAX
    } else {
        match capped_magnitude(&chars, from) {
            Some(m) => m,
            None => 0,
        }
    };
    if negative {
        -size
    } else {
        size
    }
}

} // verus!

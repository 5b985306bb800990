//! Whole numbers written in decimal digits, and read back.

use vstd::prelude::*;

use vstd::arithmetic::power::*;

verus! {

/// The digit for `d`, which is at most nine.
pub open spec fn digit(d: int) -> char {
    (48 + d) as char
}

pub open spec fn is_digit(c: char) -> bool {
    '0' <= c <= '9'
}

/// What the digit `c` counts.
pub open spec fn digit_value(c: char) -> int {
    c as int - 48
}

/// `n` in decimal digits, without leading zeros.
pub open spec fn decimal(n: nat) -> Seq<char>
    decreases n,
{
    if n < 10 {
        seq![digit(n as int)]
    } else {
        decimal(n / 10).push(digit((n % 10) as int))
    }
}

/// `n` in decimal digits, behind a minus sign if it is negative.
pub open spec fn signed_decimal(n: int) -> Seq<char> {
    if n < 0 {
        seq!['-'] + decimal((-n) as nat)
    } else {
        decimal(n as nat)
    }
}

/// `n` filled up with zeros to a width of two; a minus sign counts as one place.
pub open spec fn two_places(n: int) -> Seq<char> {
    if 0 <= n < 10 {
        seq!['0', digit(n)]
    } else {
        signed_decimal(n)
    }
}

/// `n`, which is below a thousand, in exactly three digits.
pub open spec fn three_digits(n: int) -> Seq<char> {
    seq![digit(n / 100), digit(n / 10 % 10), digit(n % 10)]
}

pub open spec fn all_digits(s: Seq<char>) -> bool {
    forall|i: int| 0 <= i < s.len() ==> is_digit(#[trigger] s[i])
}

/// The number that a run of digits stands for; none for an empty run counts zero.
pub open spec fn value(s: Seq<char>) -> nat
    decreases s.len(),
{
    if s.len() == 0 {
        0
    } else {
        (value(s.drop_last()) * 10 + digit_value(s.last())) as nat
    }
}

/// Reading undoes writing.
pub proof fn lemma_decimal_roundtrip(n: nat)
    ensures
        all_digits(decimal(n)),
        decimal(n).len() >= 1,
        value(decimal(n)) == n,
    decreases n,
{
    if n < 10 {
        let s = decimal(n);
        assert(s.drop_last() == Seq::<char>::empty());
        assert(value(s.drop_last()) == 0);
        assert(s.last() == digit(n as int));
    } else {
        lemma_decimal_roundtrip(n / 10);
        let s = decimal(n);
        assert(s.drop_last() == decimal(n / 10));
        assert(s.last() == digit((n % 10) as int));
        assert(forall|i: int| 0 <= i < s.len() - 1 ==> #[trigger] s[i] == decimal(n / 10)[i]);
    }
}

/// A run of digits put behind another shifts it by as many places as it has digits.
pub proof fn law_value_of_two_runs(s: Seq<char>, t: Seq<char>)
    requires
        all_digits(s),
        all_digits(t),
    ensures
        value(s + t) == value(s) * pow(10, t.len()) + value(t),
    decreases t.len(),
{
    lemma_pow0(10);
    if t.len() == 0 {
        assert(s + t =~= s);
        assert(value(s) * 1 == value(s));
    } else {
        let front = t.drop_last();
        assert forall|i: int| 0 <= i < front.len() implies is_digit(#[trigger] front[i]) by {
            assert(front[i] == t[i]);
        }
        law_value_of_two_runs(s, front);
        assert((s + t).drop_last() =~= s + front);
        assert((s + t).last() == t.last());
        assert(is_digit(t[t.len() - 1]));
        lemma_pow_adds(10, front.len(), 1);
        lemma_pow1(10);
        let p = pow(10, front.len());
        assert(value(s) * (p * 10) == (value(s) * p) * 10) by (nonlinear_arith);
    }
}

/// A run of digits stands for less than a one with as many zeros behind it.
pub proof fn law_value_is_bounded(s: Seq<char>)
    requires
        all_digits(s),
    ensures
        value(s) < pow(10, s.len()),
    decreases s.len(),
{
    lemma_pow0(10);
    if s.len() > 0 {
        let front = s.drop_last();
        assert forall|i: int| 0 <= i < front.len() implies is_digit(#[trigger] front[i]) by {
            assert(front[i] == s[i]);
        }
        law_value_is_bounded(front);
        assert(is_digit(s[s.len() - 1]));
        lemma_pow_adds(10, front.len(), 1);
        lemma_pow1(10);
    }
}

/// One digit stands for its distance from the zero.
pub proof fn law_value_of_a_digit(c: char)
    requires
        '0' <= c <= '9',
    ensures
        all_digits(seq![c]),
        value(seq![c]) == c as int - '0' as int,
{
    assert(seq![c].drop_last() =~= Seq::<char>::empty());
    assert(value(Seq::<char>::empty()) == 0);
}

/// A number is written without a zero before it, and so in as few digits as it can be.
pub proof fn law_decimal_is_shortest(n: nat)
    ensures
        decimal(n)[0] == '0' ==> n == 0 && decimal(n).len() == 1,
        pow(10, decimal(n).len()) > n,
        n > 0 ==> pow(10, (decimal(n).len() - 1) as nat) <= n,
    decreases n,
{
    lemma_pow0(10);
    lemma_pow1(10);
    if n >= 10 {
        law_decimal_is_shortest(n / 10);
        lemma_decimal_roundtrip(n / 10);
        let k = decimal(n / 10).len();
        assert(decimal(n).len() == k + 1);
        assert(decimal(n)[0] == decimal(n / 10)[0]);
        lemma_pow_adds(10, k, 1);
        lemma_pow_adds(10, (k - 1) as nat, 1);
    }
}

/// A negative number is its magnitude behind a minus sign, and no other number has one.
pub proof fn law_sign(n: int)
    ensures
        n >= 0 ==> all_digits(signed_decimal(n)) && value(signed_decimal(n)) == n,
        n < 0 ==> signed_decimal(n)[0] == '-' && all_digits(signed_decimal(n).skip(1)) && value(
            signed_decimal(n).skip(1),
        ) == -n,
{
    lemma_decimal_roundtrip(if n < 0 {
        (-n) as nat
    } else {
        n as nat
    });
    if n < 0 {
        assert(signed_decimal(n).skip(1) =~= decimal((-n) as nat));
    }
}

/// A negative number in two places is its magnitude behind a minus sign.
pub proof fn law_two_places_negative(n: int)
    requires
        n < 0,
    ensures
        two_places(n) == seq!['-'] + decimal((-n) as nat),
{
}

/// In two places a number that is not negative is a run of digits that stands for it: of two
/// digits where it is below a hundred, of no more than it needs where it is not.
pub proof fn law_two_places(n: int)
    requires
        n >= 0,
    ensures
        all_digits(two_places(n)),
        two_places(n).len() >= 2,
        n < 100 ==> two_places(n).len() == 2,
        two_places(n).len() > 2 ==> two_places(n)[0] != '0',
        value(two_places(n)) == n,
{
    lemma_decimal_roundtrip(n as nat);
    law_decimal_is_shortest(n as nat);
    if n < 10 {
        let s = two_places(n);
        assert(s =~= seq!['0'] + seq![digit(n)]);
        law_value_of_a_digit('0');
        law_value_of_a_digit(digit(n));
        law_value_of_two_runs(seq!['0'], seq![digit(n)]);
    } else {
        lemma_decimal_roundtrip((n / 10) as nat);
        if n < 100 {
            assert(decimal((n / 10) as nat).len() == 1);
        }
    }
}

/// In three digits a number below a thousand is a run of three digits that stands for it.
pub proof fn law_three_digits(n: int)
    requires
        0 <= n < 1000,
    ensures
        all_digits(three_digits(n)),
        three_digits(n).len() == 3,
        value(three_digits(n)) == n,
{
    let s = three_digits(n);
    assert(s.drop_last() =~= seq![digit(n / 100), digit(n / 10 % 10)]);
    assert(s.drop_last().drop_last() =~= seq![digit(n / 100)]);
    assert(s.drop_last().drop_last().drop_last() =~= Seq::<char>::empty());
    assert(value(Seq::<char>::empty()) == 0);
    assert(value(seq![digit(n / 100)]) == n / 100);
    assert(value(s.drop_last()) == n / 10);
}

/// The digit for `d`.
pub(crate) fn digit_char(d: u8) -> (c: char)
    requires
        d < 10,
    ensures
        c == digit(d as int),
{
    (48 + d) as char
}

/// What `c` counts, if it is a digit.
pub(crate) fn digit_of(c: char) -> (d: Option<u8>)
    ensures
        match d {
            Some(v) => is_digit(c) && v == digit_value(c) && v < 10,
            None => !is_digit(c),
        },
{
    if '0' <= c && c <= '9' {
        let code: u32 = c as u32;
        Some((code - 48) as u8)
    } else {
        None
    }
}

/// Appends `n` in decimal digits.
pub fn push_decimal(out: &mut String, n: u64)
    ensures
        final(out)@ == old(out)@ + decimal(n as nat),
    decreases n,
{
    if n >= 10 {
        push_decimal(out, n / 10);
    }
    out.push(digit_char((n % 10) as u8));
    assert(out@ =~= old(out)@ + decimal(n as nat));
}

/// Appends `n` in decimal digits, behind a minus sign if it is negative.
pub fn push_signed(out: &mut String, n: i64)
    ensures
        final(out)@ == old(out)@ + signed_decimal(n as int),
{
    if n < 0 {
        out.push('-');
        let magnitude: i128 = -(n as i128);
        push_decimal(out, magnitude as u64);
        assert(out@ =~= old(out)@ + signed_decimal(n as int));
    } else {
        push_decimal(out, n as u64);
    }
}

/// Appends `n` filled up with zeros to a width of two.
pub fn push_two_places(out: &mut String, n: i64)
    ensures
        final(out)@ == old(out)@ + two_places(n as int),
{
    if 0 <= n && n < 10 {
        out.push('0');
        out.push(digit_char(n as u8));
        assert(out@ =~= old(out)@ + two_places(n as int));
    } else {
        push_signed(out, n);
    }
}

/// Appends `n` in exactly three digits.
pub fn push_three_digits(out: &mut String, n: u64)
    requires
        n < 1000,
    ensures
        final(out)@ == old(out)@ + three_digits(n as int),
{
    out.push(digit_char((n / 100) as u8));
    out.push(digit_char((n / 10 % 10) as u8));
    out.push(digit_char((n % 10) as u8));
    assert(out@ =~= old(out)@ + three_digits(n as int));
}

/// `n` in decimal digits, behind a minus sign if it is negative.
pub fn signed_text(n: i64) -> (s: String)
    ensures
        s@ == signed_decimal(n as int),
{
    let mut s = String::new();
    push_signed(&mut s, n);
    assert(s@ =~= signed_decimal(n as int));
    s
}

} // verus!

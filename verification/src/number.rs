//! Decimal numerals as texts: writing an integer, counting fraction digits and
//! rounding a numeral to a fixed number of fraction digits, half to even.
//!
//! A numeral is an optional minus sign, at least one digit, and optionally a
//! point followed by fraction digits. A text of any other shape (`NaN`, `inf`)
//! passes through these functions unchanged.

use vstd::prelude::*;
use crate::text::{to_chars, from_chars};

verus! {

/// The character that writes the digit `d`.
pub open spec fn digit_char(d: int) -> char {
    if d == 0 {
        '0'
    } else if d == 1 {
        '1'
    } else if d == 2 {
        '2'
    } else if d == 3 {
        '3'
    } else if d == 4 {
        '4'
    } else if d == 5 {
        '5'
    } else if d == 6 {
        '6'
    } else if d == 7 {
        '7'
    } else if d == 8 {
        '8'
    } else {
        '9'
    }
}

/// Whether the character is one of the ten digits.
pub open spec fn is_digit(c: char) -> bool {
    c == '0' || c == '1' || c == '2' || c == '3' || c == '4' || c == '5' || c == '6' || c == '7'
        || c == '8' || c == '9'
}

/// The value of a digit character.
pub open spec fn digit_value(c: char) -> int {
    if c == '1' {
        1
    } else if c == '2' {
        2
    } else if c == '3' {
        3
    } else if c == '4' {
        4
    } else if c == '5' {
        5
    } else if c == '6' {
        6
    } else if c == '7' {
        7
    } else if c == '8' {
        8
    } else if c == '9' {
        9
    } else {
        0
    }
}

/// Whether every character of the text is a digit.
pub open spec fn all_digits(s: Seq<char>) -> bool {
    forall|i: int| 0 <= i < s.len() ==> is_digit(#[trigger] s[i])
}

/// Whether every character of the text is the digit zero.
pub open spec fn all_zeros(s: Seq<char>) -> bool {
    forall|i: int| 0 <= i < s.len() ==> #[trigger] s[i] == '0'
}

/// `n` zeros.
pub open spec fn zeros(n: nat) -> Seq<char> {
    Seq::new(n, |i: int| '0')
}

/// The digits of a natural number, most significant first, without leading zeros.
pub open spec fn nat_text(n: nat) -> Seq<char>
    decreases n,
{
    if n < 10 {
        seq![digit_char(n as int)]
    } else {
        nat_text(n / 10).push(digit_char((n % 10) as int))
    }
}

/// The decimal numeral of an integer: a minus sign for a negative one, and the
/// digits of its magnitude.
pub open spec fn int_text(i: int) -> Seq<char> {
    if i < 0 {
        seq!['-'] + nat_text((-i) as nat)
    } else {
        nat_text(i as nat)
    }
}

/// The position of the first `c` in `s`, or the length of `s` where it holds none.
pub open spec fn position(s: Seq<char>, c: char) -> int
    decreases s.len(),
{
    if s.len() == 0 {
        0
    } else if s[0] == c {
        0
    } else {
        1 + position(s.skip(1), c)
    }
}

/// The text behind an optional leading minus sign.
pub open spec fn magnitude(s: Seq<char>) -> Seq<char> {
    if s.len() > 0 && s[0] == '-' {
        s.skip(1)
    } else {
        s
    }
}

/// What stands before the first point of a numeral, sign left out.
pub open spec fn int_part(s: Seq<char>) -> Seq<char> {
    magnitude(s).take(position(magnitude(s), '.'))
}

/// What stands behind the first point of a numeral; empty where there is no point.
pub open spec fn frac_part(s: Seq<char>) -> Seq<char> {
    let m = magnitude(s);
    let dot = position(m, '.');
    if dot < m.len() {
        m.skip(dot + 1)
    } else {
        Seq::empty()
    }
}

/// Whether the text is a numeral: an optional minus sign, one digit or more,
/// and optionally a point and fraction digits.
pub open spec fn is_numeral(s: Seq<char>) -> bool {
    int_part(s).len() > 0 && all_digits(int_part(s)) && all_digits(frac_part(s))
}

/// The number of characters behind the first point of the text, 0 where it has
/// no point.
pub open spec fn fraction_len(s: Seq<char>) -> nat {
    let dot = position(s, '.');
    if dot < s.len() {
        (s.len() - dot - 1) as nat
    } else {
        0
    }
}

/// The first `p` fraction digits, with zeros where the fraction is shorter.
pub open spec fn kept_fraction(frac: Seq<char>, p: nat) -> Seq<char> {
    Seq::new(p, |i: int| if i < frac.len() { frac[i] } else { '0' })
}

/// The fraction digits that are cut off behind the first `p`.
pub open spec fn cut_fraction(frac: Seq<char>, p: nat) -> Seq<char> {
    if p < frac.len() {
        frac.skip(p as int)
    } else {
        Seq::empty()
    }
}

/// Whether cutting `rest` off behind the digit `prev` rounds up: more than a
/// half does, less does not, and an exact half does where `prev` is odd.
pub open spec fn rounds_up(prev: char, rest: Seq<char>) -> bool {
    rest.len() > 0 && (digit_value(rest[0]) > 5 || (rest[0] == '5' && (!all_zeros(rest.skip(1))
        || digit_value(prev) % 2 == 1)))
}

/// The digits of the number that is one larger than the number `d` writes.
pub open spec fn incremented(d: Seq<char>) -> Seq<char>
    decreases d.len(),
{
    if d.len() == 0 {
        seq!['1']
    } else if d.last() == '9' {
        incremented(d.drop_last()).push('0')
    } else {
        d.drop_last().push(digit_char(digit_value(d.last()) + 1))
    }
}

/// The digits of a numeral rounded to `p` fraction digits, point left out: the
/// last `p` of them are the fraction.
pub open spec fn fixed_digits(whole: Seq<char>, frac: Seq<char>, p: nat) -> Seq<char> {
    let kept = whole + kept_fraction(frac, p);
    if rounds_up(kept.last(), cut_fraction(frac, p)) {
        incremented(kept)
    } else {
        kept
    }
}

/// A numeral rounded to `p` fraction digits, half to even; with no point where
/// `p` is 0. A text that is no numeral is returned as it is.
pub open spec fn fixed_text(s: Seq<char>, p: nat) -> Seq<char> {
    if is_numeral(s) {
        let d = fixed_digits(int_part(s), frac_part(s), p);
        let sign = if s[0] == '-' {
            seq!['-']
        } else {
            Seq::<char>::empty()
        };
        if p == 0 {
            sign + d
        } else {
            sign + d.take(d.len() - p) + seq!['.'] + d.skip(d.len() - p)
        }
    } else {
        s
    }
}

/// Ten to the power of `n`.
pub open spec fn pow10(n: nat) -> nat
    decreases n,
{
    if n == 0 {
        1
    } else {
        10 * pow10((n - 1) as nat)
    }
}

/// The number that a text of digits writes.
pub open spec fn digits_value(d: Seq<char>) -> nat
    decreases d.len(),
{
    if d.len() == 0 {
        0
    } else {
        digits_value(d.drop_last()) * 10 + digit_value(d.last()) as nat
    }
}

/// The position of the first `c` is within the text, no `c` stands before it,
/// and a `c` stands there unless the text holds none.
pub proof fn lemma_position(s: Seq<char>, c: char)
    ensures
        0 <= position(s, c) <= s.len(),
        forall|i: int| 0 <= i < position(s, c) ==> s[i] != c,
        position(s, c) < s.len() ==> s[position(s, c)] == c,
    decreases s.len(),
{
    if s.len() > 0 && s[0] != c {
        let t = s.skip(1);
        lemma_position(t, c);
        assert forall|i: int| 0 <= i < position(s, c) implies s[i] != c by {
            if i > 0 {
                assert(s[i] == t[i - 1]);
            }
        }
        if position(s, c) < s.len() {
            assert(s[position(s, c)] == t[position(t, c)]);
        }
    }
}

/// A position that holds `c`, or the end, with no `c` before it, is the
/// position of the first `c`.
pub proof fn lemma_position_unique(s: Seq<char>, c: char, k: int)
    requires
        0 <= k <= s.len(),
        forall|i: int| 0 <= i < k ==> s[i] != c,
        k < s.len() ==> s[k] == c,
    ensures
        position(s, c) == k,
{
    lemma_position(s, c);
    let p = position(s, c);
    if p < k {
        assert(s[p] == c);
    } else if k < p {
        assert(s[k] == c);
    }
}

/// Each digit character is the character of its value, and the ten digit
/// characters differ from one another.
pub proof fn lemma_digit_value(c: char)
    ensures
        0 <= digit_value(c) <= 9,
        is_digit(c) ==> digit_char(digit_value(c)) == c,
        forall|d: int| 0 <= d <= 9 ==> digit_value(#[trigger] digit_char(d)) == d,
{
}

/// Rounding a numeral gives at least as many digits as it keeps, and at most
/// one more.
pub proof fn lemma_fixed_digits_len(whole: Seq<char>, frac: Seq<char>, p: nat)
    ensures
        whole.len() + p <= fixed_digits(whole, frac, p).len() <= whole.len() + p + 1,
{
    lemma_incremented_len(whole + kept_fraction(frac, p));
}

/// Adding one gives as many digits, or one more.
pub proof fn lemma_incremented_len(d: Seq<char>)
    ensures
        d.len() <= incremented(d).len() <= d.len() + 1,
    decreases d.len(),
{
    if d.len() > 0 && d.last() == '9' {
        lemma_incremented_len(d.drop_last());
    }
}

/// A whole number written with `p` fraction digits is its own numeral where
/// `p` is 0, and else its numeral, a point and `p` zeros.
pub proof fn lemma_fixed_whole(s: Seq<char>, p: nat)
    requires
        is_numeral(s),
        frac_part(s).len() == 0,
        position(magnitude(s), '.') == magnitude(s).len(),
    ensures
        fixed_text(s, p) == if p == 0 {
            s
        } else {
            s + seq!['.'] + zeros(p)
        },
{
    let m = magnitude(s);
    let whole = int_part(s);
    assert(whole =~= m);
    let kept = whole + kept_fraction(frac_part(s), p);
    assert(kept_fraction(frac_part(s), p) =~= zeros(p));
    assert(cut_fraction(frac_part(s), p).len() == 0);
    let d = fixed_digits(whole, frac_part(s), p);
    assert(d == kept);
    if s[0] == '-' {
        assert(s =~= seq!['-'] + m);
    } else {
        assert(s =~= m);
    }
    if p == 0 {
        assert(kept =~= m);
        assert(fixed_text(s, p) =~= s);
    } else {
        assert(d.take(d.len() - p) =~= m);
        assert(d.skip(d.len() - p) =~= zeros(p));
        assert(fixed_text(s, p) =~= s + seq!['.'] + zeros(p));
    }
}

/// The digits of a natural number are digits, and they write that number.
pub proof fn lemma_nat_text(n: nat)
    ensures
        all_digits(nat_text(n)),
        digits_value(nat_text(n)) == n,
    decreases n,
{
    lemma_digit_value('0');
    if n < 10 {
        let d = seq![digit_char(n as int)];
        assert(d.drop_last() =~= Seq::<char>::empty());
        assert(digits_value(d.drop_last()) == 0);
        assert(d.last() == digit_char(n as int));
    } else {
        lemma_nat_text(n / 10);
        let d = nat_text(n);
        assert(d.drop_last() =~= nat_text(n / 10));
        assert(d.last() == digit_char((n % 10) as int));
        assert forall|i: int| 0 <= i < d.len() implies is_digit(#[trigger] d[i]) by {
            if i < d.len() - 1 {
                assert(d[i] == nat_text(n / 10)[i]);
            }
        }
    }
}

/// An integer written with `p` fraction digits is its numeral where `p` is 0,
/// and else its numeral, a point and `p` zeros.
pub proof fn lemma_int_fixed(i: int, p: nat)
    ensures
        fixed_text(int_text(i), p) == if p == 0 {
            int_text(i)
        } else {
            int_text(i) + seq!['.'] + zeros(p)
        },
{
    let s = int_text(i);
    let n: nat = if i < 0 {
        (-i) as nat
    } else {
        i as nat
    };
    let digits = nat_text(n);
    lemma_nat_text(n);
    assert(digits.len() > 0);
    assert(is_digit(digits[0]));
    if i < 0 {
        assert(s.skip(1) =~= digits);
    }
    let m = magnitude(s);
    assert(m == digits);
    assert forall|k: int| 0 <= k < m.len() implies m[k] != '.' by {
        assert(is_digit(m[k]));
    }
    lemma_position_unique(m, '.', m.len() as int);
    assert(int_part(s) =~= m);
    lemma_fixed_whole(s, p);
}

/// The digits of `a` followed by those of `b` write the number of `a`, moved
/// to the left by the length of `b`, and the number of `b`.
pub proof fn lemma_value_concat(a: Seq<char>, b: Seq<char>)
    ensures
        digits_value(a + b) == digits_value(a) * pow10(b.len()) + digits_value(b),
    decreases b.len(),
{
    if b.len() == 0 {
        assert(a + b =~= a);
        assert(pow10(0) == 1);
        assert(digits_value(a) * 1 == digits_value(a));
    } else {
        let b0 = b.drop_last();
        lemma_value_concat(a, b0);
        assert(digits_value(a + b) == digits_value((a + b).drop_last()) * 10 + digit_value((a + b).last()));
        assert(digits_value(b) == digits_value(b0) * 10 + digit_value(b.last()));
        assert((a + b).drop_last() =~= a + b0);
        assert((a + b).last() == b.last());
        let x = digits_value(a);
        let y = pow10(b0.len());
        let v = digits_value(b0);
        assert((x * y + v) * 10 == x * (10 * y) + v * 10) by (nonlinear_arith);
        assert(pow10(b.len()) == 10 * y);
    }
}

/// As many digits as `n` write a number below ten to the power of `n`.
pub proof fn lemma_value_bound(d: Seq<char>)
    ensures
        digits_value(d) < pow10(d.len()),
    decreases d.len(),
{
    if d.len() > 0 {
        lemma_value_bound(d.drop_last());
    }
}

/// Digits write zero exactly where all of them are zeros.
pub proof fn lemma_value_zero(d: Seq<char>)
    requires
        all_digits(d),
    ensures
        digits_value(d) == 0 <==> all_zeros(d),
    decreases d.len(),
{
    if d.len() > 0 {
        let d0 = d.drop_last();
        assert forall|i: int| 0 <= i < d0.len() implies is_digit(#[trigger] d0[i]) by {
            assert(d0[i] == d[i]);
        }
        lemma_value_zero(d0);
        assert(is_digit(d[d.len() - 1]));
        if all_zeros(d) {
            assert forall|i: int| 0 <= i < d0.len() implies #[trigger] d0[i] == '0' by {
                assert(d0[i] == d[i]);
            }
            assert(d[d.len() - 1] == '0');
        }
        if digits_value(d) == 0 {
            assert forall|i: int| 0 <= i < d.len() implies #[trigger] d[i] == '0' by {
                if i < d0.len() {
                    assert(d[i] == d0[i]);
                }
            }
        }
    }
}

/// Adding one to digits gives digits, which write the next number.
pub proof fn lemma_incremented_value(d: Seq<char>)
    requires
        all_digits(d),
    ensures
        all_digits(incremented(d)),
        digits_value(incremented(d)) == digits_value(d) + 1,
    decreases d.len(),
{
    lemma_digit_value('0');
    if d.len() == 0 {
        assert(seq!['1'].drop_last() =~= Seq::<char>::empty());
        assert(digits_value(seq!['1'].drop_last()) == 0);
        assert(seq!['1'].last() == '1');
    } else {
        let d0 = d.drop_last();
        assert forall|i: int| 0 <= i < d0.len() implies is_digit(#[trigger] d0[i]) by {
            assert(d0[i] == d[i]);
        }
        assert(is_digit(d[d.len() - 1]));
        let r = incremented(d);
        if d.last() == '9' {
            lemma_incremented_value(d0);
            assert(r.drop_last() =~= incremented(d0));
            assert(r.last() == '0');
            assert forall|i: int| 0 <= i < r.len() implies is_digit(#[trigger] r[i]) by {
                if i < r.len() - 1 {
                    assert(r[i] == incremented(d0)[i]);
                }
            }
        } else {
            assert(r.drop_last() =~= d0);
            assert(r.last() == digit_char(digit_value(d.last()) + 1));
            assert forall|i: int| 0 <= i < r.len() implies is_digit(#[trigger] r[i]) by {
                if i < r.len() - 1 {
                    assert(r[i] == d0[i]);
                }
            }
        }
    }
}

/// Rounding is to the nearest: the digits that `fixed_digits` gives write the
/// number with `p` fraction digits that is nearest to the one that the whole
/// and the fraction digits write, and of two that are equally near the even
/// one. Both are taken in units of the last of their fraction digits.
pub proof fn lemma_fixed_digits_nearest(whole: Seq<char>, frac: Seq<char>, p: nat)
    requires
        whole.len() > 0,
        all_digits(whole),
        all_digits(frac),
    ensures
        ({
            let cut = cut_fraction(frac, p).len();
            let fill: nat = if p > frac.len() {
                (p - frac.len()) as nat
            } else {
                0
            };
            let exact = digits_value(whole + frac) * pow10(fill);
            let fixed = digits_value(fixed_digits(whole, frac, p));
            &&& all_digits(fixed_digits(whole, frac, p))
            &&& -pow10(cut) <= 2 * (fixed * pow10(cut) - exact) <= pow10(cut)
            &&& (2 * (fixed * pow10(cut) - exact) == pow10(cut) || 2 * (fixed * pow10(cut) - exact)
                == -pow10(cut)) ==> fixed % 2 == 0
        }),
{
    let kept = whole + kept_fraction(frac, p);
    let rest = cut_fraction(frac, p);
    assert forall|j: int| 0 <= j < kept.len() implies is_digit(#[trigger] kept[j]) by {
        if j < whole.len() {
            assert(is_digit(whole[j]));
        } else if j - whole.len() < frac.len() {
            assert(is_digit(frac[j - whole.len()]));
        }
    }
    let k = digits_value(kept);
    assert(k == digits_value(kept.drop_last()) * 10 + digit_value(kept.last()));
    assert(k % 2 == digit_value(kept.last()) % 2);
    assert(pow10(0) == 1);
    let fixed = digits_value(fixed_digits(whole, frac, p));
    if p >= frac.len() {
        let fill = (p - frac.len()) as nat;
        assert(rest.len() == 0);
        assert(fixed_digits(whole, frac, p) == kept);
        assert(kept =~= (whole + frac) + zeros(fill));
        lemma_value_concat(whole + frac, zeros(fill));
        lemma_value_zero(zeros(fill));
        assert(digits_value(zeros(fill)) == 0);
        assert(fixed * 1 == fixed);
    } else {
        let m = rest.len();
        let u = pow10(m);
        assert(whole + frac =~= kept + rest);
        lemma_value_concat(kept, rest);
        let head = seq![rest[0]];
        let tail = rest.skip(1);
        assert(rest =~= head + tail);
        lemma_value_concat(head, tail);
        assert(head.drop_last() =~= Seq::<char>::empty());
        assert(digits_value(head.drop_last()) == 0);
        assert(head.last() == rest[0]);
        assert(digits_value(head) == digit_value(rest[0]));
        lemma_value_bound(tail);
        lemma_value_bound(rest);
        assert forall|j: int| 0 <= j < tail.len() implies is_digit(#[trigger] tail[j]) by {
            assert(tail[j] == frac[p + 1 + j]);
        }
        lemma_value_zero(tail);
        assert(is_digit(frac[p as int]));
        assert(rest[0] == frac[p as int]);
        let unit = pow10(tail.len());
        assert(u == 10 * unit);
        let d0 = digit_value(rest[0]);
        let t = digits_value(tail);
        let r = digits_value(rest);
        assert(r == d0 * unit + t);
        assert(0 <= d0 <= 9);
        assert(d0 <= 4 ==> d0 * unit <= 4 * unit) by (nonlinear_arith);
        assert(d0 == 5 ==> d0 * unit == 5 * unit) by (nonlinear_arith);
        assert(d0 >= 6 ==> d0 * unit >= 6 * unit) by (nonlinear_arith);
        assert(d0 == 5 <==> rest[0] == '5');
        let exact = digits_value(whole + frac) * pow10(0);
        assert(exact == digits_value(whole + frac));
        assert(exact == k * u + r);
        if rounds_up(kept.last(), rest) {
            lemma_incremented_value(kept);
            assert(fixed == k + 1);
            assert((k + 1) * u == k * u + u) by (nonlinear_arith);
            assert(fixed * u - exact == u - r);
            assert(2 * r >= u);
            assert(2 * r == u ==> fixed % 2 == 0);
        } else {
            assert(fixed == k);
            assert(fixed * u - exact == -r);
            assert(2 * r <= u);
            assert(2 * r == u ==> fixed % 2 == 0);
        }
    }
}

/// The character of a digit below ten.
pub fn digit_of(d: u8) -> (c: char)
    requires
        d <= 9,
    ensures
        c == digit_char(d as int),
{
    if d == 0 {
        '0'
    } else if d == 1 {
        '1'
    } else if d == 2 {
        '2'
    } else if d == 3 {
        '3'
    } else if d == 4 {
        '4'
    } else if d == 5 {
        '5'
    } else if d == 6 {
        '6'
    } else if d == 7 {
        '7'
    } else if d == 8 {
        '8'
    } else {
        '9'
    }
}

/// The value of a digit character, or `None` for any other character.
pub fn value_of(c: char) -> (r: Option<u8>)
    ensures
        r is Some <==> is_digit(c),
        r matches Some(d) ==> d == digit_value(c) && d <= 9,
        r is None ==> digit_value(c) == 0,
{
    let r: Option<u8> = if c == '0' {
        Some(0)
    } else if c == '1' {
        Some(1)
    } else if c == '2' {
        Some(2)
    } else if c == '3' {
        Some(3)
    } else if c == '4' {
        Some(4)
    } else if c == '5' {
        Some(5)
    } else if c == '6' {
        Some(6)
    } else if c == '7' {
        Some(7)
    } else if c == '8' {
        Some(8)
    } else if c == '9' {
        Some(9)
    } else {
        None
    };
    r
}

/// Appends the digits of `n` to `out`.
pub fn push_nat(out: &mut String, n: u64)
    ensures
        final(out)@ == old(out)@ + nat_text(n as nat),
    decreases n,
{
    if n >= 10 {
        push_nat(out, n / 10);
    }
    out.push(digit_of((n % 10) as u8));
    assert(out@ =~= old(out)@ + nat_text(n as nat));
}

/// The decimal numeral of an integer.
pub fn int_to_string(i: i32) -> (s: String)
    ensures
        s@ == int_text(i as int),
{
    let mut s = String::new();
    let wide: i64 = i as i64;
    if wide < 0 {
        s.push('-');
        push_nat(&mut s, (-wide) as u64);
    } else {
        push_nat(&mut s, wide as u64);
    }
    assert(s@ =~= int_text(i as int));
    s
}

/// The position of the first `c` at or behind `from`, or the length of `v`.
pub fn find_char(v: &Vec<char>, from: usize, c: char) -> (k: usize)
    requires
        from <= v.len(),
    ensures
        from <= k <= v.len(),
        k - from == position(v@.skip(from as int), c),
{
    let mut k: usize = from;
    while k < v.len() && v[k] != c
        invariant
            from <= k <= v.len(),
            forall|i: int| from <= i < k ==> v@[i] != c,
        decreases v.len() - k,
    {
        k += 1;
    }
    proof {
        lemma_position_unique(v@.skip(from as int), c, k - from);
    }
    k
}

/// The number of characters behind the first point of the text, 0 where it has
/// no point.
pub fn fraction_digits(s: &str) -> (n: usize)
    ensures
        n == fraction_len(s@),
{
    let v = to_chars(s);
    let dot = find_char(&v, 0, '.');
    assert(v@.skip(0) =~= v@);
    if dot < v.len() {
        v.len() - dot - 1
    } else {
        0
    }
}

/// Whether `v[from..to]` holds digits only.
pub fn digits_only(v: &Vec<char>, from: usize, to: usize) -> (b: bool)
    requires
        from <= to <= v.len(),
    ensures
        b == all_digits(v@.subrange(from as int, to as int)),
{
    let ghost part = v@.subrange(from as int, to as int);
    let mut k: usize = from;
    while k < to
        invariant
            from <= k <= to <= v.len(),
            part == v@.subrange(from as int, to as int),
            forall|i: int| 0 <= i < k - from ==> is_digit(#[trigger] part[i]),
        decreases to - k,
    {
        if value_of(v[k]).is_none() {
            assert(part[k - from] == v@[k as int]);
            return false;
        }
        k += 1;
    }
    true
}

/// Whether `v[from..]` holds zeros only.
pub fn zeros_only(v: &Vec<char>, from: usize) -> (b: bool)
    requires
        from <= v.len(),
    ensures
        b == all_zeros(v@.skip(from as int)),
{
    let ghost part = v@.skip(from as int);
    let mut k: usize = from;
    while k < v.len()
        invariant
            from <= k <= v.len(),
            part == v@.skip(from as int),
            forall|i: int| 0 <= i < k - from ==> #[trigger] part[i] == '0',
        decreases v.len() - k,
    {
        if v[k] != '0' {
            assert(part[k - from] == v@[k as int]);
            return false;
        }
        k += 1;
    }
    true
}

/// Adds one to the number that the digits write, in place.
pub fn increment(d: &mut Vec<char>)
    requires
        all_digits(old(d)@),
    ensures
        final(d)@ == incremented(old(d)@),
{
    let mut i: usize = d.len();
    proof {
        assert(d@.take(i as int) =~= d@);
        assert(incremented(d@) + zeros(0) =~= incremented(d@));
    }
    while i > 0 && d[i - 1] == '9'
        invariant
            i <= d.len(),
            d.len() == old(d).len(),
            d@.take(i as int) == old(d)@.take(i as int),
            forall|j: int| i <= j < d.len() ==> d@[j] == '0',
            incremented(old(d)@) == incremented(old(d)@.take(i as int)) + zeros((d.len() - i) as nat),
        decreases i,
    {
        proof {
            let cur = old(d)@.take(i as int);
            assert(cur.last() == d@.take(i as int)[i - 1]);
            assert(cur.drop_last() =~= old(d)@.take(i - 1));
            assert(incremented(cur) == incremented(cur.drop_last()).push('0'));
            assert(incremented(cur.drop_last()).push('0') + zeros((d.len() - i) as nat)
                =~= incremented(cur.drop_last()) + zeros((d.len() - i + 1) as nat));
        }
        d.set(i - 1, '0');
        i -= 1;
        assert(d@.take(i as int) =~= old(d)@.take(i as int));
    }
    if i == 0 {
        assert(old(d)@.take(0) =~= Seq::<char>::empty());
        d.insert(0, '1');
        assert(d@ =~= seq!['1'] + zeros((d.len() - 1) as nat));
    } else {
        let ghost cur = old(d)@.take(i as int);
        assert(cur.last() == d@.take(i as int)[i - 1]);
        assert(is_digit(old(d)@[i - 1]));
        let v = value_of(d[i - 1]);
        let c = match v {
            Some(x) => {
                proof {
                    lemma_digit_value(d@[i - 1]);
                }
                digit_of(x + 1)
            },
            None => '0',
        };
        let ghost rest = zeros((d.len() - i) as nat);
        d.set(i - 1, c);
        assert(d@ =~= cur.drop_last().push(c) + rest);
    }
}

/// The digits `v[start..dot]` followed by the first `digits` digits of
/// `v[frac_from..]`, with zeros where those run out.
fn keep_digits(v: &Vec<char>, start: usize, dot: usize, frac_from: usize, digits: usize) -> (kept:
    Vec<char>)
    requires
        start <= dot <= frac_from <= v.len(),
    ensures
        kept@ == v@.subrange(start as int, dot as int) + kept_fraction(
            v@.skip(frac_from as int),
            digits as nat,
        ),
{
    let ghost whole = v@.subrange(start as int, dot as int);
    let ghost frac = v@.skip(frac_from as int);
    let frac_len: usize = v.len() - frac_from;
    let mut kept: Vec<char> = Vec::new();
    let mut i: usize = start;
    while i < dot
        invariant
            start <= i <= dot <= v.len(),
            kept@ == v@.subrange(start as int, i as int),
        decreases dot - i,
    {
        kept.push(v[i]);
        i += 1;
    }
    assert(kept@ =~= whole + kept_fraction(frac, 0));
    let mut k: usize = 0;
    while k < digits
        invariant
            k <= digits,
            frac_from + frac_len == v.len(),
            frac == v@.skip(frac_from as int),
            kept@ == whole + kept_fraction(frac, k as nat),
        decreases digits - k,
    {
        if k < frac_len {
            kept.push(v[frac_from + k]);
        } else {
            kept.push('0');
        }
        k += 1;
        assert(kept@ =~= whole + kept_fraction(frac, k as nat));
    }
    kept
}

/// Whether cutting the fraction `v[frac_from..]` behind its first `digits`
/// digits rounds up, where `prev` is the last digit that is kept.
fn cut_rounds_up(v: &Vec<char>, frac_from: usize, digits: usize, prev: char) -> (up: bool)
    requires
        frac_from <= v.len(),
    ensures
        up == rounds_up(prev, cut_fraction(v@.skip(frac_from as int), digits as nat)),
{
    let frac_len: usize = v.len() - frac_from;
    if digits >= frac_len {
        return false;
    }
    let ghost rest = cut_fraction(v@.skip(frac_from as int), digits as nat);
    let first = v[frac_from + digits];
    proof {
        assert(rest[0] == first);
        assert(rest.skip(1) =~= v@.skip(frac_from + digits + 1));
    }
    let x: u8 = match value_of(first) {
        Some(x) => x,
        None => 0,
    };
    if x > 5 {
        true
    } else if first == '5' {
        if !zeros_only(v, frac_from + digits + 1) {
            true
        } else {
            match value_of(prev) {
                Some(y) => y % 2 == 1,
                None => false,
            }
        }
    } else {
        false
    }
}

/// Writes the sign and the digits, with a point before the last `digits` of them.
fn assemble(negative: bool, d: &Vec<char>, digits: usize) -> (out: String)
    requires
        digits <= d.len(),
    ensures
        out@ == (if negative {
            seq!['-']
        } else {
            Seq::<char>::empty()
        }) + (if digits == 0 {
            d@
        } else {
            d@.take(d.len() - digits) + seq!['.'] + d@.skip(d.len() - digits)
        }),
{
    let mut out = String::new();
    if negative {
        out.push('-');
    }
    let split: usize = d.len() - digits;
    let head = from_chars(d, 0, split);
    out.append(head.as_str());
    if digits > 0 {
        out.push('.');
        let tail = from_chars(d, split, d.len());
        out.append(tail.as_str());
    }
    proof {
        let sign = if negative {
            seq!['-']
        } else {
            Seq::<char>::empty()
        };
        if digits == 0 {
            assert(out@ =~= sign + d@);
        } else {
            assert(out@ =~= sign + (d@.take(d.len() - digits) + seq!['.'] + d@.skip(d.len() - digits)));
        }
    }
    out
}

/// The numeral rounded to `digits` fraction digits, half to even; the text as
/// it is where it is no numeral.
pub fn to_fixed(s: &str, digits: usize) -> (out: String)
    ensures
        out@ == fixed_text(s@, digits as nat),
{
    let v = to_chars(s);
    let negative = v.len() > 0 && v[0] == '-';
    let start: usize = if negative {
        1
    } else {
        0
    };
    let dot = find_char(&v, start, '.');
    let frac_from: usize = if dot < v.len() {
        dot + 1
    } else {
        dot
    };
    proof {
        assert(magnitude(s@) =~= v@.skip(start as int));
        assert(int_part(s@) =~= v@.subrange(start as int, dot as int));
        assert(frac_part(s@) =~= v@.skip(frac_from as int));
        assert(v@.skip(frac_from as int) =~= v@.subrange(frac_from as int, v.len() as int));
    }
    if dot == start || !digits_only(&v, start, dot) || !digits_only(&v, frac_from, v.len()) {
        return from_chars(&v, 0, v.len());
    }
    let ghost whole = int_part(s@);
    let ghost frac = frac_part(s@);
    let mut kept = keep_digits(&v, start, dot, frac_from, digits);
    let prev = kept[kept.len() - 1];
    let up = cut_rounds_up(&v, frac_from, digits, prev);
    proof {
        let all = whole + kept_fraction(frac, digits as nat);
        assert forall|j: int| 0 <= j < all.len() implies is_digit(#[trigger] all[j]) by {
            if j < whole.len() {
                assert(is_digit(whole[j]));
            } else if j - whole.len() < frac.len() {
                assert(is_digit(frac[j - whole.len()]));
            }
        }
    }
    if up {
        increment(&mut kept);
    }
    proof {
        lemma_fixed_digits_len(whole, frac, digits as nat);
    }
    assemble(negative, &kept, digits)
}

} // verus!

//! Rendering of byte counts, transfer speeds and percentages as
//! human-readable strings.
//!
//! A byte count is scaled by the largest power-of-1000 unit tier not
//! exceeding it (B, KB, MB, GB, TB, PB) and rendered with a precision
//! that depends on the scaled value's magnitude: at least 100 in its
//! tier gives no decimal digits, at least 10 gives one, anything
//! smaller gives two. Percentages always carry one decimal digit.

use vstd::prelude::*;

verus! {

/// The decimal digit character for `d` (meaningful for `d < 10`).
pub open spec fn spec_digit(d: nat) -> char {
    if d == 0 {
        '0'
    } else if d == 1 {
        '1'
    } else if d == 2 {
        '2'
    } else if d == 3 {
        '3'
    } else if d == 4 {
        '4'
    } else if d == 5 {
        '5'
    } else if d == 6 {
        '6'
    } else if d == 7 {
        '7'
    } else if d == 8 {
        '8'
    } else {
        '9'
    }
}

/// The usual base-ten rendering of `n`, most significant digit first,
/// without leading zeros (`0` renders as `"0"`).
pub open spec fn spec_digits(n: nat) -> Seq<char>
    decreases n,
{
    if n < 10 {
        seq![spec_digit(n)]
    } else {
        spec_digits(n / 10) + seq![spec_digit(n % 10)]
    }
}

/// `n / d` rounded to the nearest integer, halves rounding up.
pub open spec fn spec_round_div(n: nat, d: nat) -> nat
    recommends
        d > 0,
{
    n / d + if 2 * (n % d) >= d {
        1nat
    } else {
        0nat
    }
}

/// The unit tier of a byte count: the largest power-of-1000 step not
/// exceeding it, clamped to the last named unit (PB).
pub open spec fn spec_tier(b: nat) -> nat {
    if b < 1000 {
        0
    } else if b < 1000000 {
        1
    } else if b < 1000000000 {
        2
    } else if b < 1000000000000 {
        3
    } else if b < 1000000000000000 {
        4
    } else {
        5
    }
}

/// `1000^t` for the six unit tiers.
pub open spec fn spec_pow1000(t: nat) -> nat {
    if t == 0 {
        1
    } else if t == 1 {
        1000
    } else if t == 2 {
        1000000
    } else if t == 3 {
        1000000000
    } else if t == 4 {
        1000000000000
    } else {
        1000000000000000
    }
}

/// The unit suffix for tier `t`.
pub open spec fn spec_unit_name(t: nat) -> Seq<char> {
    if t == 0 {
        seq!['B']
    } else if t == 1 {
        seq!['K', 'B']
    } else if t == 2 {
        seq!['M', 'B']
    } else if t == 3 {
        seq!['G', 'B']
    } else if t == 4 {
        seq!['T', 'B']
    } else {
        seq!['P', 'B']
    }
}

/// How many decimal digits the rendering of `b` carries: none when the
/// scaled value reaches 100, one when it reaches 10, two otherwise.
pub open spec fn spec_decimals(b: nat) -> nat {
    let pow = spec_pow1000(spec_tier(b));
    if b >= 100 * pow {
        0
    } else if b >= 10 * pow {
        1
    } else {
        2
    }
}

/// `10^d` for the three precision choices.
pub open spec fn spec_pow10(d: nat) -> nat {
    if d == 0 {
        1
    } else if d == 1 {
        10
    } else {
        100
    }
}

/// All digits of the rendered number, decimal point removed: the byte
/// count scaled into its tier, kept to `spec_decimals(b)` decimal
/// digits, rounded to nearest.
pub open spec fn spec_mantissa(b: nat) -> nat {
    spec_round_div(b * spec_pow10(spec_decimals(b)), spec_pow1000(spec_tier(b)))
}

/// The digits of `m` with a decimal point inserted before the last `d`
/// of them; `d == 0` inserts no point.
pub open spec fn spec_with_point(m: nat, d: nat) -> Seq<char> {
    if d == 0 {
        spec_digits(m)
    } else {
        let s = spec_digits(m);
        s.take(s.len() - d) + seq!['.'] + s.skip(s.len() - d)
    }
}

/// What `format_bytes` returns: `"0 B"` for zero, otherwise the scaled
/// and rounded value with its decimal point, a space, and the unit.
pub open spec fn spec_format_bytes(b: nat) -> Seq<char> {
    if b == 0 {
        seq!['0', ' ', 'B']
    } else {
        spec_with_point(spec_mantissa(b), spec_decimals(b)) + seq![' '] + spec_unit_name(
            spec_tier(b),
        )
    }
}

/// What `format_percent` returns for a value given in tenths of a
/// percent: the whole part, one decimal digit, and `%`.
pub open spec fn spec_format_percent(tenths: nat) -> Seq<char> {
    spec_digits(tenths / 10) + seq!['.', spec_digit(tenths % 10), '%']
}

/// Does `c` render a decimal digit?
pub open spec fn is_dec_digit(c: char) -> bool {
    c == '0' || c == '1' || c == '2' || c == '3' || c == '4' || c == '5' || c == '6' || c == '7'
        || c == '8' || c == '9'
}

/// A rendered number is at least one character long, and grows with
/// its magnitude.
pub proof fn lemma_digits_len(n: nat)
    ensures
        spec_digits(n).len() >= 1,
        n >= 10 ==> spec_digits(n).len() >= 2,
        n >= 100 ==> spec_digits(n).len() >= 3,
    decreases n,
{
    if n >= 10 {
        lemma_digits_len(n / 10);
        if n >= 100 {
            vstd::arithmetic::div_mod::lemma_div_is_ordered(100, n as int, 10);
        }
    }
}

/// Every character of a rendered number is a decimal digit.
pub proof fn lemma_digits_are_digits(n: nat)
    ensures
        forall|i: int| 0 <= i < spec_digits(n).len() ==> is_dec_digit(#[trigger] spec_digits(n)[i]),
    decreases n,
{
    if n >= 10 {
        lemma_digits_are_digits(n / 10);
        let a = spec_digits(n / 10);
        let s = spec_digits(n);
        assert(s == a + seq![spec_digit(n % 10)]);
        assert forall|i: int| 0 <= i < s.len() implies is_dec_digit(s[i]) by {
            if i < a.len() {
                assert(s[i] == a[i]);
            } else {
                assert(s[i] == spec_digit(n % 10));
            }
        }
    } else {
        assert(spec_digits(n) == seq![spec_digit(n)]);
        assert(spec_digits(n)[0] == spec_digit(n));
    }
}

/// `x / d` reaches `k` as soon as `x` reaches `k * d`.
proof fn lemma_div_at_least(x: nat, k: nat, d: nat)
    requires
        d > 0,
        x >= k * d,
    ensures
        x / d >= k,
{
    vstd::arithmetic::div_mod::lemma_div_multiples_vanish(k as int, d as int);
    vstd::arithmetic::div_mod::lemma_div_is_ordered((k * d) as int, x as int, d as int);
}

/// Splitting the digits of `m` before the last one yields the digits
/// of `m / 10` and the final digit.
pub proof fn lemma_with_point_one(m: nat)
    requires
        m >= 10,
    ensures
        spec_with_point(m, 1) == spec_digits(m / 10) + seq!['.'] + seq![spec_digit(m % 10)],
{
    let s = spec_digits(m);
    let a = spec_digits(m / 10);
    let b = seq![spec_digit(m % 10)];
    assert(s == a + b);
    lemma_digits_len(m / 10);
    assert(s.take(s.len() - 1) =~= a);
    assert(s.skip(s.len() - 1) =~= b);
    assert(spec_with_point(m, 1) =~= a + seq!['.'] + b);
}

/// Splitting the digits of `m` before the last two yields the digits
/// of `m / 100` and the two final digits.
pub proof fn lemma_with_point_two(m: nat)
    requires
        m >= 100,
    ensures
        spec_with_point(m, 2) == spec_digits(m / 100) + seq!['.'] + seq![
            spec_digit(m / 10 % 10),
            spec_digit(m % 10),
        ],
{
    vstd::arithmetic::div_mod::lemma_div_is_ordered(100, m as int, 10);
    vstd::arithmetic::div_mod::lemma_div_denominator(m as int, 10, 10);
    assert(m / 10 / 10 == m / 100);
    let s = spec_digits(m);
    let a = spec_digits(m / 100);
    let b = seq![spec_digit(m / 10 % 10), spec_digit(m % 10)];
    assert(spec_digits(m / 10) == a + seq![spec_digit(m / 10 % 10)]);
    assert(s == spec_digits(m / 10) + seq![spec_digit(m % 10)]);
    assert(s =~= a + b);
    lemma_digits_len(m / 100);
    assert(s.take(s.len() - 2) =~= a);
    assert(s.skip(s.len() - 2) =~= b);
    assert(spec_with_point(m, 2) =~= a + seq!['.'] + b);
}

/// The unit tier of `bytes`.
fn tier_of(bytes: u64) -> (t: u64)
    ensures
        t as nat == spec_tier(bytes as nat),
        t <= 5,
{
    if bytes < 1000 {
        0
    } else if bytes < 1000000 {
        1
    } else if bytes < 1000000000 {
        2
    } else if bytes < 1000000000000 {
        3
    } else if bytes < 1000000000000000 {
        4
    } else {
        5
    }
}

/// `1000^t` for a tier `t`.
fn pow1000_of(t: u64) -> (p: u64)
    requires
        t <= 5,
    ensures
        p as nat == spec_pow1000(t as nat),
        1 <= p <= 1000000000000000,
{
    if t == 0 {
        1
    } else if t == 1 {
        1000
    } else if t == 2 {
        1000000
    } else if t == 3 {
        1000000000
    } else if t == 4 {
        1000000000000
    } else {
        1000000000000000
    }
}

/// Appends a space and the unit suffix for tier `t`.
fn append_unit(s: &mut String, t: u64)
    requires
        t <= 5,
    ensures
        final(s)@ == old(s)@ + seq![' '] + spec_unit_name(t as nat),
{
    if t == 0 {
        s.append(" B");
        proof { reveal_strlit(" B"); }
    } else if t == 1 {
        s.append(" KB");
        proof { reveal_strlit(" KB"); }
    } else if t == 2 {
        s.append(" MB");
        proof { reveal_strlit(" MB"); }
    } else if t == 3 {
        s.append(" GB");
        proof { reveal_strlit(" GB"); }
    } else if t == 4 {
        s.append(" TB");
        proof { reveal_strlit(" TB"); }
    } else {
        s.append(" PB");
        proof { reveal_strlit(" PB"); }
    }
    proof {
        assert(s@ =~= old(s)@ + seq![' '] + spec_unit_name(t as nat));
    }
}

/// Formats a byte count as a human-readable string: the count scaled
/// into the largest power-of-1000 unit not exceeding it, rounded to
/// two, one or no decimal digits as the scaled value is below 10,
/// below 100, or at least 100, then a space and the unit.
pub fn format_bytes(bytes: u64) -> (r: String)
    ensures
        r@ == spec_format_bytes(bytes as nat),
{
    if bytes == 0 {
        let r: String = "0 B".to_owned();
        proof {
            reveal_strlit("0 B");
            assert(r@ =~= spec_format_bytes(0));
        }
        return r;
    }
    let t: u64 = tier_of(bytes);
    let pow: u64 = pow1000_of(t);
    proof {
        assert(bytes >= pow);
    }
    let d: u64 = if bytes >= 100 * pow {
        0
    } else if bytes >= 10 * pow {
        1
    } else {
        2
    };
    proof {
        assert(d as nat == spec_decimals(bytes as nat));
    }
    let scaled: u64 = if d == 0 {
        bytes
    } else if d == 1 {
        bytes * 10
    } else {
        bytes * 100
    };
    proof {
        if d == 0 {
            assert(spec_pow10(d as nat) == 1);
            assert(scaled == bytes as nat * 1);
        } else if d == 1 {
            assert(spec_pow10(d as nat) == 10);
            assert(scaled == bytes as nat * 10);
        } else {
            assert(spec_pow10(d as nat) == 100);
            assert(scaled == bytes as nat * 100);
        }
        assert(scaled as nat == bytes as nat * spec_pow10(d as nat));
    }
    let q: u64 = scaled / pow;
    let rem: u64 = scaled % pow;
    proof {
        vstd::arithmetic::div_mod::lemma_mod_division_less_than_divisor(
            scaled as int,
            pow as int,
        );
        vstd::arithmetic::div_mod::lemma_multiply_divide_lt(
            scaled as int,
            pow as int,
            0xffff_ffff_ffff_ffff,
        );
        if d >= 1 {
            lemma_div_at_least(scaled as nat, 100, pow as nat);
        }
    }
    let m: u64 = if 2 * rem >= pow {
        q + 1
    } else {
        q
    };
    proof {
        assert(m as nat == spec_mantissa(bytes as nat));
        assert(d >= 1 ==> m >= 100);
    }
    let mut s = String::new();
    if d == 0 {
        append_decimal(&mut s, m);
    } else if d == 1 {
        append_decimal(&mut s, m / 10);
        s.append(".");
        proof { reveal_strlit("."); }
        append_digit(&mut s, m % 10);
        proof {
            lemma_with_point_one(m as nat);
        }
    } else {
        append_decimal(&mut s, m / 100);
        s.append(".");
        proof { reveal_strlit("."); }
        append_digit(&mut s, m / 10 % 10);
        append_digit(&mut s, m % 10);
        proof {
            lemma_with_point_two(m as nat);
        }
    }
    proof {
        assert(s@ =~= spec_with_point(spec_mantissa(bytes as nat), spec_decimals(bytes as nat)));
    }
    append_unit(&mut s, t);
    proof {
        assert(s@ =~= spec_format_bytes(bytes as nat));
    }
    s
}

/// Formats a transfer speed: the byte count formatted as usual, then
/// the suffix `/s`.
pub fn format_speed(bytes_per_sec: u64) -> (r: String)
    ensures
        r@ == spec_format_bytes(bytes_per_sec as nat) + seq!['/', 's'],
{
    let mut s = format_bytes(bytes_per_sec);
    s.append("/s");
    proof {
        reveal_strlit("/s");
        assert(s@ =~= spec_format_bytes(bytes_per_sec as nat) + seq!['/', 's']);
    }
    s
}

/// A zero byte count renders as exactly `"0 B"`.
pub proof fn lemma_format_bytes_zero()
    ensures
        spec_format_bytes(0) == seq!['0', ' ', 'B'],
{
}

/// A byte count below one kilobyte stays in tier B and keeps its
/// exact value: the rendered digits are `b` shifted by the precision,
/// with no rounding loss.
pub proof fn lemma_format_bytes_small(b: nat)
    requires
        1 <= b < 1000,
    ensures
        spec_tier(b) == 0,
        spec_unit_name(spec_tier(b)) == seq!['B'],
        spec_mantissa(b) == b * spec_pow10(spec_decimals(b)),
{
    let d = spec_decimals(b);
    let n = b * spec_pow10(d);
    if d == 0 {
        assert(n == b * 1);
    } else if d == 1 {
        assert(n == b * 10);
    } else {
        assert(n == b * 100);
    }
    vstd::arithmetic::div_mod::lemma_div_basics(n as int);
    vstd::arithmetic::div_mod::lemma_mod_multiples_basic(n as int, 1);
    assert(n as int * 1 == n as int);
    assert(n % 1 == 0);
}

/// The scaled and rounded value always has at least three digits when
/// decimals are rendered, and never carries past `1000`; with no
/// decimals it is at least `100`.
pub proof fn lemma_mantissa_range(b: nat)
    requires
        b >= 1,
    ensures
        spec_mantissa(b) >= 100,
        spec_decimals(b) >= 1 ==> spec_mantissa(b) <= 1000,
{
    let t = spec_tier(b);
    let pow = spec_pow1000(t);
    let d = spec_decimals(b);
    let n = b * spec_pow10(d);
    assert(b >= pow);
    if d == 0 {
        assert(n == b * 1);
        lemma_div_at_least(n, 100, pow);
    } else if d == 1 {
        assert(n == b * 10);
        assert(n >= 100 * pow);
        assert(n < 1000 * pow);
        lemma_div_at_least(n, 100, pow);
        vstd::arithmetic::div_mod::lemma_multiply_divide_lt(n as int, pow as int, 1000);
    } else {
        assert(n == b * 100);
        assert(n >= 100 * pow);
        assert(n < 1000 * pow);
        lemma_div_at_least(n, 100, pow);
        vstd::arithmetic::div_mod::lemma_multiply_divide_lt(n as int, pow as int, 1000);
    }
}

/// A scaled value of at least 100 renders with no decimal digits: the
/// output is whole digits, a space and the unit, and contains no
/// decimal point anywhere.
pub proof fn lemma_precision_no_decimals(b: nat)
    requires
        b >= 1,
        spec_decimals(b) == 0,
    ensures
        spec_format_bytes(b) == spec_digits(spec_mantissa(b)) + seq![' '] + spec_unit_name(
            spec_tier(b),
        ),
        forall|i: int|
            0 <= i < spec_format_bytes(b).len() ==> #[trigger] spec_format_bytes(b)[i] != '.',
{
    let m = spec_mantissa(b);
    let a = spec_digits(m);
    let u = spec_unit_name(spec_tier(b));
    let s = spec_format_bytes(b);
    lemma_digits_are_digits(m);
    assert(s == a + seq![' '] + u);
    assert forall|i: int| 0 <= i < s.len() implies s[i] != '.' by {
        if i < a.len() {
            assert(s[i] == a[i]);
            assert(is_dec_digit(a[i]));
        } else if i == a.len() {
            assert(s[i] == ' ');
        } else {
            assert(s[i] == u[i - a.len() - 1]);
        }
    }
}

/// A scaled value in `[10, 100)` renders with exactly one decimal
/// digit: one digit character stands between the point and the space.
pub proof fn lemma_precision_one_decimal(b: nat)
    requires
        b >= 1,
        spec_decimals(b) == 1,
    ensures
        spec_format_bytes(b) == spec_digits(spec_mantissa(b) / 10) + seq![
            '.',
            spec_digit(spec_mantissa(b) % 10),
            ' ',
        ] + spec_unit_name(spec_tier(b)),
{
    lemma_mantissa_range(b);
    lemma_with_point_one(spec_mantissa(b));
    assert(spec_format_bytes(b) =~= spec_digits(spec_mantissa(b) / 10) + seq![
        '.',
        spec_digit(spec_mantissa(b) % 10),
        ' ',
    ] + spec_unit_name(spec_tier(b)));
}

/// A nonzero scaled value below 10 renders with exactly two decimal
/// digits: two digit characters stand between the point and the
/// space.
pub proof fn lemma_precision_two_decimals(b: nat)
    requires
        b >= 1,
        spec_decimals(b) == 2,
    ensures
        spec_format_bytes(b) == spec_digits(spec_mantissa(b) / 100) + seq![
            '.',
            spec_digit(spec_mantissa(b) / 10 % 10),
            spec_digit(spec_mantissa(b) % 10),
            ' ',
        ] + spec_unit_name(spec_tier(b)),
{
    lemma_mantissa_range(b);
    lemma_with_point_two(spec_mantissa(b));
    assert(spec_format_bytes(b) =~= spec_digits(spec_mantissa(b) / 100) + seq![
        '.',
        spec_digit(spec_mantissa(b) / 10 % 10),
        spec_digit(spec_mantissa(b) % 10),
        ' ',
    ] + spec_unit_name(spec_tier(b)));
}

/// Monotonicity within a unit tier: a larger byte count never renders
/// a smaller numeric prefix. The prefix rendered for `b` has the value
/// `spec_mantissa(b) / 10^spec_decimals(b)`; the inequality is stated
/// with the denominators cleared.
pub proof fn lemma_format_bytes_monotonic(b1: nat, b2: nat)
    requires
        1 <= b1 < b2,
        spec_tier(b1) == spec_tier(b2),
    ensures
        spec_mantissa(b1) * spec_pow10(spec_decimals(b2)) <= spec_mantissa(b2) * spec_pow10(
            spec_decimals(b1),
        ),
{
    let t = spec_tier(b1);
    let pow = spec_pow1000(t);
    let d1 = spec_decimals(b1);
    let d2 = spec_decimals(b2);
    let n1 = b1 * spec_pow10(d1);
    let n2 = b2 * spec_pow10(d2);
    let m1 = spec_mantissa(b1);
    let m2 = spec_mantissa(b2);
    lemma_mantissa_range(b1);
    lemma_mantissa_range(b2);
    if d1 == d2 {
        let p = spec_pow10(d1);
        if d1 == 0 {
            assert(n1 == b1 * 1 && n2 == b2 * 1);
        } else if d1 == 1 {
            assert(n1 == b1 * 10 && n2 == b2 * 10);
        } else {
            assert(n1 == b1 * 100 && n2 == b2 * 100);
        }
        assert(n1 < n2);
        vstd::arithmetic::div_mod::lemma_div_is_ordered(n1 as int, n2 as int, pow as int);
        let q1 = n1 / pow;
        let q2 = n2 / pow;
        if q1 == q2 {
            vstd::arithmetic::div_mod::lemma_fundamental_div_mod(n1 as int, pow as int);
            vstd::arithmetic::div_mod::lemma_fundamental_div_mod(n2 as int, pow as int);
            assert(n1 % pow < n2 % pow);
            assert(m1 <= m2);
        } else {
            assert(q1 + 1 <= q2);
            assert(m1 <= m2);
        }
        if d1 == 0 {
            assert(m1 * 1 <= m2 * 1);
        } else if d1 == 1 {
            assert(m1 * 10 <= m2 * 10);
        } else {
            assert(m1 * 100 <= m2 * 100);
        }
    } else if d1 == 1 && d2 == 0 {
        assert(m1 * 1 <= m2 * 10);
    } else if d1 == 2 && d2 == 0 {
        assert(m1 * 1 <= m2 * 100);
    } else if d1 == 2 && d2 == 1 {
        assert(m1 * 10 <= m2 * 100);
    } else {
        assert(false);
    }
}

/// Appends the single digit character for `d`.
fn append_digit(s: &mut String, d: u64)
    requires
        d < 10,
    ensures
        final(s)@ == old(s)@ + seq![spec_digit(d as nat)],
{
    if d == 0 {
        s.append("0");
        proof { reveal_strlit("0"); }
    } else if d == 1 {
        s.append("1");
        proof { reveal_strlit("1"); }
    } else if d == 2 {
        s.append("2");
        proof { reveal_strlit("2"); }
    } else if d == 3 {
        s.append("3");
        proof { reveal_strlit("3"); }
    } else if d == 4 {
        s.append("4");
        proof { reveal_strlit("4"); }
    } else if d == 5 {
        s.append("5");
        proof { reveal_strlit("5"); }
    } else if d == 6 {
        s.append("6");
        proof { reveal_strlit("6"); }
    } else if d == 7 {
        s.append("7");
        proof { reveal_strlit("7"); }
    } else if d == 8 {
        s.append("8");
        proof { reveal_strlit("8"); }
    } else {
        s.append("9");
        proof { reveal_strlit("9"); }
    }
    proof {
        assert(s@ =~= old(s)@ + seq![spec_digit(d as nat)]);
    }
}

/// Appends the base-ten rendering of `n`.
fn append_decimal(s: &mut String, n: u64)
    ensures
        final(s)@ == old(s)@ + spec_digits(n as nat),
    decreases n,
{
    if n < 10 {
        append_digit(s, n);
    } else {
        append_decimal(s, n / 10);
        append_digit(s, n % 10);
        proof {
            assert(s@ =~= old(s)@ + spec_digits(n as nat));
        }
    }
}

/// Formats a percentage given in tenths of a percent: the whole part,
/// exactly one decimal digit, and a `%` sign (`503` renders as
/// `"50.3%"`).
pub fn format_percent(tenths: u64) -> (r: String)
    ensures
        r@ == spec_format_percent(tenths as nat),
{
    let mut s = String::new();
    append_decimal(&mut s, tenths / 10);
    s.append(".");
    proof { reveal_strlit("."); }
    append_digit(&mut s, tenths % 10);
    s.append("%");
    proof {
        reveal_strlit("%");
        assert(s@ =~= spec_format_percent(tenths as nat));
    }
    s
}

} // verus!

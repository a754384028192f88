//! Fixed-point decimal quantities.
//!
//! Prices, sizes and amounts are carried as unsigned integers counting
//! hundred-millionths (`10^-8`) of a unit, which is the finest precision the
//! exchanges quote. Text such as `"0.55"` or `"67432.15000000"` is read into
//! that representation exactly, with no rounding.
use vstd::prelude::*;
use vstd::string::*;

use crate::text::{decimal_string, digit_char, fixed_string, rounded_steps, zero_padded};

verus! {

/// Number of decimal places of the fixed-point representation.
pub const FRACTION_DIGITS: usize = 8;

/// Fixed-point units in one whole unit (`10^FRACTION_DIGITS`).
pub const UNITS_PER_ONE: u64 = 100_000_000;

pub open spec fn pow10(n: nat) -> nat
    decreases n,
{
    if n == 0 {
        1
    } else {
        10 * pow10((n - 1) as nat)
    }
}

pub open spec fn is_digit(c: char) -> bool {
    '0' <= c && c <= '9'
}

pub open spec fn digit_value(c: char) -> nat {
    (c as int - '0' as int) as nat
}

pub open spec fn all_digits(s: Seq<char>) -> bool {
    forall|i: int| 0 <= i < s.len() ==> is_digit(#[trigger] s[i])
}

/// The number written by a string of decimal digits (0 for the empty string).
pub open spec fn digits_value(s: Seq<char>) -> nat
    decreases s.len(),
{
    if s.len() == 0 {
        0
    } else {
        digits_value(s.drop_last()) * 10 + digit_value(s.last())
    }
}

/// Index of the first `'.'` in `s`, or `s.len()` when there is none.
pub open spec fn first_dot(s: Seq<char>) -> nat
    decreases s.len(),
{
    if s.len() == 0 {
        0
    } else if s[0] == '.' {
        0
    } else {
        1 + first_dot(s.drop_first())
    }
}

/// The text without an optional leading `'+'`.
pub open spec fn unsigned_text(s: Seq<char>) -> Seq<char> {
    if s.len() > 0 && s[0] == '+' {
        s.drop_first()
    } else {
        s
    }
}

/// Fixed-point units contributed by the digits after the decimal point:
/// the first `FRACTION_DIGITS` digits, scaled to `10^-8`.
pub open spec fn fraction_units(frac: Seq<char>) -> nat {
    let kept = if frac.len() <= 8 { frac } else { frac.take(8) };
    digits_value(kept) * pow10((8 - kept.len()) as nat)
}

/// Digits past the eighth decimal place are all zero, so the value is exact.
pub open spec fn exact_fraction(frac: Seq<char>) -> bool {
    forall|i: int| 8 <= i < frac.len() ==> #[trigger] frac[i] == '0'
}

/// The text is a plain decimal number: an optional `'+'`, then digits with
/// at most one `'.'` among them, and at least one digit.
pub open spec fn is_decimal_text(s: Seq<char>) -> bool {
    is_decimal_text_unsigned(unsigned_text(s))
}

/// The exact value of a decimal text, in fixed-point units.
pub open spec fn decimal_text_units(s: Seq<char>) -> nat {
    let t = unsigned_text(s);
    let k = first_dot(t);
    let int_part = t.take(k as int);
    if k == t.len() {
        digits_value(int_part) * pow10(8)
    } else {
        digits_value(int_part) * pow10(8) + fraction_units(t.skip(k as int + 1))
    }
}

/// What `parse_decimal` gives for a text: its value in fixed-point units when
/// the text is a decimal number whose value is exact at eight places and fits
/// in a `u64`, and `None` otherwise.
pub open spec fn decimal_units(s: Seq<char>) -> Option<u64> {
    let t = unsigned_text(s);
    let k = first_dot(t);
    if is_decimal_text(s) && (k == t.len() || exact_fraction(t.skip(k as int + 1)))
        && decimal_text_units(s) <= u64::MAX {
        Some(decimal_text_units(s) as u64)
    } else {
        None
    }
}

/// `10^8` is `UNITS_PER_ONE`.
pub proof fn lemma_pow10_8()
    ensures
        pow10(8) == 100_000_000,
{
    reveal_with_fuel(pow10, 9);
}

proof fn lemma_first_dot(s: Seq<char>, k: int)
    requires
        0 <= k <= s.len(),
        forall|i: int| 0 <= i < k ==> s[i] != '.',
        k == s.len() || s[k] == '.',
    ensures
        first_dot(s) == k,
    decreases s.len(),
{
    if s.len() == 0 {
    } else if s[0] == '.' {
    } else {
        lemma_first_dot(s.drop_first(), k - 1);
    }
}

proof fn lemma_digits_value_push(s: Seq<char>, c: char)
    ensures
        digits_value(s.push(c)) == digits_value(s) * 10 + digit_value(c),
{
    assert(s.push(c).drop_last() =~= s);
}

proof fn lemma_digits_value_monotone(s: Seq<char>, j: int, k: int)
    requires
        0 <= j <= k <= s.len(),
    ensures
        digits_value(s.take(j)) <= digits_value(s.take(k)),
    decreases k - j,
{
    if j < k {
        lemma_digits_value_monotone(s, j, k - 1);
        assert(s.take(k).drop_last() =~= s.take(k - 1));
    }
}

proof fn lemma_pow10_positive(n: nat)
    ensures
        pow10(n) >= 1,
    decreases n,
{
    if n > 0 {
        lemma_pow10_positive((n - 1) as nat);
    }
}

fn digit_of(c: char) -> (d: u64)
    requires
        is_digit(c),
    ensures
        d == digit_value(c),
        d < 10,
{
    (c as u32 - '0' as u32) as u64
}

/// Reads a decimal text such as `"0.55"`, `"+12"` or `"67432.15000000"` into
/// fixed-point units. Returns `None` for text that is not a plain decimal
/// number (signs other than a leading `'+'`, exponents, spaces, empty text),
/// for nonzero digits beyond the eighth decimal place, and for values too
/// large for a `u64`.
pub fn parse_decimal(s: &str) -> (r: Option<u64>)
    ensures
        r == decimal_units(s@),
{
    proof {
        lemma_pow10_8();
    }
    let n = s.unicode_len();
    let mut start: usize = 0;
    if n > 0 && s.get_char(0) == '+' {
        start = 1;
    }
    let ghost t = unsigned_text(s@);
    assert(t =~= s@.skip(start as int));
    // Integer part: digits up to the first '.'.
    let mut i: usize = start;
    let mut int_value: u64 = 0;
    let mut at_dot = false;
    while !at_dot && i < n
        invariant
            start <= i <= n,
            n == s@.len(),
            t == unsigned_text(s@),
            t =~= s@.skip(start as int),
            forall|j: int| start <= j < i ==> is_digit(#[trigger] s@[j]),
            at_dot ==> i < n && s@[i as int] == '.',
            int_value == digits_value(t.take(i - start)),
            int_value <= u64::MAX / 100_000_000,
        decreases n - i + (if at_dot { 0int } else { 1int }),
    {
        let c = s.get_char(i);
        if c == '.' {
            at_dot = true;
        } else {
            if !('0' <= c && c <= '9') {
                proof {
                    // `c` is neither a digit nor the first dot: the text is not decimal.
                    assert forall|m: int| 0 <= m < i - start implies t[m] != '.' by {
                        assert(t[m] == s@[m + start]);
                    }
                    lemma_first_dot_at_least(t, (i - start) as int);
                }
                return None;
            }
            let d = digit_of(c);
            proof {
                assert(t.take(i - start + 1) =~= t.take(i - start).push(c));
                lemma_digits_value_push(t.take(i - start), c);
            }
            if int_value > (u64::MAX / 100_000_000 - d) / 10 {
                proof {
                    assert forall|m: int| 0 <= m < i + 1 - start implies s@.skip(start as int)[m]
                        != '.' by {
                        assert(s@.skip(start as int)[m] == s@[m + start]);
                    }
                    lemma_too_large_int_part(s@, start as int, (i + 1 - start) as int);
                }
                return None;
            }
            int_value = int_value * 10 + d;
            i = i + 1;
        }
    }
    let k = i;
    proof {
        assert forall|j: int| 0 <= j < k - start implies t[j] != '.' by {
            assert(t[j] == s@[j + start]);
        }
        lemma_first_dot(t, k - start);
    }
    if k == n {
        if k == start {
            return None;
        }
        proof {
            assert forall|j: int| 0 <= j < t.take(k - start).len() implies is_digit(
                #[trigger] t.take(k - start)[j],
            ) by {
                assert(t.take(k - start)[j] == s@[j + start]);
            }
        }
        return Some(int_value * 100_000_000);
    }
    // Fraction part.
    let mut f: usize = k + 1;
    let mut frac_value: u64 = 0;
    let ghost frac = t.skip(k - start + 1);
    assert(frac =~= s@.skip(k + 1));
    while f < n && f - (k + 1) < 8
        invariant
            k + 1 <= f <= n,
            f - (k + 1) <= 8,
            n == s@.len(),
            frac =~= s@.skip(k + 1),
            t == unsigned_text(s@),
            first_dot(t) == k - start,
            frac == t.skip(k - start + 1),
            forall|j: int| k + 1 <= j < f ==> is_digit(#[trigger] s@[j]),
            frac_value == digits_value(frac.take(f - (k + 1))),
            frac_value < pow10((f - (k + 1)) as nat),
        decreases n - f,
    {
        let c = s.get_char(f);
        if !('0' <= c && c <= '9') {
            proof {
                assert(frac[f - (k + 1)] == c);
                assert(!is_digit(frac[f - (k + 1)]));
            }
            return None;
        }
        let d = digit_of(c);
        proof {
            assert(frac.take(f - (k + 1) + 1) =~= frac.take(f - (k + 1)).push(c));
            lemma_digits_value_push(frac.take(f - (k + 1)), c);
            assert(pow10((f - (k + 1) + 1) as nat) == 10 * pow10((f - (k + 1)) as nat));
            lemma_pow10_le_8((f - (k + 1) + 1) as nat);
        }
        frac_value = frac_value * 10 + d;
        f = f + 1;
    }
    let kept = f - (k + 1);
    // Remaining digits must be zeros.
    let mut z: usize = f;
    while z < n
        invariant
            f <= z <= n,
            n == s@.len(),
            frac =~= s@.skip(k + 1),
            t == unsigned_text(s@),
            first_dot(t) == k - start,
            frac == t.skip(k - start + 1),
            kept == f - (k + 1),
            kept < 8 ==> f == n,
            forall|j: int| f <= j < z ==> #[trigger] s@[j] == '0',
        decreases n - z,
    {
        let c = s.get_char(z);
        if c != '0' {
            proof {
                assert(frac[z - (k + 1)] == c);
                if !('0' <= c && c <= '9') {
                    assert(!is_digit(frac[z - (k + 1)]));
                } else {
                    assert(frac[z - (k + 1)] != '0');
                }
            }
            return None;
        }
        z = z + 1;
    }
    if k == start && n == k + 1 {
        // "." alone, or "+."
        proof {
            assert(t.take(k - start).len() == 0);
            assert(frac.len() == 0);
        }
        return None;
    }
    let mut scale: u64 = 1;
    let mut p: usize = kept;
    while p < 8
        invariant
            kept <= p <= 8,
            scale == pow10((p - kept) as nat),
        decreases 8 - p,
    {
        proof {
            lemma_pow10_le_8((p + 1 - kept) as nat);
            assert(pow10((p + 1 - kept) as nat) == 10 * pow10((p - kept) as nat));
        }
        scale = scale * 10;
        p = p + 1;
    }
    proof {
        let int_part = t.take(k - start);
        assert forall|j: int| 0 <= j < int_part.len() implies is_digit(#[trigger] int_part[j]) by {
            assert(int_part[j] == s@[j + start]);
        }
        assert forall|j: int| 0 <= j < frac.len() implies is_digit(#[trigger] frac[j]) by {
            assert(frac[j] == s@[j + k + 1]);
        }
        assert forall|j: int| 8 <= j < frac.len() implies #[trigger] frac[j] == '0' by {
            assert(frac[j] == s@[j + k + 1]);
        }
        let kept_seq = if frac.len() <= 8 { frac } else { frac.take(8) };
        assert(kept_seq =~= frac.take(kept as int));
        lemma_pow10_positive((8 - kept) as nat);
        assert(frac_value * scale < pow10(kept as nat) * pow10((8 - kept) as nat)) by (nonlinear_arith)
            requires
                frac_value < pow10(kept as nat),
                scale == pow10((8 - kept) as nat),
                scale >= 1,
        ;
        lemma_pow10_add(kept as nat, (8 - kept) as nat);
    }
    let frac_units = frac_value * scale;
    let int_units = int_value * 100_000_000;
    if frac_units > u64::MAX - int_units {
        return None;
    }
    Some(int_units + frac_units)
}

proof fn lemma_pow10_le_8(n: nat)
    requires
        n <= 8,
    ensures
        pow10(n) <= 100_000_000,
    decreases n,
{
    if n > 0 {
        lemma_pow10_le_8((n - 1) as nat);
    }
    reveal_with_fuel(pow10, 9);
}

proof fn lemma_pow10_add(a: nat, b: nat)
    ensures
        pow10(a) * pow10(b) == pow10(a + b),
    decreases a,
{
    if a > 0 {
        lemma_pow10_add((a - 1) as nat, b);
        assert(pow10(a + b) == 10 * pow10((a - 1 + b) as nat));
        assert(pow10(a) * pow10(b) == 10 * (pow10((a - 1) as nat) * pow10(b))) by (nonlinear_arith)
            requires
                pow10(a) == 10 * pow10((a - 1) as nat),
        ;
    } else {
        assert(pow10(0) == 1);
        assert(pow10(a) * pow10(b) == pow10(b)) by (nonlinear_arith)
            requires
                pow10(a) == 1,
        ;
        assert(a + b == b);
    }
}

/// A character before the first dot that is not a digit makes the text
/// non-decimal.
proof fn lemma_first_dot_at_least(t: Seq<char>, j: int)
    requires
        0 <= j < t.len(),
        forall|m: int| 0 <= m < j ==> t[m] != '.',
        t[j] != '.',
        !is_digit(t[j]),
    ensures
        !is_decimal_text_unsigned(t),
{
    let k = first_dot(t);
    lemma_first_dot_bounds(t);
    lemma_first_dot_skips(t, j);
    assert(t.take(k as int)[j] == t[j]);
}

/// `is_decimal_text` on text that has no leading sign removed yet.
pub open spec fn is_decimal_text_unsigned(t: Seq<char>) -> bool {
    let k = first_dot(t);
    let int_part = t.take(k as int);
    if k == t.len() {
        int_part.len() > 0 && all_digits(int_part)
    } else {
        let frac = t.skip(k as int + 1);
        all_digits(int_part) && all_digits(frac) && int_part.len() + frac.len() > 0
    }
}

proof fn lemma_first_dot_bounds(t: Seq<char>)
    ensures
        first_dot(t) <= t.len(),
        first_dot(t) < t.len() ==> t[first_dot(t) as int] == '.',
        forall|m: int| 0 <= m < first_dot(t) ==> t[m] != '.',
    decreases t.len(),
{
    if t.len() > 0 && t[0] != '.' {
        lemma_first_dot_bounds(t.drop_first());
        assert forall|m: int| 0 <= m < first_dot(t) implies t[m] != '.' by {
            if m > 0 {
                assert(t[m] == t.drop_first()[m - 1]);
            }
        }
    }
}

proof fn lemma_first_dot_skips(t: Seq<char>, j: int)
    requires
        0 <= j < t.len(),
        forall|m: int| 0 <= m <= j ==> t[m] != '.',
    ensures
        first_dot(t) > j,
    decreases j,
{
    if j > 0 {
        lemma_first_dot_skips(t.drop_first(), j - 1);
    }
}

proof fn lemma_too_large_int_part(s: Seq<char>, start: int, m: int)
    requires
        0 <= start <= s.len(),
        unsigned_text(s) =~= s.skip(start),
        0 < m <= s.len() - start,
        forall|j: int| 0 <= j < m ==> s.skip(start)[j] != '.',
        digits_value(s.skip(start).take(m)) > u64::MAX / 100_000_000,
    ensures
        decimal_units(s) is None,
{
    let t = s.skip(start);
    let k = first_dot(t);
    lemma_first_dot_bounds(t);
    lemma_first_dot_skips(t, m - 1);
    lemma_digits_value_monotone(t, m, k as int);
    assert(t.take(k as int).take(m) =~= t.take(m));
    lemma_pow10_8();
    assert(digits_value(t.take(k as int)) * pow10(8) > u64::MAX) by (nonlinear_arith)
        requires
            digits_value(t.take(k as int)) >= digits_value(t.take(m)),
            digits_value(t.take(m)) > u64::MAX / 100_000_000,
            pow10(8) == 100_000_000,
    ;
}

/// Appending a digit shifts the value by one place.
proof fn lemma_digits_value_push_digit(s: Seq<char>, c: char)
    ensures
        digits_value(s.push(c)) == digits_value(s) * 10 + digit_value(c),
{
    assert(s.push(c).drop_last() =~= s);
}

/// The character of a digit is a digit worth that much.
proof fn lemma_digit_char(d: nat)
    requires
        d < 10,
    ensures
        is_digit(digit_char(d)),
        digit_value(digit_char(d)) == d,
        digit_char(d) != '.',
{
}

/// A number's decimal representation is a nonempty run of digits worth the
/// number.
proof fn lemma_decimal_string_digits(n: nat)
    ensures
        decimal_string(n).len() > 0,
        all_digits(decimal_string(n)),
        digits_value(decimal_string(n)) == n,
    decreases n,
{
    lemma_digit_char(n % 10);
    if n < 10 {
        assert(n % 10 == n);
        assert(seq![digit_char(n)] =~= Seq::<char>::empty().push(digit_char(n)));
        lemma_digits_value_push_digit(Seq::<char>::empty(), digit_char(n));
        assert(digits_value(Seq::<char>::empty()) == 0);
    } else {
        lemma_decimal_string_digits(n / 10);
        lemma_digits_value_push_digit(decimal_string(n / 10), digit_char(n % 10));
        assert(n == (n / 10) * 10 + n % 10);
    }
}

/// The last `width` digits of `n` are `width` digits worth `n mod 10^width`.
proof fn lemma_zero_padded_digits(n: nat, width: nat)
    ensures
        zero_padded(n, width).len() == width,
        all_digits(zero_padded(n, width)),
        digits_value(zero_padded(n, width)) == n % pow10(width),
    decreases width,
{
    if width > 0 {
        lemma_zero_padded_digits(n / 10, (width - 1) as nat);
        lemma_digit_char(n % 10);
        lemma_digits_value_push_digit(zero_padded(n / 10, (width - 1) as nat), digit_char(n % 10));
        lemma_pow10_positive((width - 1) as nat);
        vstd::arithmetic::div_mod::lemma_mod_breakdown(n as int, 10, pow10((width - 1) as nat) as int);
        assert(pow10(width) == 10 * pow10((width - 1) as nat));
        assert(digits_value(zero_padded(n, width)) == (n / 10) % pow10((width - 1) as nat) * 10 + n % 10);
        assert(10 * ((n as int / 10) % pow10((width - 1) as nat) as int) == (n / 10) % pow10((width - 1) as nat) * 10);
    } else {
        assert(n % 1 == 0);
    }
}

/// The first dot of digits, a dot and more text is the one after the digits.
proof fn lemma_first_dot_after_digits(a: Seq<char>, t: Seq<char>)
    requires
        all_digits(a),
    ensures
        first_dot(a + seq!['.'] + t) == a.len(),
    decreases a.len(),
{
    if a.len() > 0 {
        let u = a + seq!['.'] + t;
        assert(u[0] == a[0]);
        assert(is_digit(a[0]));
        assert(u.drop_first() =~= a.drop_first() + seq!['.'] + t);
        assert(all_digits(a.drop_first())) by {
            assert forall|i: int| 0 <= i < a.drop_first().len() implies is_digit(#[trigger] a.drop_first()[i]) by {
                assert(a.drop_first()[i] == a[i + 1]);
            }
        }
        lemma_first_dot_after_digits(a.drop_first(), t);
    } else {
        assert((a + seq!['.'] + t)[0] == '.');
    }
}

/// Reading back a quantity written with all eight decimals gives the same
/// quantity: `parse_decimal` undoes `push_fixed(_, v, 8)`.
pub proof fn lemma_parse_reads_rendered(v: u64)
    ensures
        decimal_units(fixed_string(v as nat, 8)) == Some(v),
{
    lemma_pow10_8();
    reveal_with_fuel(pow10, 2);
    assert(pow10(0) == 1);
    let n = rounded_steps(v as nat, 8);
    assert((8 - 8) as nat == 0);
    assert(pow10((8 - 8) as nat) == 1);
    assert(v as nat / 1 == v as nat);
    assert(v as nat % 1 == 0);
    assert(n == v);
    let a = decimal_string(v as nat / 100_000_000);
    let f = zero_padded(v as nat % 100_000_000, 8);
    let t = fixed_string(v as nat, 8);
    assert(t == a + "."@ + f);
    reveal_strlit(".");
    assert("."@ =~= seq!['.']);
    lemma_decimal_string_digits(v as nat / 100_000_000);
    lemma_zero_padded_digits(v as nat % 100_000_000, 8);
    lemma_first_dot_after_digits(a, f);
    assert(unsigned_text(t) == t) by {
        assert(t[0] == a[0]);
        assert(is_digit(a[0]));
    }
    let k = first_dot(t);
    assert(k == a.len());
    assert(t.take(k as int) =~= a);
    assert(t.skip(k as int + 1) =~= f);
    assert((v as nat % 100_000_000) % 100_000_000 == v as nat % 100_000_000);
    assert(f.len() == 8);
    assert(fraction_units(f) == digits_value(f) * pow10(0));
    assert(fraction_units(f) == v as nat % 100_000_000);
    assert(decimal_text_units(t) == (v as nat / 100_000_000) * 100_000_000 + v as nat % 100_000_000);
    assert((v as nat / 100_000_000) * 100_000_000 + v as nat % 100_000_000 == v) by (nonlinear_arith);
}

} // verus!

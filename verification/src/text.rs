//! Text helpers: comparison, lower-casing and decimal rendering.
use vstd::prelude::*;
use vstd::string::*;

use crate::decimal::pow10;

verus! {

/// Whether two strings hold the same characters.
pub fn str_eq(a: &str, b: &str) -> (r: bool)
    ensures
        r == (a@ == b@),
{
    let n = a.unicode_len();
    if n != b.unicode_len() {
        return false;
    }
    let mut i: usize = 0;
    while i < n
        invariant
            n == a@.len(),
            n == b@.len(),
            i <= n,
            forall|j: int| 0 <= j < i ==> a@[j] == b@[j],
        decreases n - i,
    {
        if a.get_char(i) != b.get_char(i) {
            return false;
        }
        i = i + 1;
    }
    assert(a@ =~= b@);
    true
}

/// The lower-case form of a text, as `str::to_lowercase` computes it.
pub uninterp spec fn lowercase(s: Seq<char>) -> Seq<char>;

/// Every character is ASCII.
pub open spec fn all_ascii(s: Seq<char>) -> bool {
    forall|i: int| 0 <= i < s.len() ==> (#[trigger] s[i]) as u32 <= 0x7f
}

/// An ASCII letter in lower case; any other character unchanged.
pub open spec fn ascii_lower_char(c: char) -> char {
    if 'A' <= c && c <= 'Z' {
        ((c as u32) + 32) as char
    } else {
        c
    }
}

/// A text with its ASCII letters in lower case.
pub open spec fn ascii_lower(s: Seq<char>) -> Seq<char> {
    s.map_values(|c: char| ascii_lower_char(c))
}

/// The lower-case form of a text: for ASCII text its letters in lower case,
/// otherwise what `str::to_lowercase` computes.
pub open spec fn lower_text(s: Seq<char>) -> Seq<char> {
    if all_ascii(s) {
        ascii_lower(s)
    } else {
        lowercase(s)
    }
}

/// Calls `str::to_lowercase` (std). Trusted: the result is what the Unicode
/// lower-case mapping gives for the argument's characters, a function of
/// those characters alone; for an ASCII text that mapping turns `A`-`Z`
/// into `a`-`z` and keeps every other character. Beyond ASCII nothing more
/// is claimed.
#[verifier::external_body]
pub(crate) fn to_lowercase(s: &str) -> (r: String)
    ensures
        r@ == lowercase(s@),
        all_ascii(s@) ==> r@ == ascii_lower(s@),
{
    s.to_lowercase()
}

/// The character of a decimal digit.
pub open spec fn digit_char(d: nat) -> char {
    (('0' as int) + d) as char
}

/// Decimal representation of a natural number, without leading zeros.
pub open spec fn decimal_string(n: nat) -> Seq<char>
    decreases n,
{
    if n < 10 {
        seq![digit_char(n)]
    } else {
        decimal_string(n / 10).push(digit_char(n % 10))
    }
}

fn digit_str(d: u64) -> (s: &'static str)
    requires
        d < 10,
    ensures
        s@ == seq![digit_char(d as nat)],
{
    proof {
        reveal_strlit("0");
        reveal_strlit("1");
        reveal_strlit("2");
        reveal_strlit("3");
        reveal_strlit("4");
        reveal_strlit("5");
        reveal_strlit("6");
        reveal_strlit("7");
        reveal_strlit("8");
        reveal_strlit("9");
    }
    let s = if d == 0 {
        "0"
    } else if d == 1 {
        "1"
    } else if d == 2 {
        "2"
    } else if d == 3 {
        "3"
    } else if d == 4 {
        "4"
    } else if d == 5 {
        "5"
    } else if d == 6 {
        "6"
    } else if d == 7 {
        "7"
    } else if d == 8 {
        "8"
    } else {
        "9"
    };
    assert(s@ =~= seq![digit_char(d as nat)]);
    s
}

/// Appends the decimal representation of `n`.
pub fn push_decimal(out: &mut String, n: u64)
    ensures
        final(out)@ == old(out)@ + decimal_string(n as nat),
    decreases n,
{
    if n >= 10 {
        push_decimal(out, n / 10);
    }
    out.append(digit_str(n % 10));
    assert(old(out)@ + decimal_string(n as nat) =~= old(out)@ + (if n >= 10 {
        decimal_string((n / 10) as nat)
    } else {
        Seq::empty()
    }) + seq![digit_char((n % 10) as nat)]);
}

/// The last `width` decimal digits of `n`, with leading zeros.
pub open spec fn zero_padded(n: nat, width: nat) -> Seq<char>
    decreases width,
{
    if width == 0 {
        Seq::empty()
    } else {
        zero_padded(n / 10, (width - 1) as nat).push(digit_char(n % 10))
    }
}

/// Appends the last `width` decimal digits of `n`, with leading zeros.
fn push_zero_padded(out: &mut String, n: u64, width: u32)
    ensures
        final(out)@ == old(out)@ + zero_padded(n as nat, width as nat),
    decreases width,
{
    if width > 0 {
        push_zero_padded(out, n / 10, width - 1);
        out.append(digit_str(n % 10));
        assert(old(out)@ + zero_padded(n as nat, width as nat) =~= old(out)@ + zero_padded(
            (n / 10) as nat,
            (width - 1) as nat,
        ) + seq![digit_char((n % 10) as nat)]);
    } else {
        assert(old(out)@ + zero_padded(n as nat, width as nat) =~= old(out)@);
    }
}

/// `10^k` for `k` up to 8.
fn pow10_exec(k: u32) -> (r: u64)
    requires
        k <= 8,
    ensures
        r == pow10(k as nat),
        1 <= r <= 100_000_000,
{
    proof {
        reveal_with_fuel(pow10, 9);
    }
    match k {
        0 => 1,
        1 => 10,
        2 => 100,
        3 => 1_000,
        4 => 10_000,
        5 => 100_000,
        6 => 1_000_000,
        7 => 10_000_000,
        _ => 100_000_000,
    }
}

/// A quantity of `v` fixed-point units rounded to `places` decimals, as a
/// count of steps of `10^-places`; a half step rounds to the even count.
pub open spec fn rounded_steps(v: nat, places: nat) -> nat {
    let scale = pow10((8 - places) as nat);
    let q = v / scale;
    let r = v % scale;
    if 2 * r > scale || (2 * r == scale && q % 2 == 1) {
        q + 1
    } else {
        q
    }
}

/// A quantity of `v` fixed-point units written with exactly `places`
/// decimals, as `format!("{:.places$}")` writes the number it stands for.
pub open spec fn fixed_string(v: nat, places: nat) -> Seq<char> {
    let n = rounded_steps(v, places);
    if places == 0 {
        decimal_string(n)
    } else {
        decimal_string(n / pow10(places)) + "."@ + zero_padded(n % pow10(places), places)
    }
}

/// Appends a quantity of `v` fixed-point units with `places` decimals.
pub fn push_fixed(out: &mut String, v: u64, places: u32)
    requires
        places <= 8,
    ensures
        final(out)@ == old(out)@ + fixed_string(v as nat, places as nat),
{
    let scale = pow10_exec(8 - places);
    let q = v / scale;
    let r = v % scale;
    assert(r < scale);
    let n: u64 = if 2 * r > scale || (2 * r == scale && q % 2 == 1) {
        assert(scale >= 2);
        assert(q <= u64::MAX / 2) by (nonlinear_arith)
            requires
                q == v / scale,
                scale >= 2,
        ;
        q + 1
    } else {
        q
    };
    assert(n == rounded_steps(v as nat, places as nat));
    if places == 0 {
        push_decimal(out, n);
    } else {
        let unit = pow10_exec(places);
        push_decimal(out, n / unit);
        proof {
            reveal_strlit(".");
        }
        out.append(".");
        push_zero_padded(out, n % unit, places);
        assert(final(out)@ =~= old(out)@ + fixed_string(v as nat, places as nat));
    }
}

/// `s` right-aligned in a field of `width` characters: padded on the left
/// with spaces when shorter, unchanged when not.
pub open spec fn pad_left(s: Seq<char>, width: nat) -> Seq<char> {
    if s.len() >= width {
        s
    } else {
        Seq::new((width - s.len()) as nat, |i: int| ' ') + s
    }
}

/// Appends `s` right-aligned in a field of `width` characters.
pub fn push_padded(out: &mut String, s: &str, width: usize)
    ensures
        final(out)@ == old(out)@ + pad_left(s@, width as nat),
{
    let n = s.unicode_len();
    proof {
        reveal_strlit(" ");
    }
    if n < width {
        let mut i: usize = n;
        let ghost start = out@;
        while i < width
            invariant
                n <= i <= width,
                n == s@.len(),
                out@ == start + Seq::new((i - n) as nat, |j: int| ' '),
            decreases width - i,
        {
            proof {
                reveal_strlit(" ");
            }
            out.append(" ");
            assert(out@ =~= start + Seq::new((i + 1 - n) as nat, |j: int| ' '));
            i = i + 1;
        }
    }
    out.append(s);
    assert(final(out)@ =~= old(out)@ + pad_left(s@, width as nat));
}

/// Displayed form of a flag, `true` or `false`.
pub open spec fn bool_text(b: bool) -> Seq<char> {
    if b {
        "true"@
    } else {
        "false"@
    }
}

/// Appends `true` or `false`.
pub fn push_bool(out: &mut String, b: bool)
    ensures
        final(out)@ == old(out)@ + bool_text(b),
{
    if b {
        out.append("true");
    } else {
        out.append("false");
    }
}

} // verus!

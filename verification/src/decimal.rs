//! Decimal numerals read into fixed-point integers.
//!
//! A numeral is an optional sign, then decimal digits with at most one point
//! among them, and at least one digit in all. Its value is kept as a whole
//! number of units of 10^-12; fraction digits after the twelfth are checked
//! and dropped.

use vstd::prelude::*;

verus! {

/// How many units make one: 10^12.
pub const SCALE: i64 = 1_000_000_000_000;

/// Whether a byte is a decimal digit.
pub open spec fn is_digit(b: u8) -> bool {
    48 <= b <= 57
}

/// The number that a run of decimal digits writes.
pub open spec fn digits_value(s: Seq<u8>) -> int
    decreases s.len(),
{
    if s.len() == 0 {
        0
    } else {
        digits_value(s.drop_last()) * 10 + (s.last() - 48)
    }
}

/// How many bytes at the start of `s` are decimal digits.
pub open spec fn digit_run(s: Seq<u8>) -> nat
    decreases s.len(),
{
    if s.len() > 0 && is_digit(s[0]) {
        1 + digit_run(s.drop_first())
    } else {
        0
    }
}

/// Whether the numeral starts with a sign.
pub open spec fn has_sign(s: Seq<u8>) -> bool {
    s.len() > 0 && (s[0] == 43 || s[0] == 45)
}

/// Whether the numeral starts with a minus sign.
pub open spec fn is_negative(s: Seq<u8>) -> bool {
    s.len() > 0 && s[0] == 45
}

/// The numeral without its sign.
pub open spec fn unsigned_part(s: Seq<u8>) -> Seq<u8> {
    if has_sign(s) {
        s.drop_first()
    } else {
        s
    }
}

/// The digits before the point.
pub open spec fn whole_part(s: Seq<u8>) -> Seq<u8> {
    unsigned_part(s).take(digit_run(unsigned_part(s)) as int)
}

/// What follows the digits before the point: nothing, or the point and the
/// fraction.
pub open spec fn tail_part(s: Seq<u8>) -> Seq<u8> {
    unsigned_part(s).skip(digit_run(unsigned_part(s)) as int)
}

/// What follows the point; empty where there is no point.
pub open spec fn fraction_part(s: Seq<u8>) -> Seq<u8> {
    if tail_part(s).len() > 0 {
        tail_part(s).drop_first()
    } else {
        tail_part(s)
    }
}

/// Whether `s` is a numeral: after the optional sign come digits, then
/// nothing more or a point followed by digits only, with at least one digit
/// on one side of the point.
pub open spec fn is_decimal(s: Seq<u8>) -> bool {
    &&& tail_part(s).len() > 0 ==> tail_part(s)[0] == 46
    &&& digit_run(fraction_part(s)) == fraction_part(s).len()
    &&& whole_part(s).len() + fraction_part(s).len() > 0
}

/// Whether every byte of `s` is a decimal digit.
pub open spec fn all_digits(s: Seq<u8>) -> bool {
    forall|i: int| 0 <= i < s.len() ==> is_digit(s[i])
}

/// The smaller of two numbers.
pub open spec fn shorter(a: int, b: int) -> int {
    if a < b {
        a
    } else {
        b
    }
}

/// Ten to the power `n`.
pub open spec fn pow10(n: nat) -> int
    decreases n,
{
    if n == 0 {
        1
    } else {
        10 * pow10((n - 1) as nat)
    }
}

/// The fraction digits that are kept: the first twelve, or all where there
/// are fewer.
pub open spec fn kept_fraction(s: Seq<u8>) -> Seq<u8> {
    fraction_part(s).take(shorter(fraction_part(s).len() as int, 12))
}

/// The fraction of the numeral in units of 10^-12: the number written by the
/// kept fraction digits, as if zeros filled them up to twelve.
pub open spec fn fraction_value(s: Seq<u8>) -> int {
    digits_value(kept_fraction(s)) * pow10((12 - kept_fraction(s).len()) as nat)
}

/// The size of the numeral in units of 10^-12.
pub open spec fn decimal_magnitude(s: Seq<u8>) -> int {
    digits_value(whole_part(s)) * SCALE + fraction_value(s)
}

/// The value of the numeral in units of 10^-12, where `s` is a numeral and
/// the value fits the signed 64-bit range without its lowest number.
pub open spec fn decimal_value(s: Seq<u8>) -> Option<int> {
    if is_decimal(s) && decimal_magnitude(s) <= i64::MAX {
        Some(
            if is_negative(s) {
                -decimal_magnitude(s)
            } else {
                decimal_magnitude(s)
            },
        )
    } else {
        None
    }
}

/// `v`, or one more than `cap` where `v` is beyond `cap`.
spec fn capped(v: int, cap: int) -> int {
    if v > cap {
        cap + 1
    } else {
        v
    }
}

/// One more digit at the end takes the number times ten and adds the digit.
pub(crate) proof fn lemma_digits_push(s: Seq<u8>, d: u8)
    ensures
        digits_value(s.push(d)) == digits_value(s) * 10 + (d - 48),
{
    assert(s.push(d).drop_last() =~= s);
}

/// A run of `n` digits writes a number from zero up to, but not including,
/// ten to the power `n`.
proof fn lemma_digits_bound(s: Seq<u8>)
    requires
        all_digits(s),
    ensures
        0 <= digits_value(s) < pow10(s.len()),
    decreases s.len(),
{
    if s.len() > 0 {
        lemma_digits_bound(s.drop_last());
    }
}

/// A run of digits that stops at `k` has length `k`.
pub(crate) proof fn lemma_digit_run(s: Seq<u8>, k: int)
    requires
        0 <= k <= s.len(),
        forall|j: int| 0 <= j < k ==> is_digit(s[j]),
        k < s.len() ==> !is_digit(s[k]),
    ensures
        digit_run(s) == k,
    decreases k,
{
    if k > 0 {
        lemma_digit_run(s.drop_first(), k - 1);
    }
}

/// Ten to the twelfth is the scale, and no lower power of ten is beyond it.
pub(crate) proof fn lemma_pow10_12()
    ensures
        pow10(12) == 1_000_000_000_000,
        forall|n: nat| n <= 12 ==> 1 <= #[trigger] pow10(n) <= 1_000_000_000_000,
{
    reveal_with_fuel(pow10, 13);
}

/// Reads the digits of `text` from `from` on, up to the first byte that is no
/// digit. Returns where they end, and the number that the first `room` of
/// them write, capped at `cap + 1`.
fn take_digits(text: &[u8], from: usize, room: usize, cap: u64) -> (out: (usize, u64))
    requires
        from <= text.len(),
        cap <= 999_999_999_999,
    ensures
        from <= out.0 <= text.len(),
        digit_run(text@.skip(from as int)) == out.0 - from,
        all_digits(text@.skip(from as int).take(out.0 - from)),
        out.1 == capped(
            digits_value(text@.skip(from as int).take(shorter(out.0 - from, room as int))),
            cap as int,
        ),
{
    let n = text.len();
    let mut i: usize = from;
    let mut acc: u64 = 0;
    let ghost source = text@.skip(from as int);
    let ghost mut digits: Seq<u8> = Seq::empty();
    assert(source.take(0) =~= digits);
    while i < n && 48 <= text[i] && text[i] <= 57
        invariant
            from <= i <= n,
            n == text.len(),
            cap <= 999_999_999_999,
            source == text@.skip(from as int),
            forall|j: int| 0 <= j < i - from ==> is_digit(source[j]),
            digits == source.take(shorter(i - from, room as int)),
            all_digits(digits),
            acc == capped(digits_value(digits), cap as int),
        decreases n - i,
    {
        if i - from < room {
            proof {
                lemma_digits_push(digits, text@[i as int]);
                lemma_digits_bound(digits);
                digits = digits.push(text@[i as int]);
                assert(digits =~= source.take(i - from + 1));
            }
            let grown: u64 = acc * 10 + (text[i] - 48) as u64;
            acc = if grown > cap { cap + 1 } else { grown };
        }
        i = i + 1;
    }
    proof {
        lemma_digit_run(source, i - from);
    }
    (i, acc)
}

/// Brings the number written by `kept` fraction digits to twelve digits.
fn fill_fraction(value: u64, kept: usize) -> (out: u64)
    requires
        kept <= 12,
        value < pow10(kept as nat),
    ensures
        out == value * pow10((12 - kept) as nat),
        out < 1_000_000_000_000,
{
    let mut out: u64 = value;
    let mut k: usize = kept;
    proof {
        lemma_pow10_12();
        assert(value * pow10(0) == value) by (nonlinear_arith)
            requires
                pow10(0) == 1,
        ;
    }
    while k < 12
        invariant
            kept <= k <= 12,
            out == value * pow10((k - kept) as nat),
            out < pow10(k as nat),
            pow10(12) == 1_000_000_000_000,
        decreases 12 - k,
    {
        proof {
            let p = pow10((k - kept) as nat);
            assert(pow10((k + 1 - kept) as nat) == 10 * p);
            assert(pow10((k + 1) as nat) == 10 * pow10(k as nat));
            assert(value * (10 * p) == (value * p) * 10) by (nonlinear_arith);
            lemma_pow10_12();
            assert(pow10((k + 1) as nat) <= 1_000_000_000_000);
        }
        out = out * 10;
        k = k + 1;
    }
    out
}

/// Where the whole part is nothing but digits up to `whole_end`, the parts of
/// the numeral are these stretches of the text.
proof fn lemma_parts(s: Seq<u8>, start: int, whole_end: int)
    requires
        start == if has_sign(s) { 1int } else { 0int },
        start <= whole_end <= s.len(),
        digit_run(s.skip(start)) == whole_end - start,
    ensures
        whole_part(s) == s.skip(start).take(whole_end - start),
        tail_part(s) == s.skip(whole_end),
        whole_end < s.len() ==> fraction_part(s) == s.skip(whole_end + 1),
        whole_end == s.len() ==> fraction_part(s).len() == 0,
{
    assert(unsigned_part(s) =~= s.skip(start));
    assert(s.skip(start).skip(whole_end - start) =~= s.skip(whole_end));
    if whole_end < s.len() {
        assert(s.skip(whole_end).drop_first() =~= s.skip(whole_end + 1));
    }
}

/// Reads a numeral. The result is its value in units of 10^-12, or `None`
/// where the text is no numeral or its value is out of range.
pub fn parse_decimal(text: &[u8]) -> (value: Option<i64>)
    ensures
        match value {
            Some(v) => decimal_value(text@) == Some(v as int),
            None => decimal_value(text@) is None,
        },
{
    let n = text.len();
    let signed = n > 0 && (text[0] == 43 || text[0] == 45);
    let negative = n > 0 && text[0] == 45;
    let start: usize = if signed { 1 } else { 0 };
    let (whole_end, whole) = take_digits(text, start, usize::MAX, 9_223_372);
    proof {
        lemma_parts(text@, start as int, whole_end as int);
        lemma_pow10_12();
    }
    let mut fraction: u64 = 0;
    let mut fraction_len: usize = 0;
    if whole_end < n {
        if text[whole_end] != 46 {
            return None;
        }
        let (fraction_end, first) = take_digits(text, whole_end + 1, 12, 999_999_999_999);
        if fraction_end < n {
            return None;
        }
        fraction_len = fraction_end - (whole_end + 1);
        let kept: usize = if fraction_len < 12 { fraction_len } else { 12 };
        proof {
            let f = kept_fraction(text@);
            assert(all_digits(f));
            lemma_digits_bound(f);
        }
        fraction = fill_fraction(first, kept);
    } else {
        assert(kept_fraction(text@).len() == 0);
        assert(fraction_value(text@) == 0);
    }
    if whole_end - start + fraction_len == 0 {
        return None;
    }
    assert(is_decimal(text@));
    assert(fraction == fraction_value(text@));
    if whole > 9_223_372 {
        return None;
    }
    let magnitude: u64 = whole * 1_000_000_000_000 + fraction;
    assert(magnitude == decimal_magnitude(text@));
    if magnitude > i64::MAX as u64 {
        None
    } else if negative {
        Some(-(magnitude as i64))
    } else {
        Some(magnitude as i64)
    }
}

} // verus!

//! ASCII decimal numerals: how a natural number is written, and how a run of
//! digits is read back.

use vstd::prelude::*;

verus! {

/// Whether a byte is one of the digits `0` to `9`.
pub open spec fn is_digit(b: u8) -> bool {
    48 <= b <= 57
}

/// The minimal decimal numeral of `n`: no leading zero, except `0` itself.
pub open spec fn decimal(n: nat) -> Seq<u8>
    decreases n,
{
    if n < 10 {
        seq![(48 + n) as u8]
    } else {
        decimal(n / 10).push((48 + n % 10) as u8)
    }
}

/// The first position at or after `pos` that holds no digit.
pub open spec fn digits_end(s: Seq<u8>, pos: int) -> int
    decreases s.len() - pos,
{
    if 0 <= pos < s.len() && is_digit(s[pos]) {
        digits_end(s, pos + 1)
    } else {
        pos
    }
}

/// The number written by the digits at positions `start..end`.
pub open spec fn digits_value(s: Seq<u8>, start: int, end: int) -> nat
    decreases end - start,
{
    if end <= start {
        0
    } else {
        (digits_value(s, start, end - 1) * 10 + (s[end - 1] - 48)) as nat
    }
}

/// Whether every byte at the positions `start..end` is a digit.
pub open spec fn all_digits(s: Seq<u8>, start: int, end: int) -> bool {
    forall|i: int| start <= i < end ==> is_digit(#[trigger] s[i])
}

/// A run of digits ends within the input, holds digits only, and is
/// followed by no digit.
pub proof fn lemma_digits_end_bounds(s: Seq<u8>, pos: int)
    requires
        0 <= pos <= s.len(),
    ensures
        pos <= digits_end(s, pos) <= s.len(),
        all_digits(s, pos, digits_end(s, pos)),
        digits_end(s, pos) < s.len() ==> !is_digit(s[digits_end(s, pos)]),
    decreases s.len() - pos,
{
    if pos < s.len() && is_digit(s[pos]) {
        lemma_digits_end_bounds(s, pos + 1);
    }
}

/// A run of digits that stops at `end` is the run that `digits_end` finds.
pub proof fn lemma_digits_end_unique(s: Seq<u8>, pos: int, end: int)
    requires
        0 <= pos <= end <= s.len(),
        all_digits(s, pos, end),
        end < s.len() ==> !is_digit(s[end]),
    ensures
        digits_end(s, pos) == end,
    decreases end - pos,
{
    if pos < end {
        assert(is_digit(s[pos]));
        lemma_digits_end_unique(s, pos + 1, end);
    }
}

/// The value of a run of digits does not get smaller with more digits.
pub proof fn lemma_digits_value_monotone(s: Seq<u8>, start: int, mid: int, end: int)
    requires
        0 <= start <= mid <= end <= s.len(),
        all_digits(s, start, end),
    ensures
        digits_value(s, start, mid) <= digits_value(s, start, end),
    decreases end - mid,
{
    if mid < end {
        lemma_digits_value_monotone(s, start, mid, end - 1);
        assert(is_digit(s[end - 1]));
    }
}

/// The value of a run of digits depends only on the digits themselves.
pub proof fn lemma_digits_value_depends_on_range(
    s: Seq<u8>,
    start: int,
    end: int,
    t: Seq<u8>,
    offset: int,
)
    requires
        0 <= start <= end <= s.len(),
        0 <= start + offset,
        end + offset <= t.len(),
        forall|i: int| start <= i < end ==> s[i] == t[i + offset],
    ensures
        digits_value(s, start, end) == digits_value(t, start + offset, end + offset),
    decreases end - start,
{
    if start < end {
        lemma_digits_value_depends_on_range(s, start, end - 1, t, offset);
    }
}

/// A numeral is not empty, holds digits only, and starts with `0` only
/// where it is `0`.
pub proof fn lemma_decimal_shape(n: nat)
    ensures
        decimal(n).len() >= 1,
        all_digits(decimal(n), 0, decimal(n).len() as int),
        decimal(n)[0] == 48 <==> n == 0,
        n == 0 ==> decimal(n).len() == 1,
    decreases n,
{
    if n >= 10 {
        lemma_decimal_shape(n / 10);
        let d = decimal(n / 10);
        assert(decimal(n)[0] == d[0]);
        assert forall|i: int| 0 <= i < decimal(n).len() implies is_digit(
            #[trigger] decimal(n)[i],
        ) by {
            if i < d.len() {
                assert(decimal(n)[i] == d[i]);
            }
        }
    }
}

/// Reading a numeral back gives the number it was written from.
pub proof fn lemma_decimal_value(n: nat)
    ensures
        digits_value(decimal(n), 0, decimal(n).len() as int) == n,
    decreases n,
{
    let d = decimal(n);
    if n < 10 {
        assert(digits_value(d, 0, 0) == 0);
    } else {
        let p = decimal(n / 10);
        lemma_decimal_value(n / 10);
        lemma_digits_value_depends_on_range(p, 0, p.len() as int, d, 0);
        assert(d[d.len() - 1] == (48 + n % 10) as u8);
    }
}

/// Where the numeral of `n` stands at `pos` in `s` and no digit follows it,
/// the run of digits found at `pos` is that numeral and its value is `n`.
pub proof fn lemma_decimal_read_back(s: Seq<u8>, pos: int, n: nat)
    requires
        0 <= pos,
        pos + decimal(n).len() <= s.len(),
        s.subrange(pos, pos + decimal(n).len()) == decimal(n),
        pos + decimal(n).len() < s.len() ==> !is_digit(s[pos + decimal(n).len()]),
    ensures
        digits_end(s, pos) == pos + decimal(n).len(),
        digits_value(s, pos, pos + decimal(n).len()) == n,
        is_digit(s[pos]),
        s[pos] == 48 <==> n == 0,
{
    let d = decimal(n);
    let end = pos + d.len();
    lemma_decimal_shape(n);
    lemma_decimal_value(n);
    assert forall|i: int| pos <= i < end implies is_digit(#[trigger] s[i]) by {
        assert(s[i] == s.subrange(pos, end)[i - pos]);
    }
    assert(s[pos] == s.subrange(pos, end)[0]);
    lemma_digits_end_unique(s, pos, end);
    assert forall|i: int| 0 <= i < d.len() implies d[i] == s[i + pos] by {
        assert(s[i + pos] == s.subrange(pos, end)[i]);
    }
    lemma_digits_value_depends_on_range(d, 0, d.len() as int, s, pos);
}

/// Appends the decimal numeral of `n` to `out`.
pub fn push_decimal(out: &mut Vec<u8>, n: u128)
    ensures
        final(out)@ == old(out)@ + decimal(n as nat),
    decreases n,
{
    if n < 10 {
        out.push(48u8 + (n as u8));
        assert(out@ =~= old(out)@ + decimal(n as nat));
    } else {
        push_decimal(out, n / 10);
        out.push(48u8 + ((n % 10) as u8));
        assert(out@ =~= old(out)@ + decimal(n as nat));
    }
}

/// What a scan over a run of digits found: where the run ends, and its
/// value unless that exceeds `u128`.
pub struct DigitRun {
    pub end: usize,
    pub value: u128,
    pub overflow: bool,
}

/// Reads the run of digits that starts at `pos`.
pub fn scan_digits(input: &[u8], pos: usize) -> (run: DigitRun)
    requires
        pos <= input.len(),
    ensures
        run.end == digits_end(input@, pos as int),
        pos <= run.end <= input.len(),
        !run.overflow ==> run.value == digits_value(input@, pos as int, run.end as int),
        run.overflow ==> digits_value(input@, pos as int, run.end as int) > u128::MAX,
{
    let mut end: usize = pos;
    let mut value: u128 = 0;
    let mut overflow: bool = false;
    while end < input.len() && input[end] >= 48 && input[end] <= 57
        invariant
            pos <= end <= input.len(),
            all_digits(input@, pos as int, end as int),
            !overflow ==> value == digits_value(input@, pos as int, end as int),
            overflow ==> digits_value(input@, pos as int, end as int) > u128::MAX,
        decreases input.len() - end,
    {
        let digit: u128 = (input[end] - 48) as u128;
        if !overflow {
            if value > (u128::MAX - digit) / 10 {
                overflow = true;
            } else {
                value = value * 10 + digit;
            }
        }
        end += 1;
    }
    proof {
        lemma_digits_end_unique(input@, pos as int, end as int);
    }
    DigitRun { end, value, overflow }
}

} // verus!

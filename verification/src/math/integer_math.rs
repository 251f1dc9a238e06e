//! Decimal digit-count and digit-concatenation arithmetic over `u32`,
//! with overflow reported as `None` rather than wrapping.

use vstd::prelude::*;

verus! {

/// `10^n`, the mathematical power of ten.
pub open spec fn pow10(n: nat) -> nat
    decreases n,
{
    if n == 0 {
        1
    } else {
        10 * pow10((n - 1) as nat)
    }
}

/// Number of decimal digits needed to write `v`; `0` takes one digit.
pub open spec fn spec_digit_count(v: nat) -> nat
    decreases v,
{
    if v < 10 {
        1
    } else {
        1 + spec_digit_count(v / 10)
    }
}

/// The decimal digits of `right` appended after those of `left`, or
/// `None` when the scale `10^digit_count(right)` or any later step
/// leaves the `u32` range.
pub open spec fn spec_concat_u32(left: u32, right: u32) -> Option<u32> {
    let scale = pow10(spec_digit_count(right as nat));
    let combined = left * scale + right;
    if scale <= u32::MAX && combined <= u32::MAX {
        Some(combined as u32)
    } else {
        None
    }
}

pub proof fn lemma_pow10_increases(i: nat, j: nat)
    requires
        i <= j,
    ensures
        pow10(i) <= pow10(j),
    decreases j,
{
    if i < j {
        lemma_pow10_increases(i, (j - 1) as nat);
    }
}

proof fn lemma_pow10_ten()
    ensures
        pow10(10) == 10000000000,
{
    reveal_with_fuel(pow10, 11);
}

pub proof fn lemma_pow10_positive(n: nat)
    ensures
        pow10(n) >= 1,
    decreases n,
{
    if n > 0 {
        lemma_pow10_positive((n - 1) as nat);
    }
}

/// A digit count is pinned down by the two power-of-ten bounds around `v`.
proof fn lemma_digit_count_from_bounds(v: nat, d: nat)
    requires
        d >= 1,
        v < pow10(d),
        d > 1 ==> pow10((d - 1) as nat) <= v,
    ensures
        spec_digit_count(v) == d,
    decreases d,
{
    if d == 1 {
        assert(pow10(1) == 10) by {
            reveal_with_fuel(pow10, 2);
        }
    } else {
        lemma_pow10_increases(1, (d - 1) as nat);
        assert(pow10((d - 1) as nat) >= 10);
        let q = v / 10;
        vstd::arithmetic::div_mod::lemma_fundamental_div_mod(v as int, 10);
        vstd::arithmetic::div_mod::lemma_mod_division_less_than_divisor(v as int, 10);
        assert(v == 10 * q + v % 10);
        assert(pow10(d) == 10 * pow10((d - 1) as nat));
        assert(q < pow10((d - 1) as nat));
        if d > 2 {
            assert(pow10((d - 1) as nat) == 10 * pow10((d - 2) as nat));
            assert(q >= pow10((d - 2) as nat));
        }
        lemma_digit_count_from_bounds(q, (d - 1) as nat);
    }
}

/// Appending a single decimal digit multiplies by ten and adds the digit.
pub proof fn lemma_concat_single_digit(left: u32, d: u32)
    requires
        d < 10,
        left * 10 + d <= u32::MAX,
    ensures
        spec_concat_u32(left, d) == Some((left * 10 + d) as u32),
{
    assert(spec_digit_count(d as nat) == 1);
    assert(pow10(1) == 10) by {
        reveal_with_fuel(pow10, 2);
    }
}

/// Number of decimal digits needed to represent `value`; returns 1 for
/// `value == 0`. Computed by multiplying a width threshold by 10 until
/// it exceeds `value`.
pub fn u32_count(value: u32) -> (r: u32)
    ensures
        r == spec_digit_count(value as nat),
{
    let mut counter: u32 = 1;
    let mut width_meter: u64 = 10;

    proof {
        assert(pow10(1) == 10) by {
            reveal_with_fuel(pow10, 2);
        }
    }
    while width_meter <= value as u64
        invariant
            1 <= counter <= 10,
            10 <= width_meter,
            width_meter == pow10(counter as nat),
            counter > 1 ==> pow10((counter - 1) as nat) <= value as nat,
        decreases 10 - counter as int,
    {
        proof {
            // The next width still fits: the current one is at most `value`.
            assert(counter < 10) by {
                if counter >= 10 {
                    lemma_pow10_increases(10, counter as nat);
                    lemma_pow10_ten();
                }
            }
            lemma_pow10_positive(counter as nat);
        }
        width_meter = width_meter * 10;
        counter = counter + 1;
    }

    proof {
        lemma_digit_count_from_bounds(value as nat, counter as nat);
    }
    counter
}

/// Appends the decimal digits of `right` after those of `left`,
/// i.e. computes `left * 10^digit_count(right) + right`. Every step —
/// the power of ten, the multiplication and the addition — is checked,
/// and `None` is returned as soon as one of them would overflow `u32`.
pub fn concat_u32(left: u32, right: u32) -> (r: Option<u32>)
    ensures
        r == spec_concat_u32(left, right),
{
    let digits = u32_count(right);
    let ghost d = spec_digit_count(right as nat);

    let mut scale: u32 = 1;
    let mut i: u32 = 0;
    while i < digits
        invariant
            i <= digits,
            digits == d,
            scale == pow10(i as nat),
            pow10(d) > u32::MAX ==> spec_concat_u32(left, right) is None,
        decreases digits - i,
    {
        scale = match scale.checked_mul(10) {
            Some(next) => next,
            None => {
                proof {
                    lemma_pow10_increases(i as nat + 1, d as nat);
                }
                return None;
            },
        };
        i = i + 1;
    }

    let combined = match left.checked_mul(scale) {
        Some(product) => product.checked_add(right),
        None => None,
    };
    combined
}

} // verus!

//! The share of a count in a total as a percentage with one decimal place,
//! worked out as binary floating-point arithmetic of 53 significant bits
//! works it out: both numbers and their quotient are each rounded to the
//! nearest such number before the decimal place is rounded.

use vstd::arithmetic::power2::{
    lemma2_to64, lemma2_to64_rest, lemma_pow2_adds, lemma_pow2_strictly_increases,
    lemma_pow2_unfold, pow2,
};
use vstd::prelude::*;

verus! {

/// Two to the power of 52: the least mantissa of 53 significant bits.
pub const MANTISSA_LOW: u128 = 0x10_0000_0000_0000;

/// Two to the power of 53: above every mantissa of 53 significant bits.
pub const MANTISSA_HIGH: u128 = 0x20_0000_0000_0000;

/// The whole number nearest to `num / den`, and the even one where two are
/// equally near.
pub open spec fn rounded(num: nat, den: nat) -> nat {
    let whole = num / den;
    let rest = num % den;
    if 2 * rest > den || (2 * rest == den && whole % 2 == 1) {
        whole + 1
    } else {
        whole
    }
}

/// The number `mantissa * 2^exponent`.
pub struct Binary {
    pub mantissa: nat,
    pub exponent: int,
}

/// The binary number of 53 significant bits that is nearest to
/// `num / den * 2^exponent`, and of two that are equally near the one with the
/// even mantissa. The quotient is doubled or halved, against the exponent,
/// until it lies between the two bounds of the mantissa, and then rounded:
/// `lemma_nearest_doubled` and `lemma_nearest_halved` give the result in one step.
pub open spec fn nearest_binary(num: nat, den: nat, exponent: int) -> Binary
    decreases
        (if num < MANTISSA_LOW * den {
            MANTISSA_LOW * den - num
        } else if num >= MANTISSA_HIGH * den {
            num - MANTISSA_HIGH * den + 1
        } else {
            0
        }),
{
    if num == 0 || den == 0 {
        Binary { mantissa: 0, exponent }
    } else if num < MANTISSA_LOW * den {
        nearest_binary(2 * num, den, exponent - 1)
    } else if num >= MANTISSA_HIGH * den {
        nearest_binary(num, 2 * den, exponent + 1)
    } else {
        Binary { mantissa: rounded(num, den), exponent }
    }
}

/// Where `steps` doublings bring `num / den` between the bounds of the
/// mantissa, the nearest binary number is the doubled quotient, rounded, with
/// the exponent lowered by `steps`.
pub proof fn lemma_nearest_doubled(num: nat, den: nat, exponent: int, steps: nat)
    requires
        0 < den,
        MANTISSA_LOW * den <= num * pow2(steps) < MANTISSA_HIGH * den,
    ensures
        nearest_binary(num, den, exponent) == (Binary {
            mantissa: rounded(num * pow2(steps), den),
            exponent: exponent - steps,
        }),
    decreases steps,
{
    lemma2_to64();
    if steps > 0 {
        lemma_pow2_unfold(steps);
        let half = pow2((steps - 1) as nat);
        assert(num * pow2(steps) == (2 * num) * half) by (nonlinear_arith)
            requires
                pow2(steps) == 2 * half,
        ;
        assert(half >= 1) by {
            vstd::arithmetic::power2::lemma_pow2_pos((steps - 1) as nat);
        }
        assert(2 * num <= (2 * num) * half) by (nonlinear_arith)
            requires
                half >= 1,
        ;
        assert(num < MANTISSA_LOW * den);
        assert(num > 0) by (nonlinear_arith)
            requires
                0 < den,
                MANTISSA_LOW * den <= num * pow2(steps),
        ;
        lemma_nearest_doubled(2 * num, den, exponent - 1, (steps - 1) as nat);
        assert(nearest_binary(num, den, exponent) == nearest_binary(2 * num, den, exponent - 1));
    } else {
        assert(num * pow2(0) == num) by (nonlinear_arith)
            requires
                pow2(0) == 1,
        ;
    }
}

/// Where `steps` halvings bring `num / den` between the bounds of the
/// mantissa, the nearest binary number is the halved quotient, rounded, with
/// the exponent raised by `steps`.
pub proof fn lemma_nearest_halved(num: nat, den: nat, exponent: int, steps: nat)
    requires
        0 < den,
        MANTISSA_LOW * (den * pow2(steps)) <= num < MANTISSA_HIGH * (den * pow2(steps)),
    ensures
        nearest_binary(num, den, exponent) == (Binary {
            mantissa: rounded(num, den * pow2(steps)),
            exponent: exponent + steps,
        }),
    decreases steps,
{
    lemma2_to64();
    if steps > 0 {
        lemma_pow2_unfold(steps);
        let half = pow2((steps - 1) as nat);
        assert(den * pow2(steps) == (2 * den) * half) by (nonlinear_arith)
            requires
                pow2(steps) == 2 * half,
        ;
        assert(half >= 1) by {
            vstd::arithmetic::power2::lemma_pow2_pos((steps - 1) as nat);
        }
        assert(2 * den <= (2 * den) * half) by (nonlinear_arith)
            requires
                half >= 1,
        ;
        assert(num >= MANTISSA_HIGH * den);
        lemma_nearest_halved(num, 2 * den, exponent + 1, (steps - 1) as nat);
        assert(nearest_binary(num, den, exponent) == nearest_binary(num, 2 * den, exponent + 1));
    } else {
        assert(den * pow2(0) == den) by (nonlinear_arith)
            requires
                pow2(0) == 1,
        ;
    }
}

/// The share of `count` in `total` in tenths of a percent. A hundred times
/// the count and the total are each rounded to 53 significant bits, and so is
/// their quotient; the quotient is then rounded to the nearest tenth, and to
/// the even one where two are equally near.
pub open spec fn percent_tenths(count: nat, total: nat) -> nat {
    if count == 0 || total == 0 {
        0
    } else {
        let top = nearest_binary(100 * count, 1, 0);
        let bottom = nearest_binary(total, 1, 0);
        let quotient = nearest_binary(
            top.mantissa,
            bottom.mantissa,
            top.exponent - bottom.exponent,
        );
        if quotient.exponent >= 0 {
            10 * quotient.mantissa * pow2(quotient.exponent as nat)
        } else {
            rounded(10 * quotient.mantissa, pow2((-quotient.exponent) as nat))
        }
    }
}

/// Rounds `num / den` to the nearest whole number, and to the even one where
/// two are equally near.
pub fn round_half_even(num: u128, den: u128) -> (whole: u128)
    requires
        0 < den,
        num / den < u128::MAX,
    ensures
        whole == rounded(num as nat, den as nat),
{
    let whole = num / den;
    let rest = num % den;
    if rest > den - rest || (rest == den - rest && whole % 2 == 1) {
        whole + 1
    } else {
        whole
    }
}

/// Finds the binary number of 53 significant bits nearest to
/// `num / den * 2^exponent`, as its mantissa and its exponent.
pub fn nearest(num: u128, den: u128, exponent: i64) -> (found: (u64, i64))
    requires
        0 < num,
        0 < den <= MANTISSA_HIGH,
        -1000 <= exponent <= 1000,
    ensures
        (Binary { mantissa: found.0 as nat, exponent: found.1 as int }) == nearest_binary(
            num as nat,
            den as nat,
            exponent as int,
        ),
        MANTISSA_LOW <= found.0 <= MANTISSA_HIGH,
        exponent - 105 <= found.1 <= exponent + 75,
        found.1 > exponent ==> MANTISSA_LOW * pow2((found.1 - exponent) as nat) <= num,
        found.1 < exponent ==> pow2((exponent - found.1) as nat) < MANTISSA_HIGH * den,
        num < MANTISSA_HIGH * den ==> found.1 <= exponent,
{
    let ghost target = nearest_binary(num as nat, den as nat, exponent as int);
    let limit: u128 = MANTISSA_LOW * den;
    let mut n: u128 = num;
    let mut e: i64 = exponent;
    let ghost mut up: nat = 0;
    proof {
        lemma2_to64();
        lemma2_to64_rest();
        lemma_pow2_adds(52, 53);
        lemma_pow2_adds(64, 11);
        assert(pow2(105) == pow2(52) * pow2(53));
        assert(pow2(75) == pow2(64) * pow2(11));
    }
    while n < limit
        invariant
            0 < n,
            0 < den <= MANTISSA_HIGH,
            limit == MANTISSA_LOW * den,
            pow2(105) == MANTISSA_LOW * MANTISSA_HIGH,
            pow2(up) <= n,
            up <= 105,
            e == exponent - up,
            -1000 <= exponent <= 1000,
            up > 0 ==> n < MANTISSA_HIGH * den,
            up == 0 ==> n == num,
            nearest_binary(n as nat, den as nat, e as int) == target,
        decreases
            (if n < limit {
                limit - n
            } else {
                0
            }),
    {
        proof {
            if up >= 105 {
                if up > 105 {
                    lemma_pow2_strictly_increases(105, up);
                }
                assert(false);
            }
            lemma_pow2_unfold(up + 1);
            up = up + 1;
        }
        n = 2 * n;
        e = e - 1;
    }
    let mut d: u128 = den;
    let ghost mut down: nat = 0;
    let mut more = match MANTISSA_HIGH.checked_mul(d) {
        Some(bound) => n >= bound,
        None => false,
    };
    while more
        invariant
            0 < n,
            0 < d,
            pow2(75) == 0x1_0000_0000_0000_0000 * 2048,
            pow2(down) <= d,
            down <= 75,
            MANTISSA_LOW * d <= n,
            more == (n >= MANTISSA_HIGH * d),
            up == 0 ==> n == num,
            down > 0 ==> n == num && e == exponent + down,
            down == 0 ==> d == den && e == exponent - up,
            up > 0 ==> n < MANTISSA_HIGH * den && pow2(up) <= n,
            up <= 105,
            exponent - 105 <= e - down <= exponent,
            -1000 <= exponent <= 1000,
            nearest_binary(n as nat, d as nat, e as int) == target,
        decreases
            (if n >= MANTISSA_HIGH * d {
                n - MANTISSA_HIGH * d + 1
            } else {
                0
            }),
    {
        proof {
            if down >= 75 {
                if down > 75 {
                    lemma_pow2_strictly_increases(75, down);
                }
                assert(false);
            }
            lemma_pow2_unfold(down + 1);
            down = down + 1;
        }
        d = 2 * d;
        e = e + 1;
        more = match MANTISSA_HIGH.checked_mul(d) {
            Some(bound) => n >= bound,
            None => false,
        };
    }
    assert(n / d < MANTISSA_HIGH) by (nonlinear_arith)
        requires
            n < MANTISSA_HIGH * d,
            0 < d,
    ;
    assert(n / d >= MANTISSA_LOW) by (nonlinear_arith)
        requires
            MANTISSA_LOW * d <= n,
            0 < d,
    ;
    let mantissa = round_half_even(n, d);
    (mantissa as u64, e)
}

/// Works out `percent_tenths`.
pub fn percent_of(count: u64, total: u128) -> (tenths: u128)
    ensures
        tenths == percent_tenths(count as nat, total as nat),
{
    if count == 0 || total == 0 {
        return 0;
    }
    proof {
        lemma2_to64();
        lemma2_to64_rest();
    }
    let top = nearest(100 * (count as u128), 1, 0);
    let bottom = nearest(total, 1, 0);
    proof {
        if top.1 >= 19 {
            if top.1 > 19 {
                lemma_pow2_strictly_increases(19, top.1 as nat);
            }
            assert(false);
        }
        if bottom.1 <= -53 {
            if bottom.1 < -53 {
                lemma_pow2_strictly_increases(53, (-bottom.1) as nat);
            }
            assert(false);
        }
    }
    let quotient = nearest(top.0 as u128, bottom.0 as u128, top.1 - bottom.1);
    let mantissa = quotient.0;
    let exponent = quotient.1;
    let scaled: u128 = 10 * (mantissa as u128);
    let reach: i64 = if exponent >= 0 {
        exponent
    } else {
        -exponent
    };
    if reach >= 71 {
        proof {
            let den = pow2(reach as nat);
            lemma_pow2_strictly_increases(64, reach as nat);
            assert(scaled as nat / den == 0) by (nonlinear_arith)
                requires
                    scaled < den,
            ;
            assert(scaled as nat % den == scaled) by (nonlinear_arith)
                requires
                    scaled < den,
            ;
        }
        return 0;
    }
    let mut power: u128 = 1;
    let mut i: i64 = 0;
    proof {
        lemma_pow2_adds(64, 6);
        assert(pow2(70) == pow2(64) * pow2(6));
    }
    while i < reach
        invariant
            0 <= i <= reach <= 70,
            power == pow2(i as nat),
            0 < power <= 0x40_0000_0000_0000_0000,
            pow2(70) == 0x40_0000_0000_0000_0000,
        decreases reach - i,
    {
        proof {
            lemma_pow2_unfold((i + 1) as nat);
            if i + 1 < 70 {
                lemma_pow2_strictly_increases((i + 1) as nat, 70);
            }
        }
        power = 2 * power;
        i = i + 1;
    }
    if exponent >= 0 {
        assert(scaled * power <= 0x0140_0000_0000_0000 * 0x40_0000_0000_0000_0000)
            by (nonlinear_arith)
            requires
                scaled <= 0x0140_0000_0000_0000,
                power <= 0x40_0000_0000_0000_0000,
        ;
        scaled * power
    } else {
        round_half_even(scaled, power)
    }
}

} // verus!

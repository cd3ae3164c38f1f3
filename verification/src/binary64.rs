//! IEEE 754 binary64 numbers as bit patterns.
//!
//! A number cell is kept as the 64 bits that encode it. The sign, biased exponent and
//! fraction fields give the number's exact value, so whether a number is a whole number,
//! and which one, is decided with integer arithmetic alone.

use vstd::arithmetic::div_mod::{lemma_fundamental_div_mod, lemma_small_mod};
use vstd::arithmetic::mul::lemma_mul_is_commutative;
use vstd::arithmetic::power2::{lemma2_to64, lemma2_to64_rest, lemma_pow2_pos, lemma_pow2_strictly_increases, pow2};
use vstd::bits::{lemma_u64_shl_is_mul, lemma_u64_shr_is_div};
use vstd::prelude::*;

verus! {

/// Two to the power 52: the weight of the implicit leading bit of a normal number.
pub const HIDDEN_BIT: u64 = 0x10_0000_0000_0000;

/// A binary64 number, given by its bit pattern. Two values are equal when their bits are:
/// positive and negative zero differ, and a NaN equals itself.
#[derive(Clone, Copy, Debug, PartialEq, Eq, Structural)]
pub struct Binary64 {
    /// The sign bit, the eleven bits of the biased exponent and the 52 bits of the
    /// fraction, from the highest bit down.
    pub bits: u64,
}

impl Binary64 {
    /// The sign bit is set.
    pub open spec fn negative(self) -> bool {
        self.bits >= 0x8000_0000_0000_0000
    }

    /// The eleven exponent bits, read as a number from 0 to 2047.
    pub open spec fn biased_exponent(self) -> int {
        (self.bits as int / 0x10_0000_0000_0000) % 0x800
    }

    /// The low 52 bits.
    pub open spec fn fraction(self) -> int {
        self.bits as int % 0x10_0000_0000_0000
    }

    /// Neither an infinity nor a NaN.
    pub open spec fn finite(self) -> bool {
        self.biased_exponent() != 0x7ff
    }

    /// The integer `m` of the form `m * 2^e` of a finite number's magnitude.
    pub open spec fn significand(self) -> int {
        if self.biased_exponent() == 0 {
            self.fraction()
        } else {
            self.fraction() + 0x10_0000_0000_0000
        }
    }

    /// The exponent `e` of the form `m * 2^e` of a finite number's magnitude.
    pub open spec fn exponent(self) -> int {
        if self.biased_exponent() == 0 {
            -1074
        } else {
            self.biased_exponent() - 1075
        }
    }

    /// The number is finite and has no fractional part.
    pub open spec fn integral(self) -> bool {
        self.finite() && (self.exponent() >= 0 || self.significand() % (pow2(
            (-self.exponent()) as nat,
        ) as int) == 0)
    }

    /// The value of an integral number.
    pub open spec fn integer_value(self) -> int
        recommends
            self.integral(),
    {
        let magnitude = if self.exponent() >= 0 {
            self.significand() * pow2(self.exponent() as nat)
        } else {
            self.significand() / (pow2((-self.exponent()) as nat) as int)
        };
        if self.negative() {
            -magnitude
        } else {
            magnitude
        }
    }

    /// The number as a 64-bit integer, where it is one exactly.
    pub open spec fn exact_integer(self) -> Option<i64> {
        if self.integral() && i64::MIN <= self.integer_value() <= i64::MAX {
            Some(self.integer_value() as i64)
        } else {
            None
        }
    }

    /// The whole number nearest to the number times `factor`, a half rounded away from
    /// zero.
    pub open spec fn scaled(self, factor: int) -> int
        recommends
            self.finite(),
    {
        let n = self.significand() * factor;
        let magnitude = if self.exponent() >= 0 {
            n * pow2(self.exponent() as nat)
        } else {
            (2 * n + pow2((-self.exponent()) as nat)) / (2 * pow2((-self.exponent()) as nat) as int)
        };
        if self.negative() {
            -magnitude
        } else {
            magnitude
        }
    }

    /// The number times `factor`, rounded to the nearest whole number, where the number
    /// is finite and the result in the range of `i64`.
    pub open spec fn rounded_product(self, factor: u32) -> Option<i64> {
        if self.finite() && i64::MIN <= self.scaled(factor as int) <= i64::MAX {
            Some(self.scaled(factor as int) as i64)
        } else {
            None
        }
    }

    /// The number whose value is the whole number `i`, if there is one; for zero, positive
    /// zero. There is never more than one (see [`lemma_integer_value_unique`]).
    pub open spec fn of_integer(i: i64) -> Option<Binary64> {
        if exists|b: Binary64| b.represents(i) {
            Some(choose|b: Binary64| b.represents(i))
        } else {
            None
        }
    }

    /// The number has exactly the value `i`, and is positive zero where `i` is zero.
    pub open spec fn represents(self, i: i64) -> bool {
        self.exact_integer() == Some(i) && (i == 0 ==> self.bits == 0)
    }

    /// The number with the given bit pattern.
    pub fn from_bits(bits: u64) -> (r: Binary64)
        ensures
            r.bits == bits,
    {
        Binary64 { bits }
    }

    /// The bit pattern of the number.
    pub fn to_bits(self) -> (r: u64)
        ensures
            r == self.bits,
    {
        self.bits
    }

    /// Whether the number is neither an infinity nor a NaN.
    pub fn is_finite(self) -> (r: bool)
        ensures
            r == self.finite(),
    {
        let biased: u64 = (self.bits >> 52) & 0x7ff;
        proof {
            lemma_fields(self.bits);
        }
        biased != 0x7ff
    }

    /// The number as a 64-bit integer: `Some` exactly when the number is finite, has no
    /// fractional part and lies in the range of `i64`. Nothing is rounded or truncated.
    pub fn to_integer(self) -> (r: Option<i64>)
        ensures
            r == self.exact_integer(),
    {
        let biased: u64 = (self.bits >> 52) & 0x7ff;
        let fraction: u64 = self.bits & 0xf_ffff_ffff_ffff;
        let negative: bool = self.bits >= 0x8000_0000_0000_0000;
        proof {
            lemma_fields(self.bits);
            lemma2_to64();
            lemma2_to64_rest();
        }
        if biased == 0x7ff {
            return None;
        }
        if biased == 0 {
            proof {
                lemma_pow2_strictly_increases(52, 1074);
                lemma_small_mod(fraction as nat, pow2(1074));
                if fraction == 0 {
                    assert(0int / (pow2(1074) as int) == 0);
                }
            }
            return if fraction == 0 {
                Some(0)
            } else {
                None
            };
        }
        let m: u64 = fraction + HIDDEN_BIT;
        if biased >= 1075 {
            let shift: u64 = biased - 1075;
            proof {
                lemma_scaled_bounds(m as int, shift as nat);
            }
            if shift <= 10 {
                proof {
                    lemma_u64_shl_is_mul(m, shift);
                }
                let magnitude: u64 = m << shift;
                if negative {
                    Some(-(magnitude as i64))
                } else {
                    Some(magnitude as i64)
                }
            } else if shift == 11 && negative && m == HIDDEN_BIT {
                Some(i64::MIN)
            } else {
                None
            }
        } else {
            let shift: u64 = 1075 - biased;
            if shift >= 53 {
                proof {
                    lemma_pow2_monotone(53, shift as nat);
                    lemma_small_mod(m as nat, pow2(shift as nat));
                }
                None
            } else {
                let quotient: u64 = m >> shift;
                proof {
                    let p = pow2(shift as nat) as int;
                    lemma_pow2_pos(shift as nat);
                    lemma_u64_shr_is_div(m, shift);
                    lemma_fundamental_div_mod(m as int, p);
                    lemma_mul_is_commutative(p, quotient as int);
                    assert(quotient * p <= m);
                    lemma_u64_shl_is_mul(quotient, shift);
                    assert(quotient <= m) by (nonlinear_arith)
                        requires
                            quotient * p <= m,
                            p >= 1,
                            quotient >= 0,
                    ;
                }
                if (quotient << shift) == m {
                    if negative {
                        Some(-(quotient as i64))
                    } else {
                        Some(quotient as i64)
                    }
                } else {
                    None
                }
            }
        }
    }

    /// The number times `factor`, rounded to the nearest whole number, a half away from
    /// zero: `Some` exactly when the number is finite and the result lies in the range of
    /// `i64`. The product is the exact one: it is rounded once, at the end.
    pub fn times_rounded(self, factor: u32) -> (r: Option<i64>)
        ensures
            r == self.rounded_product(factor),
    {
        let biased: u64 = (self.bits >> 52) & 0x7ff;
        let fraction: u64 = self.bits & 0xf_ffff_ffff_ffff;
        let negative: bool = self.bits >= 0x8000_0000_0000_0000;
        proof {
            lemma_fields(self.bits);
            lemma2_to64();
        }
        if biased == 0x7ff {
            return None;
        }
        let m: u64 = if biased == 0 {
            fraction
        } else {
            fraction + HIDDEN_BIT
        };
        assert(m as int * factor as int <= 0x20_0000_0000_0000 * 0x1_0000_0000) by (nonlinear_arith)
            requires
                0 <= m < 0x20_0000_0000_0000,
                0 <= factor < 0x1_0000_0000,
        ;
        let n: u128 = m as u128 * factor as u128;
        let mut magnitude: u128 = n;
        if biased >= 1075 {
            let e: u64 = biased - 1075;
            let mut i: u64 = 0;
            proof {
                assert(n * pow2(0) == n) by (nonlinear_arith)
                    requires
                        pow2(0) == 1,
                ;
                if n == 0 {
                    assert(n * pow2(e as nat) == 0) by (nonlinear_arith)
                        requires
                            n == 0,
                    ;
                }
            }
            if n > 0x8000_0000_0000_0000 {
                proof {
                    lemma_pow2_pos(e as nat);
                    assert(n * pow2(e as nat) >= n) by (nonlinear_arith)
                        requires
                            pow2(e as nat) >= 1,
                            n >= 0,
                    ;
                }
                return None;
            }
            while i < e && magnitude != 0
                invariant
                    i <= e,
                    magnitude == n * pow2(i as nat),
                    magnitude <= 0x8000_0000_0000_0000,
                    n <= 0x20_0000_0000_0000 * 0x1_0000_0000,
                    n == self.significand() * factor,
                    e == self.exponent(),
                    self.finite(),
                decreases e - i,
            {
                proof {
                    lemma_double(n as int, i as nat);
                }
                if magnitude > 0x4000_0000_0000_0000 {
                    proof {
                        lemma_pow2_monotone((i + 1) as nat, e as nat);
                        assert(n * pow2(e as nat) >= n * pow2((i + 1) as nat)) by (nonlinear_arith)
                            requires
                                pow2(e as nat) >= pow2((i + 1) as nat),
                                n >= 0,
                        ;
                    }
                    return None;
                }
                magnitude = magnitude * 2;
                i = i + 1;
            }
            proof {
                if magnitude == 0 {
                    lemma_pow2_pos(i as nat);
                    assert(n == 0) by (nonlinear_arith)
                        requires
                            n * pow2(i as nat) == 0,
                            pow2(i as nat) > 0,
                            n >= 0,
                    ;
                    assert(n * pow2(e as nat) == 0) by (nonlinear_arith)
                        requires
                            n == 0,
                    ;
                }
            }
        } else {
            let k: u64 = if biased == 0 {
                1074
            } else {
                1075 - biased
            };
            if k >= 87 {
                proof {
                    let p = pow2(k as nat) as int;
                    lemma_pow2_monotone(87, k as nat);
                    vstd::arithmetic::power2::lemma_pow2_adds(64, 23);
                    assert(pow2(87) == 0x80_0000_0000_0000_0000_0000);
                    vstd::arithmetic::div_mod::lemma_basic_div(2 * n + p, 2 * p);
                }
                magnitude = 0;
            } else {
                let mut p: u128 = 1;
                let mut i: u64 = 0;
                while i < k
                    invariant
                        i <= k < 87,
                        p >= 1,
                        p == pow2(i as nat),
                        p <= 0x40_0000_0000_0000_0000_0000,
                    decreases k - i,
                {
                    proof {
                        vstd::arithmetic::power2::lemma_pow2_unfold((i + 1) as nat);
                        lemma_pow2_monotone((i + 1) as nat, 86);
                        vstd::arithmetic::power2::lemma_pow2_adds(64, 22);
                        lemma2_to64();
                    }
                    p = p * 2;
                    i = i + 1;
                }
                magnitude = (2 * n + p) / (2 * p);
                proof {
                    vstd::arithmetic::div_mod::lemma_div_nonincreasing((2 * n + p) as int, (2 * p) as int);
                }
            }
        }
        if negative {
            if magnitude <= 0x8000_0000_0000_0000 {
                if magnitude == 0x8000_0000_0000_0000 {
                    Some(i64::MIN)
                } else {
                    Some(-(magnitude as i64))
                }
            } else {
                None
            }
        } else {
            if magnitude <= 0x7fff_ffff_ffff_ffff {
                Some(magnitude as i64)
            } else {
                None
            }
        }
    }

    /// The number whose value is `i`: `Some` exactly when some binary64 number has that
    /// value, which holds up to `2^53` in magnitude and, beyond, for the whole numbers with
    /// no more than 53 significant bits. Zero is given as positive zero.
    pub fn from_integer(i: i64) -> (r: Option<Binary64>)
        ensures
            r == Binary64::of_integer(i),
            match r {
                Some(b) => b.exact_integer() == Some(i) && (i == 0 ==> b.bits == 0),
                None => forall|b: Binary64| b.exact_integer() != Some(i),
            },
    {
        proof {
            lemma2_to64();
        }
        if i == 0 {
            let zero = Binary64 { bits: 0 };
            proof {
                lemma_pow2_pos(1074);
                assert(0int % (pow2(1074) as int) == 0);
                assert(0int / (pow2(1074) as int) == 0);
                assert(zero.represents(i));
                assert(Binary64::of_integer(i)->0.bits == 0);
            }
            return Some(zero);
        }
        let negative: bool = i < 0;
        let magnitude: u64 = if negative {
            (-(i + 1)) as u64 + 1
        } else {
            i as u64
        };
        let mut m: u64 = magnitude;
        let mut biased: u64 = 1075;
        proof {
            assert(magnitude * pow2(0) == magnitude) by (nonlinear_arith)
                requires
                    pow2(0) == 1,
            ;
        }
        if magnitude < HIDDEN_BIT {
            while m < HIDDEN_BIT
                invariant
                    0 < m < 2 * HIDDEN_BIT,
                    1023 <= biased <= 1075,
                    m == magnitude * pow2((1075 - biased) as nat),
                    0 < magnitude < HIDDEN_BIT,
                decreases biased,
            {
                proof {
                    let k = (1075 - biased) as nat;
                    lemma_double(magnitude as int, k);
                    if biased == 1023 {
                        lemma2_to64_rest();
                        assert(magnitude * pow2(52) >= pow2(52)) by (nonlinear_arith)
                            requires
                                magnitude >= 1,
                        ;
                    }
                }
                m = m * 2;
                biased = biased - 1;
            }
            proof {
                let k = (1075 - biased) as nat;
                let p = pow2(k) as int;
                lemma_pow2_pos(k);
                lemma_mul_is_commutative(magnitude as int, p);
                vstd::arithmetic::div_mod::lemma_mod_multiples_basic(magnitude as int, p);
                vstd::arithmetic::div_mod::lemma_div_by_multiple(magnitude as int, p);
            }
        } else {
            while m >= 2 * HIDDEN_BIT
                invariant
                    m >= HIDDEN_BIT,
                    1075 <= biased <= 1086,
                    magnitude == m * pow2((biased - 1075) as nat),
                    magnitude <= 0x8000_0000_0000_0000,
                    magnitude == i || magnitude == -i,
                decreases m,
            {
                proof {
                    let e = (biased - 1075) as nat;
                    lemma2_to64();
                    if e >= 11 {
                        lemma_pow2_monotone(11, e);
                        assert(m * pow2(e) > 0x8000_0000_0000_0000) by (nonlinear_arith)
                            requires
                                m >= 0x20_0000_0000_0000,
                                pow2(e) >= 0x800,
                        ;
                    }
                }
                if m % 2 == 1 {
                    proof {
                        lemma_not_representable(
                            magnitude as int,
                            m as int,
                            (biased - 1075) as nat,
                        );
                    }
                    return None;
                }
                proof {
                    lemma_halve(m as int, (biased - 1075) as nat);
                }
                m = m / 2;
                biased = biased + 1;
            }
        }
        let sign: u64 = if negative {
            0x8000_0000_0000_0000
        } else {
            0
        };
        let b = Binary64 { bits: sign + biased * HIDDEN_BIT + (m - HIDDEN_BIT) };
        proof {
            assert(b.biased_exponent() == biased);
            assert(b.fraction() == m - HIDDEN_BIT);
            assert(b.negative() == negative);
            assert(b.significand() == m);
            assert(b.integer_value() == i);
            assert(b.represents(i));
            lemma_integer_value_unique(b, Binary64::of_integer(i)->0);
        }
        Some(b)
    }
}

/// Scaling by the next power of two doubles.
proof fn lemma_double(x: int, k: nat)
    ensures
        x * pow2(k + 1) == 2 * (x * pow2(k)),
{
    vstd::arithmetic::power2::lemma_pow2_unfold(k + 1);
    assert(x * (2 * pow2(k)) == 2 * (x * pow2(k))) by (nonlinear_arith);
}

/// Half an even number, scaled by the next power of two, is the number scaled by this one.
proof fn lemma_halve(m: int, e: nat)
    requires
        m % 2 == 0,
    ensures
        (m / 2) * pow2(e + 1) == m * pow2(e),
{
    lemma_double(m / 2, e);
    assert(2 * ((m / 2) * pow2(e)) == (2 * (m / 2)) * pow2(e)) by (nonlinear_arith);
}

/// Powers of two grow with the exponent.
proof fn lemma_pow2_monotone(a: nat, b: nat)
    requires
        a <= b,
    ensures
        pow2(a) <= pow2(b),
{
    if a < b {
        lemma_pow2_strictly_increases(a, b);
    }
}

/// How large a normal number's significand becomes when it is scaled by `2^shift`: below
/// `2^63` up to a shift of ten, and at least `2^63` from eleven on, with equality only for
/// the smallest significand at eleven.
proof fn lemma_scaled_bounds(m: int, shift: nat)
    requires
        0x10_0000_0000_0000 <= m < 0x20_0000_0000_0000,
    ensures
        shift <= 10 ==> m * pow2(shift) < 0x8000_0000_0000_0000,
        shift >= 11 ==> m * pow2(shift) >= 0x8000_0000_0000_0000,
        shift >= 11 ==> (m * pow2(shift) == 0x8000_0000_0000_0000 <==> shift == 11 && m
            == 0x10_0000_0000_0000),
{
    lemma2_to64();
    let p = pow2(shift) as int;
    if shift <= 10 {
        lemma_pow2_monotone(shift, 10);
        assert(m * p < 0x8000_0000_0000_0000) by (nonlinear_arith)
            requires
                0 <= m < 0x20_0000_0000_0000,
                0 <= p <= 0x400,
        ;
    } else if shift == 11 {
        assert(m * p == 0x800 * m) by (nonlinear_arith)
            requires
                p == 0x800,
        ;
    } else {
        lemma_pow2_monotone(12, shift);
        assert(m * p > 0x8000_0000_0000_0000) by (nonlinear_arith)
            requires
                0x10_0000_0000_0000 <= m,
                p >= 0x1000,
        ;
    }
}

/// Two normal significands that give the same value when scaled by powers of two are the
/// same, and so are the powers.
proof fn lemma_same_scale(m1: int, e1: nat, m2: int, e2: nat)
    requires
        0x10_0000_0000_0000 <= m1 < 0x20_0000_0000_0000,
        0x10_0000_0000_0000 <= m2 < 0x20_0000_0000_0000,
        m1 * pow2(e1) == m2 * pow2(e2),
    ensures
        e1 == e2,
        m1 == m2,
    decreases
            if e1 <= e2 {
                0int
            } else {
                1int
            },
{
    if e1 > e2 {
        lemma_same_scale(m2, e2, m1, e1);
    } else {
        let d = (e2 - e1) as nat;
        let p1 = pow2(e1) as int;
        let pd = pow2(d) as int;
        lemma_pow2_pos(e1);
        vstd::arithmetic::power2::lemma_pow2_adds(e1, d);
        assert(m2 * (p1 * pd) == p1 * (m2 * pd)) by (nonlinear_arith);
        lemma_mul_is_commutative(m1, p1);
        vstd::arithmetic::mul::lemma_mul_equality_converse(p1, m1, m2 * pd);
        if d >= 1 {
            lemma2_to64();
            lemma_pow2_monotone(1, d);
            assert(m2 * pd >= 2 * m2) by (nonlinear_arith)
                requires
                    pd >= 2,
                    m2 >= 0,
            ;
        } else {
            lemma2_to64();
            assert(m2 * pd == m2) by (nonlinear_arith)
                requires
                    pd == 1,
            ;
        }
    }
}

/// Two numbers with the same whole-number value, other than zero, are the same number.
pub proof fn lemma_integer_value_unique(a: Binary64, b: Binary64)
    requires
        a.integral(),
        b.integral(),
        a.integer_value() == b.integer_value(),
        a.integer_value() != 0,
    ensures
        a == b,
{
    lemma_normal(a);
    lemma_normal(b);
    let v = if a.integer_value() < 0 {
        -a.integer_value()
    } else {
        a.integer_value()
    };
    let (ma, mb) = (a.significand(), b.significand());
    if a.exponent() >= 0 && b.exponent() >= 0 {
        lemma_same_scale(ma, a.exponent() as nat, mb, b.exponent() as nat);
    } else if a.exponent() < 0 && b.exponent() < 0 {
        let ka = (-a.exponent()) as nat;
        let kb = (-b.exponent()) as nat;
        let pa = pow2(ka) as int;
        let pb = pow2(kb) as int;
        assert(ma * pb == mb * pa) by (nonlinear_arith)
            requires
                ma == v * pa,
                mb == v * pb,
        ;
        lemma_same_scale(ma, kb, mb, ka);
    } else if a.exponent() >= 0 {
        lemma_mixed_scale(ma, a.exponent() as nat, mb, (-b.exponent()) as nat, v);
    } else {
        lemma_mixed_scale(mb, b.exponent() as nat, ma, (-a.exponent()) as nat, v);
    }
    assert(a.biased_exponent() == b.biased_exponent());
    assert(a.fraction() == b.fraction());
    assert(a.negative() == b.negative());
    assert(a.bits == b.bits);
}

/// A value that is a normal significand scaled up, and that gives a normal significand
/// when it is scaled up again, is not scaled at all.
proof fn lemma_mixed_scale(m1: int, e1: nat, m2: int, k2: nat, v: int)
    requires
        0x10_0000_0000_0000 <= m1 < 0x20_0000_0000_0000,
        0x10_0000_0000_0000 <= m2 < 0x20_0000_0000_0000,
        v == m1 * pow2(e1),
        m2 == v * pow2(k2),
    ensures
        e1 == 0,
        k2 == 0,
{
    lemma2_to64();
    vstd::arithmetic::power2::lemma_pow2_adds(e1, k2);
    let p1 = pow2(e1) as int;
    let p2 = pow2(k2) as int;
    assert((m1 * p1) * p2 == m1 * (p1 * p2)) by (nonlinear_arith);
    assert(m2 * pow2(0) == m2) by (nonlinear_arith)
        requires
            pow2(0) == 1,
    ;
    lemma_same_scale(m2, 0, m1, e1 + k2);
}

/// An integral number other than zero is a normal number: its significand has the
/// implicit leading bit. Its value is its significand scaled by a power of two, and has
/// the sign that the sign bit says.
proof fn lemma_normal(x: Binary64)
    requires
        x.integral(),
        x.integer_value() != 0,
    ensures
        0x10_0000_0000_0000 <= x.significand() < 0x20_0000_0000_0000,
        x.biased_exponent() == x.exponent() + 1075,
        x.fraction() == x.significand() - 0x10_0000_0000_0000,
        x.negative() <==> x.integer_value() < 0,
        x.exponent() >= 0 ==> (if x.negative() {
            -x.integer_value()
        } else {
            x.integer_value()
        }) == x.significand() * pow2(x.exponent() as nat),
        x.exponent() < 0 ==> x.significand() == (if x.negative() {
            -x.integer_value()
        } else {
            x.integer_value()
        }) * pow2((-x.exponent()) as nat),
{
    lemma2_to64();
    lemma2_to64_rest();
    let sig = x.significand();
    if x.biased_exponent() == 0 {
        lemma_pow2_strictly_increases(52, 1074);
        lemma_small_mod(sig as nat, pow2(1074));
        assert(0int / (pow2(1074) as int) == 0);
        assert(false);
    }
    if x.exponent() >= 0 {
        lemma_pow2_pos(x.exponent() as nat);
        assert(sig * pow2(x.exponent() as nat) > 0) by (nonlinear_arith)
            requires
                sig > 0,
                pow2(x.exponent() as nat) > 0,
        ;
    } else {
        let p = pow2((-x.exponent()) as nat) as int;
        lemma_pow2_pos((-x.exponent()) as nat);
        lemma_fundamental_div_mod(sig, p);
        lemma_mul_is_commutative(p, sig / p);
        assert(sig / p >= 0) by (nonlinear_arith)
            requires
                sig == (sig / p) * p,
                sig > 0,
                p > 0,
        ;
    }
}

/// A whole number with more than 53 significant bits is the value of no binary64 number:
/// here `magnitude` is an odd `m` of at least `2^53`, times a power of two.
proof fn lemma_not_representable(magnitude: int, m: int, k: nat)
    requires
        magnitude == m * pow2(k),
        m % 2 == 1,
        m >= 0x20_0000_0000_0000,
    ensures
        forall|b: Binary64|
            !(b.integral() && (b.integer_value() == magnitude || b.integer_value() == -magnitude)),
{
    assert forall|b: Binary64|
        !(b.integral() && (b.integer_value() == magnitude || b.integer_value()
            == -magnitude)) by {
        if b.integral() && (b.integer_value() == magnitude || b.integer_value() == -magnitude) {
            let sig = b.significand();
            lemma_pow2_pos(k);
            assert(magnitude >= m) by (nonlinear_arith)
                requires
                    magnitude == m * pow2(k),
                    pow2(k) >= 1,
                    m >= 0,
            ;
            if b.exponent() < 0 {
                let p = pow2((-b.exponent()) as nat) as int;
                lemma_pow2_pos((-b.exponent()) as nat);
                vstd::arithmetic::div_mod::lemma_div_nonincreasing(sig, p);
                assert(false);
            } else {
                let e = b.exponent() as nat;
                assert(sig * pow2(e) == m * pow2(k));
                if e > k {
                    let d = (e - k) as nat;
                    vstd::arithmetic::power2::lemma_pow2_adds(k, d);
                    vstd::arithmetic::power2::lemma_pow2_unfold(d);
                    let half = pow2((d - 1) as nat) as int;
                    let pk = pow2(k) as int;
                    assert(sig * (pk * (2 * half)) == pk * (2 * (sig * half)))
                        by (nonlinear_arith);
                    lemma_mul_is_commutative(m, pk);
                    vstd::arithmetic::mul::lemma_mul_equality_converse(pk, 2 * (sig * half), m);
                    assert(false);
                } else {
                    let d = (k - e) as nat;
                    vstd::arithmetic::power2::lemma_pow2_adds(e, d);
                    lemma_pow2_pos(d);
                    lemma_pow2_pos(e);
                    let pe = pow2(e) as int;
                    let pd = pow2(d) as int;
                    assert(m * (pe * pd) == pe * (m * pd)) by (nonlinear_arith);
                    lemma_mul_is_commutative(sig, pe);
                    vstd::arithmetic::mul::lemma_mul_equality_converse(pe, sig, m * pd);
                    assert(m * pd >= m) by (nonlinear_arith)
                        requires
                            pd >= 1,
                            m >= 0,
                    ;
                    assert(false);
                }
            }
        }
    }
}

/// The shifts and masks that read a bit pattern's fields agree with the arithmetic that
/// defines them.
proof fn lemma_fields(bits: u64)
    ensures
        ((bits >> 52) & 0x7ff) as int == (bits as int / 0x10_0000_0000_0000) % 0x800,
        (bits & 0xf_ffff_ffff_ffff) as int == bits as int % 0x10_0000_0000_0000,
        (bits & 0xf_ffff_ffff_ffff) < 0x10_0000_0000_0000,
        ((bits >> 52) & 0x7ff) < 0x800,
{
    assert(((bits >> 52) & 0x7ff) == (bits / 0x10_0000_0000_0000) % 0x800) by (bit_vector);
    assert((bits & 0xf_ffff_ffff_ffff) == bits % 0x10_0000_0000_0000) by (bit_vector);
    assert((bits & 0xf_ffff_ffff_ffff) < 0x10_0000_0000_0000) by (bit_vector);
    assert(((bits >> 52) & 0x7ff) < 0x800) by (bit_vector);
}

} // verus!

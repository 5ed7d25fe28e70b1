//! Single-precision numbers held as their IEEE 754 binary32 bit patterns.
//!
//! Verified code never performs rounded arithmetic. It reads a pattern as the
//! exact dyadic rational it denotes, compares patterns, negates them and
//! converts small integers, all of which is exact. Every finite binary32
//! value is an integer multiple of 2^-149, so the model works with
//! `value * 2^149`, an integer, and never needs a fraction.
use vstd::arithmetic::power2::{lemma_pow2_adds, lemma_pow2_pos, lemma_pow2_strictly_increases, pow2};
use vstd::prelude::*;

verus! {

/// The sign bit of a binary32 pattern.
pub const SIGN_BIT: u32 = 0x8000_0000;

/// The implicit leading bit of a normal significand, 2^23.
pub const HIDDEN_BIT: u32 = 0x0080_0000;

/// The magnitude bits of an infinity; larger magnitudes are NaNs.
pub const INFINITY_BITS: u32 = 0x7f80_0000;

/// The pattern of 1.0.
pub const ONE_BITS: u32 = 0x3f80_0000;

/// The pattern of 0.5.
pub const HALF_BITS: u32 = 0x3f00_0000;

/// A binary32 number, stored as its bit pattern.
#[derive(Clone, Copy, PartialEq, Eq, Debug, Structural)]
pub struct Scalar {
    pub bits: u32,
}

/// Three scalars: a point, a direction or a clip-space position.
#[derive(Clone, Copy, PartialEq, Eq, Debug, Structural)]
pub struct Vector3 {
    pub x: Scalar,
    pub y: Scalar,
    pub z: Scalar,
}

/// The rounded operations that only the host's floating-point unit performs.
/// `SquareRoot` reads its first operand and ignores the second.
#[derive(Clone, Copy, PartialEq, Eq, Debug, Structural)]
pub enum Operation {
    Add,
    Subtract,
    Multiply,
    Divide,
    SquareRoot,
}

/// How an exact product stands to a bound.
#[derive(Clone, Copy, PartialEq, Eq, Debug, Structural)]
pub enum Standing {
    Below,
    Level,
    Above,
}

/// The arithmetic accepts every operation on every pair of operands.
pub open spec fn accepts_all<K: Fn(Operation, Scalar, Scalar) -> Scalar>(arithmetic: &K) -> bool {
    forall|op: Operation, a: Scalar, b: Scalar| arithmetic.requires((op, a, b))
}

/// The arithmetic is a function: one operation on one pair of operands has
/// one result.
pub open spec fn single_valued<K: Fn(Operation, Scalar, Scalar) -> Scalar>(arithmetic: &K) -> bool {
    forall|op: Operation, a: Scalar, b: Scalar, first: Scalar, second: Scalar|
        #[trigger] arithmetic.ensures((op, a, b), first) && #[trigger] arithmetic.ensures(
            (op, a, b),
            second,
        ) ==> first == second
}

/// 2^149: the factor between a value and its scaled integer.
pub open spec fn unit_scale() -> nat {
    pow2(149)
}

/// The significand of a magnitude pattern (a pattern without its sign bit):
/// the fraction field, with the hidden bit in front unless the exponent
/// field is 0 (a subnormal or a zero).
pub open spec fn significand_of(magnitude: nat) -> nat {
    if magnitude / 0x80_0000 == 0 {
        magnitude % 0x80_0000
    } else {
        0x80_0000 + magnitude % 0x80_0000
    }
}

/// The power of two by which the significand of a magnitude pattern is
/// multiplied in its scaled integer: 0 for exponent fields 0 and 1, and one
/// more for each further field.
pub open spec fn shift_of(magnitude: nat) -> nat {
    if magnitude / 0x80_0000 == 0 {
        0
    } else {
        (magnitude / 0x80_0000 - 1) as nat
    }
}

/// The scaled integer of a magnitude pattern. Exponent field 0 holds
/// `fraction * 2^-149`; every other field `e` holds
/// `(2^23 + fraction) * 2^(e - 150)`.
pub open spec fn magnitude_scaled(magnitude: nat) -> nat {
    significand_of(magnitude) * pow2(shift_of(magnitude))
}

impl Scalar {
    /// The pattern without its sign bit.
    pub open spec fn magnitude(self) -> nat {
        (self.bits % 0x8000_0000) as nat
    }

    /// Whether the sign bit is set; it is set in the negative zero too.
    pub open spec fn is_negative(self) -> bool {
        self.bits >= 0x8000_0000
    }

    /// Whether the pattern is not a number: a magnitude beyond the infinity's.
    pub open spec fn is_nan(self) -> bool {
        self.magnitude() > 0x7f80_0000
    }

    /// The denoted value times 2^149. For a finite pattern this is exact. An
    /// infinity gets a magnitude beyond every finite one, so the order of
    /// scaled integers is the IEEE order of all patterns but NaNs. Both
    /// zeros give 0.
    pub open spec fn scaled(self) -> int {
        if self.is_negative() {
            -(magnitude_scaled(self.magnitude()) as int)
        } else {
            magnitude_scaled(self.magnitude()) as int
        }
    }

    /// The same magnitude under the opposite sign.
    pub open spec fn spec_negated(self) -> Scalar {
        if self.bits >= 0x8000_0000 {
            Scalar { bits: (self.bits - 0x8000_0000) as u32 }
        } else {
            Scalar { bits: (self.bits + 0x8000_0000) as u32 }
        }
    }

    /// IEEE `<`: false whenever a NaN takes part.
    pub open spec fn spec_lt(self, other: Scalar) -> bool {
        !self.is_nan() && !other.is_nan() && self.scaled() < other.scaled()
    }

    /// IEEE `<=`: false whenever a NaN takes part.
    pub open spec fn spec_le(self, other: Scalar) -> bool {
        !self.is_nan() && !other.is_nan() && self.scaled() <= other.scaled()
    }

    /// The pattern is the non-negative binary32 number equal to the integer `n`.
    pub open spec fn denotes_integer(self, n: nat) -> bool {
        !self.is_nan() && !self.is_negative() && self.scaled() == n * unit_scale()
    }

    /// How `factor` times the denoted value stands to `bound`, in exact
    /// arithmetic.
    pub open spec fn product_standing(self, factor: nat, bound: nat) -> Standing {
        if factor * self.scaled() < bound * unit_scale() {
            Standing::Below
        } else if factor * self.scaled() == bound * unit_scale() {
            Standing::Level
        } else {
            Standing::Above
        }
    }

    /// `self`, or `floor` where `self` is below it or a NaN.
    pub open spec fn spec_at_least(self, floor: Scalar) -> Scalar {
        if self.is_nan() || self.spec_lt(floor) {
            floor
        } else {
            self
        }
    }

    /// `self`, or `cap` where `self` is above it or a NaN.
    pub open spec fn spec_at_most(self, cap: Scalar) -> Scalar {
        if self.is_nan() || cap.spec_lt(self) {
            cap
        } else {
            self
        }
    }

    /// The number with the given pattern.
    pub fn from_bits(bits: u32) -> (r: Scalar)
        ensures
            r.bits == bits,
    {
        Scalar { bits }
    }

    /// The pattern of the number.
    pub fn to_bits(self) -> (bits: u32)
        ensures
            bits == self.bits,
    {
        self.bits
    }

    /// Positive zero.
    pub fn zero() -> (r: Scalar)
        ensures
            r.bits == 0,
            r.scaled() == 0,
            !r.is_nan(),
    {
        proof {
            lemma_magnitude_order(0, 0);
        }
        Scalar { bits: 0 }
    }

    /// 1.0.
    pub fn one() -> (r: Scalar)
        ensures
            r.bits == ONE_BITS,
            r.scaled() == unit_scale(),
            !r.is_nan(),
    {
        proof {
            lemma_one_scaled();
        }
        Scalar { bits: ONE_BITS }
    }

    /// 0.5.
    pub fn half() -> (r: Scalar)
        ensures
            r.bits == HALF_BITS,
            2 * r.scaled() == unit_scale(),
            !r.is_nan(),
    {
        proof {
            lemma_half_scaled();
        }
        Scalar { bits: HALF_BITS }
    }

    /// Whether the pattern is not a number.
    pub fn check_nan(self) -> (r: bool)
        ensures
            r == self.is_nan(),
    {
        self.bits % SIGN_BIT > INFINITY_BITS
    }

    /// The significand of the magnitude, below 2^24.
    pub fn significand(self) -> (r: u32)
        ensures
            r == significand_of(self.magnitude()),
            r < 0x100_0000,
    {
        let magnitude: u32 = self.bits % SIGN_BIT;
        if magnitude / HIDDEN_BIT == 0 {
            magnitude % HIDDEN_BIT
        } else {
            HIDDEN_BIT + magnitude % HIDDEN_BIT
        }
    }

    /// The power of two that scales the significand, at most 254.
    pub fn shift(self) -> (r: u32)
        ensures
            r == shift_of(self.magnitude()),
            r <= 254,
    {
        let magnitude: u32 = self.bits % SIGN_BIT;
        if magnitude / HIDDEN_BIT == 0 {
            0
        } else {
            magnitude / HIDDEN_BIT - 1
        }
    }

    /// Whether the sign bit is set.
    pub fn sign_bit(self) -> (r: bool)
        ensures
            r == self.is_negative(),
    {
        self.bits >= SIGN_BIT
    }

    /// The same magnitude under the opposite sign.
    pub fn negated(self) -> (r: Scalar)
        ensures
            r == self.spec_negated(),
            r.magnitude() == self.magnitude(),
            r.is_negative() != self.is_negative(),
            r.is_nan() == self.is_nan(),
            r.scaled() == -self.scaled(),
    {
        if self.bits >= SIGN_BIT {
            Scalar { bits: self.bits - SIGN_BIT }
        } else {
            Scalar { bits: self.bits + SIGN_BIT }
        }
    }

    /// IEEE `self < other`.
    pub fn lt(self, other: Scalar) -> (r: bool)
        ensures
            r == self.spec_lt(other),
    {
        if self.check_nan() || other.check_nan() {
            return false;
        }
        let a: u32 = self.bits % SIGN_BIT;
        let b: u32 = other.bits % SIGN_BIT;
        proof {
            lemma_magnitude_order(a as nat, b as nat);
            lemma_magnitude_order(b as nat, a as nat);
            lemma_magnitude_order(0, a as nat);
            lemma_magnitude_order(0, b as nat);
        }
        if self.bits >= SIGN_BIT {
            if other.bits >= SIGN_BIT {
                b < a
            } else {
                a > 0 || b > 0
            }
        } else {
            if other.bits >= SIGN_BIT {
                false
            } else {
                a < b
            }
        }
    }

    /// IEEE `self <= other`.
    pub fn le(self, other: Scalar) -> (r: bool)
        ensures
            r == self.spec_le(other),
    {
        if self.check_nan() || other.check_nan() {
            return false;
        }
        !other.lt(self)
    }

    /// The larger of `self` and `floor`; `floor` where `self` is a NaN.
    pub fn at_least(self, floor: Scalar) -> (r: Scalar)
        ensures
            r == self.spec_at_least(floor),
    {
        if self.check_nan() || self.lt(floor) {
            floor
        } else {
            self
        }
    }

    /// The smaller of `self` and `cap`; `cap` where `self` is a NaN.
    pub fn at_most(self, cap: Scalar) -> (r: Scalar)
        ensures
            r == self.spec_at_most(cap),
    {
        if self.check_nan() || cap.lt(self) {
            cap
        } else {
            self
        }
    }

    /// The binary32 number equal to the integer `n`, which is below 2^24
    /// and so has one.
    pub fn from_small(n: u32) -> (r: Scalar)
        requires
            n < 0x100_0000,
        ensures
            r == small_integer(n as nat),
            r.denotes_integer(n as nat),
    {
        if n == 0 {
            let r = Scalar { bits: 0 };
            proof {
                lemma_magnitude_order(0, 0);
                assert(r.denotes_integer(0)) by (nonlinear_arith)
                    requires
                        r.bits == 0,
                        r.scaled() == 0,
                        !r.is_nan(),
                        !r.is_negative(),
                ;
                lemma_integer_pattern_unique(r, small_integer(0), 0);
            }
            return r;
        }
        let mut significand: u32 = n;
        let mut exponent: u32 = 150;
        proof {
            vstd::arithmetic::power2::lemma2_to64();
            assert(n * pow2(0) == n) by (nonlinear_arith)
                requires
                    pow2(0) == 1,
            ;
        }
        while significand < HIDDEN_BIT
            invariant
                0 < significand < 0x100_0000,
                exponent <= 150,
                significand == n * pow2((150 - exponent) as nat),
                n >= 1,
            decreases exponent,
        {
            proof {
                vstd::arithmetic::power2::lemma2_to64();
                lemma_pow2_adds(1, (150 - exponent) as nat);
                let p = pow2((150 - exponent) as nat);
                assert(2 * (n * p) == n * (2 * p)) by (nonlinear_arith);
                // 23 doublings at most: the significand is at least 2^doublings
                lemma_pow2_pos((150 - exponent) as nat);
                assert(p <= n * p) by (nonlinear_arith)
                    requires
                        n >= 1,
                        p > 0,
                ;
                if 150 - exponent >= 23 {
                    if 150 - exponent > 23 {
                        lemma_pow2_strictly_increases(23, (150 - exponent) as nat);
                    }
                    assert(false);
                }
            }
            significand = significand * 2;
            exponent = exponent - 1;
        }
        proof {
            vstd::arithmetic::power2::lemma2_to64();
            let p = pow2((150 - exponent) as nat);
            lemma_pow2_pos((150 - exponent) as nat);
            assert(p <= n * p) by (nonlinear_arith)
                requires
                    n >= 1,
                    p > 0,
            ;
            if 150 - exponent >= 24 {
                if 150 - exponent > 24 {
                    lemma_pow2_strictly_increases(24, (150 - exponent) as nat);
                }
                assert(false);
            }
        }
        let r = Scalar { bits: exponent * HIDDEN_BIT + (significand - HIDDEN_BIT) };
        proof {
            let magnitude = r.magnitude();
            assert(magnitude == exponent * 0x80_0000 + (significand - 0x80_0000));
            assert(magnitude / 0x80_0000 == exponent as nat);
            assert(magnitude % 0x80_0000 == (significand - 0x80_0000) as nat);
            assert(significand_of(magnitude) == significand);
            assert(shift_of(magnitude) == (exponent - 1) as nat);
            lemma_pow2_adds((150 - exponent) as nat, (exponent - 1) as nat);
            let p = pow2((150 - exponent) as nat);
            let q = pow2((exponent - 1) as nat);
            assert((n * p) * q == n * (p * q)) by (nonlinear_arith);
            assert(r.denotes_integer(n as nat));
            lemma_integer_pattern_unique(r, small_integer(n as nat), n as nat);
        }
        r
    }

    /// How `factor` times the value stands to `bound`, computed exactly.
    pub fn compare_product(self, factor: u32, bound: u64) -> (r: Standing)
        requires
            !self.is_nan(),
        ensures
            r == self.product_standing(factor as nat, bound as nat),
    {
        let significand = self.significand();
        let shift = self.shift();
        proof {
            assert(factor * significand < 0x1_0000_0000 * 0x100_0000) by (nonlinear_arith)
                requires
                    0 <= factor < 0x1_0000_0000,
                    0 <= significand < 0x100_0000,
            ;
            lemma_product_standing(
                self,
                factor as nat,
                bound as nat,
            );
            lemma_pow2_pos(149);
            vstd::arithmetic::power2::lemma2_to64();
            vstd::arithmetic::power2::lemma2_to64_rest();
        }
        let multiple: u64 = (factor as u64) * (significand as u64);
        if multiple == 0 {
            return if bound == 0 {
                Standing::Level
            } else {
                Standing::Below
            };
        }
        if self.sign_bit() {
            return Standing::Below;
        }
        if shift >= 149 {
            let d: u32 = shift - 149;
            if d >= 64 {
                proof {
                    if 64 < d {
                        lemma_pow2_strictly_increases(64, d as nat);
                    }
                    assert(multiple * pow2(d as nat) >= pow2(d as nat)) by (nonlinear_arith)
                        requires
                            multiple >= 1,
                            pow2(d as nat) > 0,
                    ;
                }
                return Standing::Above;
            }
            let power = power_of_two(d);
            proof {
                if d < 63 {
                    lemma_pow2_strictly_increases(d as nat, 63);
                }
                assert(multiple * power < 0x100_0000_0000_0000 * 0x1_0000_0000_0000_0000)
                    by (nonlinear_arith)
                    requires
                        0 <= multiple < 0x100_0000_0000_0000,
                        0 <= power < 0x1_0000_0000_0000_0000,
                ;
            }
            let left: u128 = (multiple as u128) * power;
            let right: u128 = bound as u128;
            if left < right {
                Standing::Below
            } else if left == right {
                Standing::Level
            } else {
                Standing::Above
            }
        } else {
            let k: u32 = 149 - shift;
            if k >= 64 {
                proof {
                    if 64 < k {
                        lemma_pow2_strictly_increases(64, k as nat);
                    }
                    lemma_pow2_pos(k as nat);
                    if bound >= 1 {
                        assert(bound * pow2(k as nat) >= pow2(k as nat)) by (nonlinear_arith)
                            requires
                                bound >= 1,
                                pow2(k as nat) > 0,
                        ;
                    } else {
                        assert(bound * pow2(k as nat) == 0) by (nonlinear_arith)
                            requires
                                bound == 0,
                        ;
                    }
                }
                return if bound == 0 {
                    Standing::Above
                } else {
                    Standing::Below
                };
            }
            let power = power_of_two(k);
            proof {
                if k < 63 {
                    lemma_pow2_strictly_increases(k as nat, 63);
                }
                assert(bound * power < 0x1_0000_0000_0000_0000 * 0x1_0000_0000_0000_0000)
                    by (nonlinear_arith)
                    requires
                        0 <= bound < 0x1_0000_0000_0000_0000,
                        0 <= power < 0x1_0000_0000_0000_0000,
                ;
            }
            let left: u128 = multiple as u128;
            let right: u128 = (bound as u128) * power;
            if left < right {
                Standing::Below
            } else if left == right {
                Standing::Level
            } else {
                Standing::Above
            }
        }
    }
}

/// The non-negative binary32 number equal to the integer `n`; there is one
/// for every `n` below 2^24.
pub open spec fn small_integer(n: nat) -> Scalar {
    choose|s: Scalar| s.denotes_integer(n)
}

/// No two patterns denote the same integer.
pub proof fn lemma_integer_pattern_unique(a: Scalar, b: Scalar, n: nat)
    requires
        a.denotes_integer(n),
    ensures
        b.denotes_integer(n) ==> a == b,
        small_integer(n) == a,
{
    if b.denotes_integer(n) {
        lemma_magnitude_order(a.magnitude(), b.magnitude());
        lemma_magnitude_order(b.magnitude(), a.magnitude());
        assert(a.bits == b.bits);
    }
    let c = small_integer(n);
    assert(c.denotes_integer(n));
    lemma_magnitude_order(a.magnitude(), c.magnitude());
    lemma_magnitude_order(c.magnitude(), a.magnitude());
    assert(a.bits == c.bits);
}

/// The standing of a product, brought down to a comparison of integers
/// that fit a machine word: with `m = factor * significand`, the product
/// `m * 2^shift` is held against `bound * 2^149` after the smaller power of
/// two has been taken out of both.
pub proof fn lemma_product_standing(x: Scalar, factor: nat, bound: nat)
    ensures
        ({
            let m = factor * significand_of(x.magnitude());
            let shift = shift_of(x.magnitude());
            let standing = x.product_standing(factor, bound);
            &&& m == 0 ==> standing == if bound == 0 {
                Standing::Level
            } else {
                Standing::Below
            }
            &&& m > 0 && x.is_negative() ==> standing == Standing::Below
            &&& m > 0 && !x.is_negative() && shift >= 149 ==> standing == integer_standing(
                (m * pow2((shift - 149) as nat)) as int,
                bound as int,
            )
            &&& m > 0 && !x.is_negative() && shift < 149 ==> standing == integer_standing(
                m as int,
                (bound * pow2((149 - shift) as nat)) as int,
            )
        }),
{
    let g = significand_of(x.magnitude()) as int;
    let shift = shift_of(x.magnitude());
    let p = pow2(shift) as int;
    let u = unit_scale() as int;
    let f = factor as int;
    let b = bound as int;
    let m = f * g;
    lemma_pow2_pos(shift);
    lemma_pow2_pos(149);
    assert(f * (g * p) == m * p) by (nonlinear_arith)
        requires
            m == f * g,
    ;
    assert(f * (-(g * p)) == -(m * p)) by (nonlinear_arith)
        requires
            m == f * g,
    ;
    assert(b * u >= 0) by (nonlinear_arith)
        requires
            b >= 0,
            u > 0,
    ;
    if m == 0 {
        assert(m * p == 0) by (nonlinear_arith)
            requires
                m == 0,
        ;
        if b > 0 {
            assert(b * u > 0) by (nonlinear_arith)
                requires
                    b > 0,
                    u > 0,
            ;
        } else {
            assert(b * u == 0) by (nonlinear_arith)
                requires
                    b == 0,
            ;
        }
    } else {
        assert(m * p > 0) by (nonlinear_arith)
            requires
                m > 0,
                p > 0,
        ;
        if !x.is_negative() {
            if shift >= 149 {
                let d = pow2((shift - 149) as nat) as int;
                lemma_pow2_adds((shift - 149) as nat, 149);
                assert(p == d * u);
                lemma_scaled_standing(m * d, b, u);
                assert(m * p == (m * d) * u) by (nonlinear_arith)
                    requires
                        p == d * u,
                ;
            } else {
                let k = pow2((149 - shift) as nat) as int;
                lemma_pow2_adds((149 - shift) as nat, shift);
                assert(u == k * p);
                lemma_scaled_standing(m, b * k, p);
                assert(b * u == (b * k) * p) by (nonlinear_arith)
                    requires
                        u == k * p,
                ;
            }
        }
    }
}

/// How one integer stands to another.
pub open spec fn integer_standing(left: int, right: int) -> Standing {
    if left < right {
        Standing::Below
    } else if left == right {
        Standing::Level
    } else {
        Standing::Above
    }
}

/// A positive common factor does not change how two integers stand.
pub proof fn lemma_scaled_standing(left: int, right: int, factor: int)
    requires
        factor > 0,
    ensures
        integer_standing(left * factor, right * factor) == integer_standing(left, right),
{
    assert(left < right ==> left * factor < right * factor) by (nonlinear_arith)
        requires
            factor > 0,
    ;
    assert(left > right ==> left * factor > right * factor) by (nonlinear_arith)
        requires
            factor > 0,
    ;
}

/// 2^k as a machine integer.
pub fn power_of_two(k: u32) -> (r: u128)
    requires
        k <= 126,
    ensures
        r == pow2(k as nat),
        r <= 0x4000_0000_0000_0000_0000_0000_0000_0000,
{
    let mut r: u128 = 1;
    let mut i: u32 = 0;
    proof {
        vstd::arithmetic::power2::lemma2_to64();
        lemma_pow2_126();
    }
    while i < k
        invariant
            i <= k <= 126,
            r == pow2(i as nat),
            r <= 0x4000_0000_0000_0000_0000_0000_0000_0000,
        decreases k - i,
    {
        proof {
            vstd::arithmetic::power2::lemma2_to64();
            lemma_pow2_adds(1, i as nat);
            lemma_pow2_126();
            if i + 1 < 126 {
                lemma_pow2_strictly_increases((i + 1) as nat, 126);
            }
            assert(pow2(1) == 2);
            assert(pow2((i + 1) as nat) == 2 * pow2(i as nat));
        }
        r = r * 2;
        i = i + 1;
    }
    r
}

/// The value of 2^126, the largest power that `power_of_two` hands out.
pub proof fn lemma_pow2_126()
    ensures
        pow2(126) == 0x4000_0000_0000_0000_0000_0000_0000_0000,
{
    vstd::arithmetic::power2::lemma2_to64();
    vstd::arithmetic::power2::lemma2_to64_rest();
    lemma_pow2_adds(63, 63);
}

/// 1.0 is the pattern with exponent field 127 and an empty fraction.
pub proof fn lemma_one_scaled()
    ensures
        (Scalar { bits: ONE_BITS }).scaled() == unit_scale(),
        !(Scalar { bits: ONE_BITS }).is_nan(),
        !(Scalar { bits: ONE_BITS }).is_negative(),
{
    lemma_pow2_adds(23, 126);
    vstd::arithmetic::power2::lemma2_to64();
    assert(0x3f80_0000nat / 0x80_0000 == 127);
    assert(0x3f80_0000nat % 0x80_0000 == 0);
    assert(significand_of(0x3f80_0000) == 0x80_0000);
    assert(shift_of(0x3f80_0000) == 126);
}

/// 0.5 is the pattern with exponent field 126 and an empty fraction.
pub proof fn lemma_half_scaled()
    ensures
        2 * (Scalar { bits: HALF_BITS }).scaled() == unit_scale(),
        !(Scalar { bits: HALF_BITS }).is_nan(),
        !(Scalar { bits: HALF_BITS }).is_negative(),
{
    lemma_pow2_adds(24, 125);
    vstd::arithmetic::power2::lemma2_to64();
    assert(0x3f00_0000nat / 0x80_0000 == 126);
    assert(0x3f00_0000nat % 0x80_0000 == 0);
    assert(significand_of(0x3f00_0000) == 0x80_0000);
    assert(shift_of(0x3f00_0000) == 125);
    assert(2 * (0x80_0000 * pow2(125)) == 0x100_0000 * pow2(125)) by (nonlinear_arith);
}

/// Magnitude patterns are ordered as the values they denote.
pub proof fn lemma_magnitude_order(a: nat, b: nat)
    ensures
        a < b ==> magnitude_scaled(a) < magnitude_scaled(b),
        a == b ==> magnitude_scaled(a) == magnitude_scaled(b),
        magnitude_scaled(0) == 0,
{
    vstd::arithmetic::power2::lemma2_to64();
    assert(magnitude_scaled(0) == 0) by {
        assert(significand_of(0) == 0);
        assert(0 * pow2(0) == 0);
    }
    if a < b {
        let ea = a / 0x80_0000;
        let eb = b / 0x80_0000;
        let sa = significand_of(a);
        let sb = significand_of(b);
        let pa = pow2(shift_of(a));
        let pb = pow2(shift_of(b));
        lemma_pow2_pos(shift_of(a));
        lemma_pow2_pos(shift_of(b));
        assert(ea <= eb);
        if ea == eb {
            assert(sa < sb);
            assert(sa * pa < sb * pa) by (nonlinear_arith)
                requires
                    sa < sb,
                    pa > 0,
            ;
        } else {
            assert(sb >= 0x80_0000);
            assert(0x80_0000 * pb <= sb * pb) by (nonlinear_arith)
                requires
                    sb >= 0x80_0000,
                    pb > 0,
            ;
            if ea == 0 {
                assert(sa * pa == sa) by (nonlinear_arith)
                    requires
                        pa == 1,
                ;
                assert(0x80_0000 * 1 <= 0x80_0000 * pb) by (nonlinear_arith)
                    requires
                        pb >= 1,
                ;
            } else {
                // the next power of two bounds every value of field `ea`
                assert(sa * pa < 0x80_0000 * (2 * pa)) by (nonlinear_arith)
                    requires
                        sa < 0x100_0000,
                        pa > 0,
                ;
                lemma_pow2_adds(1, shift_of(a));
                assert(2 * pa == pow2(ea));
                if ea < eb - 1 {
                    lemma_pow2_strictly_increases(ea, shift_of(b));
                }
                assert(pow2(ea) <= pb);
                assert(0x80_0000 * pow2(ea) <= 0x80_0000 * pb) by (nonlinear_arith)
                    requires
                        pow2(ea) <= pb,
                ;
            }
        }
    }
}

} // verus!

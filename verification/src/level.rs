//! Channel levels as IEEE 754 single-precision bit patterns.
//!
//! A level is held as the 32 bits that the audio interface hands out, and the
//! drift test works on those bits with integers. Its meaning is given over the
//! exact values: the difference of two levels is rounded to the nearest
//! representable value, ties to even, and only then compared.

use vstd::arithmetic::power2::{lemma_pow2_adds, lemma_pow2_pos, lemma_pow2_strictly_increases, lemma_pow2_unfold, pow2};
use vstd::prelude::*;

verus! {

/// One channel level: a single-precision number, given by its bit pattern.
#[derive(Clone, Copy, PartialEq, Eq, Structural, Debug)]
pub struct Level {
    pub bits: u32,
}

impl Level {
    /// The sign bit.
    pub open spec fn negative(self) -> bool {
        self.bits >= 0x8000_0000
    }

    /// The eight exponent bits.
    pub open spec fn exponent(self) -> nat {
        ((self.bits / 0x80_0000) % 0x100) as nat
    }

    /// The twenty-three fraction bits.
    pub open spec fn fraction(self) -> nat {
        (self.bits % 0x80_0000) as nat
    }

    pub open spec fn is_finite(self) -> bool {
        self.exponent() < 255
    }

    pub open spec fn is_nan(self) -> bool {
        self.exponent() == 255 && self.fraction() != 0
    }

    /// The fraction with the leading bit that normal numbers leave out.
    pub open spec fn significand(self) -> nat {
        if self.exponent() == 0 {
            self.fraction()
        } else {
            0x80_0000 + self.fraction()
        }
    }

    /// The power of two that scales the significand.
    pub open spec fn scale(self) -> nat {
        if self.exponent() == 0 {
            0
        } else {
            (self.exponent() - 1) as nat
        }
    }

    /// The absolute value, counted in units of the smallest positive number.
    /// An infinity counts as the first value past the largest finite one.
    pub open spec fn magnitude(self) -> nat {
        self.significand() * pow2(self.scale())
    }

    /// The value, counted in the same units.
    pub open spec fn value(self) -> int {
        if self.negative() {
            -(self.magnitude() as int)
        } else {
            self.magnitude() as int
        }
    }
}

/// The binary exponent of the gap between the representable values next to
/// `x`: a representable value has at most twenty-four significant bits.
pub open spec fn gap_exponent(x: nat) -> nat
    decreases x,
{
    if x < 0x100_0000 {
        0
    } else {
        1 + gap_exponent(x / 2)
    }
}

/// `x` rounded to the nearest representable value, ties to an even
/// significand.
pub open spec fn nearest(x: nat) -> nat {
    let gap = pow2(gap_exponent(x));
    let below = x / gap;
    let rest = x % gap;
    if 2 * rest > gap || (2 * rest == gap && below % 2 == 1) {
        (below + 1) * gap
    } else {
        below * gap
    }
}

pub open spec fn distance(a: int, b: int) -> nat {
    if a >= b {
        (a - b) as nat
    } else {
        (b - a) as nat
    }
}

/// `|current - target| < tolerance` in single precision: the difference is
/// rounded before it is compared, a difference that involves an infinity or a
/// not-a-number is never small, and nothing lies below a tolerance that is
/// zero, negative or not a number.
pub open spec fn is_within(current: Level, target: Level, tolerance: Level) -> bool {
    &&& current.is_finite()
    &&& target.is_finite()
    &&& !tolerance.is_nan()
    &&& !tolerance.negative()
    &&& nearest(distance(current.value(), target.value())) < tolerance.magnitude()
}

proof fn lemma_gap(x: nat)
    ensures
        x < 0x100_0000 * pow2(gap_exponent(x)),
        gap_exponent(x) > 0 ==> 0x80_0000 * pow2(gap_exponent(x)) <= x,
    decreases x,
{
    reveal(vstd::arithmetic::power::pow);
    if x >= 0x100_0000 {
        lemma_gap(x / 2);
        lemma_pow2_unfold(gap_exponent(x));
    }
}

proof fn lemma_pow2_monotonic(a: nat, b: nat)
    requires
        a <= b,
    ensures
        0 < pow2(a) <= pow2(b),
        a < b ==> 2 * pow2(a) <= pow2(b),
{
    lemma_pow2_pos(a);
    if a < b {
        lemma_pow2_unfold(b);
        if a < b - 1 {
            lemma_pow2_strictly_increases(a, (b - 1) as nat);
        }
    }
}

/// Twice the midpoint between the value `significand * 2^scale` and its lower
/// neighbour is `midpoint_factor * 2^midpoint_scale`.
spec fn midpoint_factor(significand: nat, scale: nat) -> int {
    if significand == 0x80_0000 && scale > 0 {
        4 * significand - 1
    } else {
        2 * significand - 1
    }
}

spec fn midpoint_scale(significand: nat, scale: nat) -> nat {
    if significand == 0x80_0000 && scale > 0 {
        (scale - 1) as nat
    } else {
        scale
    }
}

/// Rounding lands below a representable value exactly when the exact number
/// is below the midpoint to the lower neighbour, or on it with the lower
/// neighbour even.
proof fn lemma_nearest_below(x: nat, significand: nat, scale: nat)
    requires
        1 <= significand < 0x100_0000,
        scale > 0 ==> 0x80_0000 <= significand,
    ensures
        ({
            let midpoint = midpoint_factor(significand, scale) * pow2(midpoint_scale(significand, scale));
            nearest(x) < significand * pow2(scale) <==> (2 * x < midpoint || (2 * x == midpoint && significand % 2 == 1))
        }),
{
    let k = gap_exponent(x);
    let gap = pow2(k);
    let unit = pow2(scale);
    let below = x / gap;
    let rest = x % gap;
    let midpoint = midpoint_factor(significand, scale) * pow2(midpoint_scale(significand, scale));
    lemma_gap(x);
    lemma_pow2_pos(k);
    lemma_pow2_pos(scale);
    assert(x == below * gap + rest && 0 <= rest < gap) by {
        vstd::arithmetic::div_mod::lemma_fundamental_div_mod(x as int, gap as int);
        vstd::arithmetic::mul::lemma_mul_is_commutative(below as int, gap as int);
    }
    assert((below + 1) * gap == below * gap + gap) by (nonlinear_arith);
    assert(nearest(x) == below * gap || nearest(x) == below * gap + gap);
    if scale > 0 {
        lemma_pow2_unfold(scale);
    }
    let half = pow2(midpoint_scale(significand, scale));
    if significand == 0x80_0000 && scale > 0 {
        assert(unit == 2 * half);
        assert(midpoint == 2 * (significand * unit) - half) by (nonlinear_arith)
            requires
                midpoint == (4 * significand - 1) * half,
                unit == 2 * half,
        ;
    } else {
        assert(midpoint == 2 * (significand * unit) - unit) by (nonlinear_arith)
            requires
                midpoint == (2 * significand - 1) * unit,
        ;
    }
    assert(significand * unit >= unit) by (nonlinear_arith)
        requires
            significand >= 1,
            unit > 0,
    ;
    if k > scale {
        lemma_pow2_monotonic(scale, k);
        assert(0x80_0000 * gap > significand * unit) by (nonlinear_arith)
            requires
                gap >= 2 * unit,
                significand < 0x100_0000,
                unit > 0,
        ;
        assert(below >= 0x80_0000) by (nonlinear_arith)
            requires
                0x80_0000 * gap <= x,
                x == below * gap + rest,
                rest < gap,
        ;
        assert(below * gap >= 0x80_0000 * gap) by (nonlinear_arith)
            requires
                below >= 0x80_0000,
                gap > 0,
        ;
    } else if k == scale {
        if below >= significand {
            assert(below * gap >= significand * gap) by (nonlinear_arith)
                requires
                    below >= significand,
                    gap > 0,
            ;
        } else if below + 2 <= significand {
            assert(significand != 0x80_0000 || scale == 0) by (nonlinear_arith)
                requires
                    k > 0 ==> 0x80_0000 * gap <= x,
                    x == below * gap + rest,
                    rest < gap,
                    k == scale,
                    below + 2 <= significand,
            ;
            assert(below * gap + 2 * gap <= significand * gap) by (nonlinear_arith)
                requires
                    below + 2 <= significand,
                    gap > 0,
            ;
        } else {
            assert(significand == below + 1);
            assert(significand != 0x80_0000 || scale == 0) by (nonlinear_arith)
                requires
                    k > 0 ==> 0x80_0000 * gap <= x,
                    x == below * gap + rest,
                    rest < gap,
                    k == scale,
                    below + 1 == significand,
            ;
            assert(significand * gap == below * gap + gap) by (nonlinear_arith)
                requires
                    significand == below + 1,
            ;
        }
    } else {
        lemma_pow2_monotonic(k, scale);
        assert(below < 0x100_0000) by (nonlinear_arith)
            requires
                x < 0x100_0000 * gap,
                x == below * gap + rest,
                rest >= 0,
                gap > 0,
        ;
        assert(below * gap + gap <= 0x100_0000 * gap) by (nonlinear_arith)
            requires
                below < 0x100_0000,
                gap > 0,
        ;
        if significand > 0x80_0000 {
            assert(0x80_0000 * unit + unit <= significand * unit) by (nonlinear_arith)
                requires
                    significand > 0x80_0000,
                    unit > 0,
            ;
        } else {
            if k < scale - 1 {
                lemma_pow2_monotonic(k, (scale - 1) as nat);
            } else {
                assert(gap == half);
                if below + 2 <= 0x100_0000 {
                    assert(below * gap + 2 * gap <= 0x100_0000 * gap) by (nonlinear_arith)
                        requires
                            below + 2 <= 0x100_0000,
                            gap > 0,
                    ;
                }
            }
        }
    }
}

/// The part of `m * 2^e` that is left when the lowest `cut` bits are cut off
/// and `m` itself is not split.
spec fn above(m: int, e: nat, cut: nat) -> int {
    if e >= cut {
        m * pow2((e - cut) as nat)
    } else {
        0
    }
}

proof fn lemma_above_step(m: int, e: nat, cut: nat)
    requires
        cut > 0,
    ensures
        above(m, e, (cut - 1) as nat) == 2 * above(m, e, cut) + (if e == cut - 1 { m } else { 0 }),
{
    if e >= cut {
        let p = pow2((e - cut) as nat);
        let q = pow2((e - (cut - 1)) as nat);
        lemma_pow2_unfold((e - (cut - 1)) as nat);
        assert((e - (cut - 1) - 1) as nat == (e - cut) as nat);
        assert(m * q == 2 * (m * p)) by (nonlinear_arith)
            requires
                q == 2 * p,
        ;
    } else if e == cut - 1 {
        assert(pow2(0) == 1) by {
            vstd::arithmetic::power2::lemma2_to64();
        }
        assert((e - (cut - 1)) as nat == 0);
        assert(m * 1 == m) by (nonlinear_arith);
    }
}

/// What is cut off stays small against one unit of the cut.
proof fn lemma_above_rest(m: int, e: nat, cut: nat)
    requires
        -0x800_0000 <= m <= 0x800_0000,
    ensures
        -0x800_0000 * pow2(cut) <= m * pow2(e) - above(m, e, cut) * pow2(cut) <= 0x800_0000 * pow2(cut),
{
    lemma_pow2_pos(cut);
    lemma_pow2_pos(e);
    if e >= cut {
        let p = pow2((e - cut) as nat);
        lemma_pow2_adds((e - cut) as nat, cut);
        assert(m * (p * pow2(cut)) == (m * p) * pow2(cut)) by (nonlinear_arith);
    } else {
        lemma_pow2_monotonic(e, cut);
        let p = pow2(e);
        let c = pow2(cut);
        assert(-0x800_0000 * c <= m * p <= 0x800_0000 * c) by (nonlinear_arith)
            requires
                0 < p <= c,
                -0x800_0000 <= m <= 0x800_0000,
        ;
    }
}

/// A number with the sign of `m1 * 2^e1 + m2 * 2^e2 + m3 * 2^e3`. The sum is
/// built from the highest power of two down, and given out as soon as the
/// rest cannot change its sign.
fn sign_of_sum(m1: i64, e1: u32, m2: i64, e2: u32, m3: i64, e3: u32) -> (sign: i64)
    requires
        -0x800_0000 <= m1 <= 0x800_0000,
        -0x800_0000 <= m2 <= 0x800_0000,
        -0x800_0000 <= m3 <= 0x800_0000,
        e1 < 255,
        e2 < 255,
        e3 < 255,
    ensures
        sign < 0 <==> m1 * pow2(e1 as nat) + m2 * pow2(e2 as nat) + m3 * pow2(e3 as nat) < 0,
        sign == 0 <==> m1 * pow2(e1 as nat) + m2 * pow2(e2 as nat) + m3 * pow2(e3 as nat) == 0,
{
    let mut sum: i64 = 0;
    let mut cut: u32 = 255;
    while cut > 0
        invariant
            cut <= 255,
            -0x1_0000_0000 <= sum <= 0x1_0000_0000,
            -0x800_0000 <= m1 <= 0x800_0000,
            -0x800_0000 <= m2 <= 0x800_0000,
            -0x800_0000 <= m3 <= 0x800_0000,
            sum == above(m1 as int, e1 as nat, cut as nat) + above(m2 as int, e2 as nat, cut as nat) + above(
                m3 as int,
                e3 as nat,
                cut as nat,
            ),
        decreases cut,
    {
        if sum > 0x4000_0000 || sum < -0x4000_0000 {
            proof {
                let c = pow2(cut as nat);
                let t1 = m1 * pow2(e1 as nat);
                let t2 = m2 * pow2(e2 as nat);
                let t3 = m3 * pow2(e3 as nat);
                let a1 = above(m1 as int, e1 as nat, cut as nat);
                let a2 = above(m2 as int, e2 as nat, cut as nat);
                let a3 = above(m3 as int, e3 as nat, cut as nat);
                lemma_pow2_pos(cut as nat);
                lemma_above_rest(m1 as int, e1 as nat, cut as nat);
                lemma_above_rest(m2 as int, e2 as nat, cut as nat);
                lemma_above_rest(m3 as int, e3 as nat, cut as nat);
                assert(sum * c == a1 * c + a2 * c + a3 * c) by (nonlinear_arith)
                    requires
                        sum == a1 + a2 + a3,
                ;
                assert(sum > 0 ==> sum * c > 0x4000_0000 * c) by (nonlinear_arith)
                    requires
                        sum > 0 ==> sum > 0x4000_0000,
                        c > 0,
                ;
                assert(sum < 0 ==> sum * c < -0x4000_0000 * c) by (nonlinear_arith)
                    requires
                        sum < 0 ==> sum < -0x4000_0000,
                        c > 0,
                ;
            }
            return sum;
        }
        proof {
            lemma_above_step(m1 as int, e1 as nat, cut as nat);
            lemma_above_step(m2 as int, e2 as nat, cut as nat);
            lemma_above_step(m3 as int, e3 as nat, cut as nat);
        }
        cut = cut - 1;
        sum = 2 * sum;
        if e1 == cut {
            sum = sum + m1;
        }
        if e2 == cut {
            sum = sum + m2;
        }
        if e3 == cut {
            sum = sum + m3;
        }
    }
    sum
}

impl Level {
    /// The level with the given bit pattern.
    pub fn from_bits(bits: u32) -> (level: Level)
        ensures
            level.bits == bits,
    {
        Level { bits }
    }

    fn read_exponent(self) -> (exponent: u32)
        ensures
            exponent == self.exponent(),
            exponent < 256,
    {
        (self.bits / 0x80_0000) % 0x100
    }

    fn read_significand(self) -> (significand: i64)
        ensures
            significand == self.significand(),
            0 <= significand < 0x100_0000,
            self.scale() > 0 ==> significand >= 0x80_0000,
    {
        let fraction: u32 = self.bits % 0x80_0000;
        if self.read_exponent() == 0 {
            fraction as i64
        } else {
            0x80_0000 + fraction as i64
        }
    }

    fn read_scale(self) -> (scale: u32)
        ensures
            scale == self.scale(),
            scale < 255,
    {
        let exponent: u32 = self.read_exponent();
        if exponent == 0 {
            0
        } else {
            exponent - 1
        }
    }

    /// Twice the value, as a factor of `2^scale`.
    fn doubled(self) -> (factor: i64)
        ensures
            factor * pow2(self.scale()) == 2 * self.value(),
            -0x200_0000 <= factor <= 0x200_0000,
    {
        let significand: i64 = self.read_significand();
        let factor: i64 = if self.bits >= 0x8000_0000 {
            -(2 * significand)
        } else {
            2 * significand
        };
        proof {
            let s = significand as int;
            let p = pow2(self.scale());
            assert((2 * s) * p == 2 * (s * p)) by (nonlinear_arith);
            assert(-(2 * s) * p == -2 * (s * p)) by (nonlinear_arith);
        }
        factor
    }

    /// Whether this level lies closer to `target` than `tolerance`.
    pub fn is_within(self, target: Level, tolerance: Level) -> (within: bool)
        ensures
            within == is_within(self, target, tolerance),
    {
        if self.read_exponent() == 255 || target.read_exponent() == 255 {
            return false;
        }
        if tolerance.bits >= 0x8000_0000 || tolerance.bits > 0x7f80_0000 {
            return false;
        }
        let significand: i64 = tolerance.read_significand();
        let scale: u32 = tolerance.read_scale();
        if significand == 0 {
            assert(0 * pow2(0) == 0);
            return false;
        }
        let midpoint: i64;
        let midpoint_at: u32;
        if significand == 0x80_0000 && scale > 0 {
            midpoint = 4 * significand - 1;
            midpoint_at = scale - 1;
        } else {
            midpoint = 2 * significand - 1;
            midpoint_at = scale;
        }
        let here: i64 = self.doubled();
        let there: i64 = target.doubled();
        let over: i64 = sign_of_sum(here, self.read_scale(), -there, target.read_scale(), -midpoint, midpoint_at);
        let under: i64 = sign_of_sum(there, target.read_scale(), -here, self.read_scale(), -midpoint, midpoint_at);
        proof {
            let x = distance(self.value(), target.value());
            let hp = pow2(self.scale());
            let tp = pow2(target.scale());
            let mp = pow2(midpoint_at as nat);
            lemma_nearest_below(x, significand as nat, scale as nat);
            lemma_pow2_pos(midpoint_at as nat);
            assert((-there) * tp == -(there * tp)) by (nonlinear_arith);
            assert((-here) * hp == -(here * hp)) by (nonlinear_arith);
            assert((-midpoint) * mp == -(midpoint * mp)) by (nonlinear_arith);
            assert(midpoint * mp > 0) by (nonlinear_arith)
                requires
                    midpoint > 0,
                    mp > 0,
            ;
        }
        over <= 0 && under <= 0 && ((over < 0 && under < 0) || significand % 2 == 1)
    }
}

/// A finite level is within every tolerance above zero of itself.
pub proof fn law_within_itself(level: Level, tolerance: Level)
    requires
        level.is_finite(),
        !tolerance.is_nan(),
        !tolerance.negative(),
        tolerance.magnitude() > 0,
    ensures
        is_within(level, level, tolerance),
{
    lemma_pow2_pos(0);
    assert(gap_exponent(0) == 0);
    assert(0nat / pow2(0) == 0 && 0nat % pow2(0) == 0) by {
        vstd::arithmetic::power2::lemma2_to64();
    }
}

/// Drift is the same seen from either side.
pub proof fn law_within_is_symmetric(a: Level, b: Level, tolerance: Level)
    ensures
        is_within(a, b, tolerance) == is_within(b, a, tolerance),
{
}

/// Drift that reaches the tolerance is never ignored.
pub proof fn law_reaching_the_tolerance_is_drift(current: Level, target: Level, tolerance: Level)
    requires
        distance(current.value(), target.value()) >= tolerance.magnitude(),
    ensures
        !is_within(current, target, tolerance),
{
    let x = distance(current.value(), target.value());
    let significand = tolerance.significand();
    let scale = tolerance.scale();
    if significand == 0 {
        assert(0 * pow2(scale) == 0) by (nonlinear_arith);
    } else {
        lemma_nearest_below(x, significand, scale);
        let unit = pow2(midpoint_scale(significand, scale));
        lemma_pow2_pos(scale);
        lemma_pow2_pos(midpoint_scale(significand, scale));
        if significand == 0x80_0000 && scale > 0 {
            lemma_pow2_unfold(scale);
            assert((4 * significand - 1) * unit < 2 * (significand * (2 * unit))) by (nonlinear_arith)
                requires
                    unit > 0,
            ;
        } else {
            assert((2 * significand - 1) * unit < 2 * (significand * unit)) by (nonlinear_arith)
                requires
                    unit > 0,
            ;
        }
    }
}

/// Drift that stays below the tolerance is ignored: one that is no larger than
/// some level below the tolerance is within it.
pub proof fn law_drift_below_the_tolerance_is_ignored(current: Level, target: Level, tolerance: Level, lower: Level)
    requires
        current.is_finite(),
        target.is_finite(),
        !tolerance.is_nan(),
        !tolerance.negative(),
        lower.magnitude() < tolerance.magnitude(),
        distance(current.value(), target.value()) <= lower.magnitude(),
    ensures
        is_within(current, target, tolerance),
{
    let x = distance(current.value(), target.value());
    let s = tolerance.significand();
    let e = tolerance.scale();
    let v = lower.significand();
    let f = lower.scale();
    let unit = pow2(e);
    let step = pow2(f);
    let half = pow2(midpoint_scale(s, e));
    lemma_pow2_pos(e);
    lemma_pow2_pos(f);
    lemma_pow2_pos(midpoint_scale(s, e));
    assert(s >= 1) by (nonlinear_arith)
        requires
            s * unit > 0,
            unit > 0,
    ;
    lemma_nearest_below(x, s, e);
    if s == 0x80_0000 && e > 0 {
        lemma_pow2_unfold(e);
        assert((4 * s - 1) * half == 2 * (s * unit) - half) by (nonlinear_arith)
            requires
                unit == 2 * half,
        ;
    } else {
        assert((2 * s - 1) * half == 2 * (s * unit) - unit) by (nonlinear_arith)
            requires
                unit == half,
        ;
    }
    if f >= e {
        let times = pow2((f - e) as nat);
        lemma_pow2_adds((f - e) as nat, e);
        assert(v * step == (v * times) * unit) by (nonlinear_arith)
            requires
                step == times * unit,
        ;
        assert((v * times) * unit + unit <= s * unit) by (nonlinear_arith)
            requires
                (v * times) * unit < s * unit,
                unit > 0,
        ;
    } else {
        lemma_pow2_monotonic(f, (e - 1) as nat);
        lemma_pow2_unfold(e);
        let below = pow2((e - 1) as nat);
        assert(v * step <= 0xff_ffff * below) by (nonlinear_arith)
            requires
                v <= 0xff_ffff,
                0 < step <= below,
        ;
        if s > 0x80_0000 {
            assert(s * unit >= 0x80_0001 * unit) by (nonlinear_arith)
                requires
                    s >= 0x80_0001,
                    unit > 0,
            ;
        } else {
            assert(s * unit == 0x80_0000 * unit) by (nonlinear_arith)
                requires
                    s == 0x80_0000,
            ;
        }
    }
}

proof fn lemma_magnitude_grows(a: Level, b: Level)
    requires
        a.bits < b.bits <= 0x7f80_0000,
    ensures
        a.magnitude() < b.magnitude(),
{
    let p = pow2(a.scale());
    let q = pow2(b.scale());
    lemma_pow2_pos(a.scale());
    lemma_pow2_pos(b.scale());
    let s = a.significand();
    let t = b.significand();
    assert(a.exponent() == a.bits / 0x80_0000);
    assert(b.exponent() == b.bits / 0x80_0000);
    if a.scale() == b.scale() {
        assert(s < t);
        assert(s * p < t * p) by (nonlinear_arith)
            requires
                s < t,
                p > 0,
        ;
    } else {
        assert(a.scale() < b.scale());
        lemma_pow2_monotonic(a.scale(), b.scale());
        assert(s * p < t * q) by (nonlinear_arith)
            requires
                s < 0x100_0000,
                0x80_0000 <= t,
                p > 0,
                2 * p <= q,
        ;
    }
}

/// Levels are ordered as their bit patterns are: of two that are not negative
/// and not past infinity, the one with the smaller pattern is the smaller one.
pub proof fn law_levels_are_ordered_by_their_bits(a: Level, b: Level)
    requires
        a.bits < b.bits <= 0x7f80_0000,
    ensures
        0 <= a.value() < b.value(),
{
    lemma_magnitude_grows(a, b);
}

/// The sign bit turns a level into its negative.
pub proof fn law_sign_bit_negates(a: Level, b: Level)
    requires
        b.bits < 0x8000_0000,
        a.bits == b.bits + 0x8000_0000,
    ensures
        a.value() == -b.value(),
{
    assert(a.exponent() == b.exponent());
    assert(a.fraction() == b.fraction());
}

/// The next exponent doubles a level.
pub proof fn law_next_exponent_doubles(a: Level, b: Level)
    requires
        0x80_0000 <= a.bits,
        b.bits == a.bits + 0x80_0000,
        b.bits <= 0x7f80_0000,
    ensures
        b.value() == 2 * a.value(),
{
    assert(b.exponent() == a.exponent() + 1);
    assert(b.fraction() == a.fraction());
    lemma_pow2_unfold(b.scale());
    let s = a.significand();
    let p = pow2(a.scale());
    assert(s * (2 * p) == 2 * (s * p)) by (nonlinear_arith);
}

/// The smallest levels are counted one by one: zero is zero, and the patterns
/// up to twice the first normal one stand for their own number.
pub proof fn law_small_levels_count_up(a: Level)
    requires
        a.bits < 0x100_0000,
    ensures
        a.value() == a.bits,
{
    vstd::arithmetic::power2::lemma2_to64();
    assert(pow2(0) == 1);
    let s = a.significand();
    assert(a.exponent() == a.bits / 0x80_0000);
    assert(s * 1 == s);
}

/// What is not a number, or is infinite, is never close to anything, and
/// nothing is within a tolerance that is zero, negative or not a number.
pub proof fn law_strange_levels_are_never_within(current: Level, target: Level, tolerance: Level, within: bool)
    requires
        call_ensures(Level::is_within, (current, target, tolerance), within),
        (current.bits / 0x80_0000) % 0x100 == 255 || (target.bits / 0x80_0000) % 0x100 == 255 || tolerance.bits == 0
            || tolerance.bits > 0x7f80_0000,
    ensures
        !within,
{
    if tolerance.bits == 0 {
        assert(0 * pow2(0) == 0);
    }
}

/// The drift test, where no rounding is needed: if the difference of two
/// finite levels is itself a level, it is within a tolerance exactly if it is
/// smaller.
pub proof fn law_exact_drift_is_compared(current: Level, target: Level, drift: Level, tolerance: Level, within: bool)
    requires
        (current.bits / 0x80_0000) % 0x100 != 255,
        (target.bits / 0x80_0000) % 0x100 != 255,
        drift.bits <= 0x7f80_0000,
        tolerance.bits <= 0x7f80_0000,
        current.value() - target.value() == drift.value() || target.value() - current.value() == drift.value(),
        call_ensures(Level::is_within, (current, target, tolerance), within),
    ensures
        within <==> drift.bits < tolerance.bits,
{
    if drift.bits < tolerance.bits {
        lemma_magnitude_grows(drift, tolerance);
        law_drift_below_the_tolerance_is_ignored(current, target, tolerance, drift);
    } else {
        if tolerance.bits < drift.bits {
            lemma_magnitude_grows(tolerance, drift);
        }
        law_reaching_the_tolerance_is_drift(current, target, tolerance);
    }
}

/// A wider tolerance takes in what a narrower one does.
pub proof fn law_wider_tolerance_takes_in_more(
    current: Level,
    target: Level,
    narrow: Level,
    wide: Level,
    first: bool,
    second: bool,
)
    requires
        narrow.bits <= wide.bits <= 0x7f80_0000,
        call_ensures(Level::is_within, (current, target, narrow), first),
        call_ensures(Level::is_within, (current, target, wide), second),
    ensures
        first ==> second,
{
    if narrow.bits < wide.bits {
        lemma_magnitude_grows(narrow, wide);
    }
}

/// What is nearer is within what something farther is within.
pub proof fn law_nearer_is_within_too(far: Level, near: Level, target: Level, tolerance: Level, first: bool, second: bool)
    requires
        (near.bits / 0x80_0000) % 0x100 != 255,
        distance(near.value(), target.value()) <= distance(far.value(), target.value()),
        call_ensures(Level::is_within, (far, target, tolerance), first),
        call_ensures(Level::is_within, (near, target, tolerance), second),
    ensures
        first ==> second,
{
    if first {
        let s = tolerance.significand();
        let e = tolerance.scale();
        if s == 0 {
            assert(0 * pow2(e) == 0) by (nonlinear_arith);
        } else {
            lemma_nearest_below(distance(near.value(), target.value()), s, e);
            lemma_nearest_below(distance(far.value(), target.value()), s, e);
        }
    }
}

proof fn lemma_gap_is(x: nat, k: nat)
    requires
        x < 0x100_0000 * pow2(k),
        k > 0 ==> 0x80_0000 * pow2(k) <= x,
    ensures
        gap_exponent(x) == k,
{
    let g = gap_exponent(x);
    lemma_gap(x);
    lemma_pow2_pos(g);
    lemma_pow2_pos(k);
    if g < k {
        lemma_pow2_monotonic(g, k);
        assert(0x100_0000 * pow2(g) <= 0x80_0000 * pow2(k)) by (nonlinear_arith)
            requires
                2 * pow2(g) <= pow2(k),
        ;
    } else if k < g {
        lemma_pow2_monotonic(k, g);
        assert(0x100_0000 * pow2(k) <= 0x80_0000 * pow2(g)) by (nonlinear_arith)
            requires
                2 * pow2(k) <= pow2(g),
        ;
    }
}

/// A difference is rounded as single precision asks: where the levels lie
/// `2^k` apart it becomes a multiple of `2^k` at most half of that away, and
/// of two that are as near the even one.
pub proof fn law_difference_is_rounded_to_nearest_even(x: nat, k: nat)
    requires
        x < 0x100_0000 * pow2(k),
        k > 0 ==> 0x80_0000 * pow2(k) <= x,
    ensures
        exists|m: nat|
            nearest(x) == #[trigger] (m * pow2(k)) && 2 * distance(nearest(x) as int, x as int) <= pow2(k) && (2 * distance(
                nearest(x) as int,
                x as int,
            ) == pow2(k) ==> m % 2 == 0),
{
    lemma_gap_is(x, k);
    let gap = pow2(k);
    lemma_pow2_pos(k);
    let below = x / gap;
    let rest = x % gap;
    assert(x == below * gap + rest && 0 <= rest < gap) by {
        vstd::arithmetic::div_mod::lemma_fundamental_div_mod(x as int, gap as int);
        vstd::arithmetic::mul::lemma_mul_is_commutative(below as int, gap as int);
    }
    assert((below + 1) * gap == below * gap + gap) by (nonlinear_arith);
    if 2 * rest > gap || (2 * rest == gap && below % 2 == 1) {
        let m = below + 1;
        assert(nearest(x) == m * gap);
    } else {
        assert(nearest(x) == below * gap);
    }
}

/// Two finite levels are within a tolerance exactly if their difference, once
/// rounded, is below it.
pub proof fn law_rounded_drift_is_compared(current: Level, target: Level, tolerance: Level, within: bool)
    requires
        (current.bits / 0x80_0000) % 0x100 != 255,
        (target.bits / 0x80_0000) % 0x100 != 255,
        tolerance.bits <= 0x7f80_0000,
        call_ensures(Level::is_within, (current, target, tolerance), within),
    ensures
        within <==> nearest(distance(current.value(), target.value())) < tolerance.value(),
{
}

/// A level is the bit pattern that it is made from.
pub proof fn law_level_is_its_bits(bits: u32, level: Level)
    requires
        call_ensures(Level::from_bits, (bits,), level),
    ensures
        level.bits == bits,
{
}

} // verus!

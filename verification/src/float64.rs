//! Double-precision numbers by their IEEE 754 bit pattern, with the few exact
//! operations that pixel scaling and geometry checks need.

use crate::float32;
use vstd::arithmetic::div_mod::*;
use vstd::arithmetic::mul::*;
use vstd::arithmetic::power2::*;
use vstd::prelude::*;

verus! {

/// Bits of `1.0`.
pub const ONE_BITS: u64 = 0x3FF0_0000_0000_0000;

/// A double-precision number, held as its bit pattern.
#[derive(Debug, Clone, Copy)]
pub struct Float64 {
    bits: u64,
}

impl View for Float64 {
    type V = u64;

    closed spec fn view(&self) -> u64 {
        self.bits
    }
}

/// The biased exponent field of a bit pattern.
pub open spec fn exponent_field(bits: u64) -> nat {
    (bits as nat / 0x10_0000_0000_0000) % 2048
}

/// The fraction field of a bit pattern.
pub open spec fn fraction_field(bits: u64) -> nat {
    bits as nat % 0x10_0000_0000_0000
}

/// The sign bit is set.
pub open spec fn is_negative(bits: u64) -> bool {
    bits >= 0x8000_0000_0000_0000
}

/// Neither an infinity nor a NaN.
pub open spec fn is_finite(bits: u64) -> bool {
    exponent_field(bits) < 2047
}

/// Zero of either sign.
pub open spec fn is_zero(bits: u64) -> bool {
    bits == 0 || bits == 0x8000_0000_0000_0000
}

/// A finite number above zero.
pub open spec fn is_positive(bits: u64) -> bool {
    is_finite(bits) && !is_negative(bits) && bits != 0
}

/// Not a number.
pub open spec fn is_nan(bits: u64) -> bool {
    !is_finite(bits) && fraction_field(bits) != 0
}

/// Equal as numbers: the two zeros are equal, and a NaN equals nothing.
pub open spec fn equal_numbers(a: u64, b: u64) -> bool {
    !is_nan(a) && !is_nan(b) && (a == b || (is_zero(a) && is_zero(b)))
}

/// The significand as an integer: the magnitude of a finite number is
/// `significand * 2^(scale - 1075)`.
pub open spec fn significand(bits: u64) -> nat {
    if exponent_field(bits) == 0 {
        fraction_field(bits)
    } else {
        fraction_field(bits) + 0x10_0000_0000_0000
    }
}

/// The exponent of a finite number, biased by 1075.
pub open spec fn scale(bits: u64) -> nat {
    if exponent_field(bits) == 0 {
        1
    } else {
        exponent_field(bits)
    }
}

/// How many low bits of `p` do not fit into a 53-bit significand.
pub open spec fn excess_bits(p: nat) -> nat
    decreases p,
{
    if p < 0x20_0000_0000_0000 {
        0
    } else {
        1 + excess_bits(p / 2)
    }
}

/// `p` rounded to 53 significant bits, ties to even.
pub open spec fn round53(p: nat) -> nat {
    let unit = pow2(excess_bits(p));
    float32::round_div(p, unit) * unit
}

/// The double-precision product of `value` and a positive factor, rounded to
/// the nearest integer, halves up. A product beyond the finite range counts
/// as zero, one beyond 16 bits as `65535`.
pub open spec fn scaled_units(value: nat, factor: u64) -> nat {
    let p = round53(value * significand(factor));
    let up = pow2(scale(factor));
    let down = pow2(1075);
    if !is_positive(factor) || p * up >= pow2(2099) {
        0
    } else if p * up >= 65535 * down {
        65535
    } else {
        (2 * (p * up) + down) / (2 * down)
    }
}

/// Nothing scales to nothing, whatever the factor.
pub proof fn zero_stays_zero(factor: u64)
    ensures
        scaled_units(0, factor) == 0,
{
    let up = pow2(scale(factor));
    let down = pow2(1075);
    lemma_pow2_pos(1075);
    lemma_pow2_pos(2099);
    assert(0 * significand(factor) == 0);
    assert(excess_bits(0) == 0);
    lemma2_to64();
    assert(round53(0) == 0);
    assert(0 * up == 0);
    assert(down as int / (2 * down) as int == 0) by {
        lemma_basic_div(down as int, 2 * down as int);
    }
}

proof fn lemma_excess_step(p: nat, k: nat, t: nat)
    requires
        t == p / pow2(k),
        t >= 0x20_0000_0000_0000,
        excess_bits(p) == k + excess_bits(t),
    ensures
        t / 2 == p / pow2(k + 1),
        excess_bits(p) == k + 1 + excess_bits(t / 2),
        pow2(k + 1) == 2 * pow2(k),
        2 * pow2(k) <= p,
{
    lemma_pow2_unfold(k + 1);
    lemma_pow2_pos(k);
    lemma_div_denominator(p as int, pow2(k) as int, 2);
    assert(pow2(k) * 2 == 2 * pow2(k));
    lemma_fundamental_div_mod(p as int, pow2(k) as int);
    assert(p >= pow2(k) * t) by {
        lemma_mod_bound(p as int, pow2(k) as int);
    }
    assert(pow2(k) * t >= 2 * pow2(k)) by (nonlinear_arith)
        requires
            t >= 2,
            pow2(k) > 0,
    ;
}

/// Rounds a product to 53 significant bits.
fn round_to_double(p: u128) -> (r: u128)
    requires
        p < 0x20_0000_0000_0000_0000,
    ensures
        r == round53(p as nat),
        r <= 2 * p,
        r == 0 <==> p == 0,
{
    let mut unit: u128 = 1;
    let mut t: u128 = p;
    let ghost mut k: nat = 0;
    proof {
        lemma2_to64();
    }
    while t >= 0x20_0000_0000_0000
        invariant
            unit == pow2(k),
            t == p as nat / pow2(k),
            excess_bits(p as nat) == k + excess_bits(t as nat),
            p < 0x20_0000_0000_0000_0000,
            1 <= unit,
            unit <= p || unit == 1,
        decreases t,
    {
        proof {
            lemma_excess_step(p as nat, k, t as nat);
        }
        unit = unit * 2;
        t = t / 2;
        proof {
            k = k + 1;
        }
    }
    assert(excess_bits(p as nat) == k);
    let q: u128 = p / unit;
    let rest: u128 = p % unit;
    proof {
        lemma_fundamental_div_mod(p as int, unit as int);
        lemma_mod_bound(p as int, unit as int);
        assert(q * unit <= p) by (nonlinear_arith)
            requires
                p == unit * q + rest,
                rest >= 0,
        ;
        assert((q + 1) * unit == q * unit + unit) by (nonlinear_arith);
        if p > 0 {
            assert(q >= 1) by (nonlinear_arith)
                requires
                    p == unit * q + rest,
                    rest < unit,
                    unit <= p,
            ;
            assert(q * unit >= unit) by (nonlinear_arith)
                requires
                    q >= 1,
                    unit >= 1,
            ;
        }
    }
    if 2 * rest > unit || (2 * rest == unit && q % 2 == 1) {
        assert(rest >= 1);
        assert(unit <= p);
        (q + 1) * unit
    } else {
        q * unit
    }
}

fn power_of_two(e: u32) -> (p: u128)
    requires
        e <= 80,
    ensures
        p == pow2(e as nat),
        1 <= p <= 0x1_0000_0000_0000_0000_0000,
        e <= 17 ==> p <= 0x2_0000,
{
    let mut p: u128 = 1;
    let mut i: u32 = 0;
    proof {
        lemma_pow2_80();
        lemma2_to64();
    }
    while i < e
        invariant
            0 <= i <= e <= 80,
            p == pow2(i as nat),
        decreases e - i,
    {
        proof {
            lemma_pow2_unfold((i + 1) as nat);
            lemma_pow2_80();
            lemma_pow2_strictly_increases(i as nat, 80);
        }
        p = p * 2;
        i = i + 1;
    }
    proof {
        lemma_pow2_pos(e as nat);
        if e < 80 {
            lemma_pow2_strictly_increases(e as nat, 80);
        }
        if e < 17 {
            lemma_pow2_strictly_increases(e as nat, 17);
        }
    }
    p
}

proof fn lemma_pow2_80()
    ensures
        pow2(80) == 0x1_0000_0000_0000_0000_0000,
{
    lemma2_to64();
    lemma_pow2_adds(64, 16);
    assert(0x10000000000000000 * 0x10000 == 0x1_0000_0000_0000_0000_0000) by (nonlinear_arith);
}

/// `p * 2^s` against `limit * 2^1075`, with the common powers taken out.
proof fn lemma_cancel(p: nat, s: nat, limit: nat, base: nat)
    ensures
        s >= base ==> (p * pow2(s) >= limit * pow2(base)) == (p * pow2((s - base) as nat) >= limit),
        s < base ==> (p * pow2(s) >= limit * pow2(base)) == (p >= limit * pow2((base - s) as nat)),
{
    if s >= base {
        let u = pow2((s - base) as nat);
        let b = pow2(base);
        lemma_pow2_adds((s - base) as nat, base);
        lemma_pow2_pos(base);
        assert((p * (u * b) >= limit * b) == (p * u >= limit)) by (nonlinear_arith)
            requires
                b > 0,
        {
            assert(p * (u * b) == (p * u) * b);
        }
    } else {
        let u = pow2((base - s) as nat);
        let b = pow2(s);
        lemma_pow2_adds((base - s) as nat, s);
        lemma_pow2_pos(s);
        assert((p * b >= limit * (u * b)) == (p >= limit * u)) by (nonlinear_arith)
            requires
                b > 0,
        {
            assert(limit * (u * b) == (limit * u) * b);
        }
    }
}

/// Rounding to an integer does not depend on a common power of two.
proof fn lemma_round_cancel(p: nat, s: nat)
    requires
        s < 1075,
    ensures
        (2 * (p * pow2(s)) + pow2(1075)) / (2 * pow2(1075)) == (2 * p + pow2((1075 - s) as nat)) / (2
            * pow2((1075 - s) as nat)),
{
    let u = pow2((1075 - s) as nat);
    let b = pow2(s);
    lemma_pow2_adds((1075 - s) as nat, s);
    lemma_pow2_pos(s);
    lemma_pow2_pos((1075 - s) as nat);
    let n = (2 * p + u) as int;
    let d = (2 * u) as int;
    assert(2 * (p * b) + u * b == b * n) by (nonlinear_arith)
        requires
            n == 2 * p + u,
    ;
    assert(2 * (u * b) == b * d) by (nonlinear_arith)
        requires
            d == 2 * u,
    ;
    lemma_div_multiples_vanish_quotient(b as int, n, d);
}

proof fn lemma_power_at_least(e: nat, k: nat)
    requires
        e >= k,
    ensures
        pow2(e) >= pow2(k),
{
    if e > k {
        lemma_pow2_strictly_increases(k, e);
    }
}

impl PartialEq for Float64 {
    fn eq(&self, other: &Self) -> (same: bool) {
        let (a, b) = (self.bits, other.bits);
        let both_zero: bool = (a == 0 || a == 0x8000_0000_0000_0000) && (b == 0 || b == 0x8000_0000_0000_0000);
        !self.is_nan() && !other.is_nan() && (a == b || both_zero)
    }
}

impl vstd::std_specs::cmp::PartialEqSpecImpl for Float64 {
    open spec fn obeys_eq_spec() -> bool {
        true
    }

    open spec fn eq_spec(&self, other: &Self) -> bool {
        equal_numbers(self@, other@)
    }
}

impl Float64 {
    /// The number with the given bit pattern.
    #[must_use]
    pub fn from_bits(bits: u64) -> (f: Self)
        ensures
            f@ == bits,
    {
        Self { bits }
    }

    /// The bit pattern.
    #[must_use]
    pub fn to_bits(self) -> (bits: u64)
        ensures
            bits == self@,
    {
        self.bits
    }

    /// True for a NaN.
    #[must_use]
    pub fn is_nan(self) -> (yes: bool)
        ensures
            yes == is_nan(self@),
    {
        !self.is_finite() && self.bits % 0x10_0000_0000_0000 != 0
    }

    /// True for every number that is neither infinite nor a NaN.
    #[must_use]
    pub fn is_finite(self) -> (finite: bool)
        ensures
            finite == is_finite(self@),
    {
        (self.bits / 0x10_0000_0000_0000) % 2048 < 2047
    }

    /// True for a finite number above zero.
    #[must_use]
    pub fn is_positive(self) -> (positive: bool)
        ensures
            positive == is_positive(self@),
    {
        self.is_finite() && self.bits < 0x8000_0000_0000_0000 && self.bits != 0
    }

    /// `value` scaled by this factor, rounded to whole units.
    #[must_use]
    pub fn scale_units(self, value: u16) -> (r: u16)
        ensures
            r == scaled_units(value as nat, self@),
    {
        if !self.is_positive() {
            return 0;
        }
        let e: u64 = (self.bits / 0x10_0000_0000_0000) % 2048;
        let f: u64 = self.bits % 0x10_0000_0000_0000;
        let sig: u64 = if e == 0 {
            f
        } else {
            f + 0x10_0000_0000_0000
        };
        let sc: u32 = if e == 0 {
            1
        } else {
            e as u32
        };
        assert(sig == significand(self@) && sc == scale(self@));
        assert(value * sig < 0x20_0000_0000_0000_0000) by (nonlinear_arith)
            requires
                value <= 65535,
                sig < 0x20_0000_0000_0000,
        ;
        let product: u128 = value as u128 * sig as u128;
        assert(value as nat * sig as nat == product);
        let p: u128 = round_to_double(product);
        proof {
            lemma_cancel(p as nat, sc as nat, 1, 2099);
            lemma_cancel(p as nat, sc as nat, 65535, 1075);
            lemma_pow2_80();
            lemma2_to64();
        }
        let room: u32 = 2099 - sc;
        if room <= 80 {
            if p >= power_of_two(room) {
                return 0;
            }
        } else {
            proof {
                lemma_power_at_least(room as nat, 80);
            }
        }
        assert(1 * pow2(2099) == pow2(2099));
        assert(!(p * pow2(sc as nat) >= pow2(2099)));
        if p == 0 {
            proof {
                assert(p * pow2(sc as nat) == 0) by (nonlinear_arith)
                    requires
                        p == 0,
                ;
                lemma_pow2_pos(1075);
                lemma_small_half(pow2(1075));
            }
            return 0;
        }
        if sc >= 1075 {
            let up: u32 = sc - 1075;
            if up >= 16 {
                proof {
                    lemma_power_at_least(up as nat, 16);
                    let u = pow2(up as nat);
                    assert(p * u >= u) by (nonlinear_arith)
                        requires
                            p >= 1,
                            u >= 0,
                    ;
                }
                return 65535;
            }
            let unit: u128 = power_of_two(up);
            assert(p * unit <= 0x40_0000_0000_0000_0000 * 0x2_0000) by (nonlinear_arith)
                requires
                    p <= 0x40_0000_0000_0000_0000,
                    unit <= 0x2_0000,
            ;
            let whole: u128 = p * unit;
            if whole >= 65535 {
                return 65535;
            }
            proof {
                lemma_pow2_adds(up as nat, 1075);
                lemma_pow2_pos(1075);
                let b = pow2(1075);
                let u = pow2(up as nat);
                assert(p * (u * b) == whole * b) by (nonlinear_arith)
                    requires
                        whole == p * u,
                ;
                lemma_whole_half(whole as nat, b);
            }
            return whole as u16;
        }
        let down: u32 = 1075 - sc;
        proof {
            lemma_round_cancel(p as nat, sc as nat);
        }
        if down > 76 {
            proof {
                lemma_power_at_least(down as nat, 77);
                lemma_pow2_adds(64, 13);
                assert(pow2(77) == 0x2000_0000_0000_0000_0000) by {
                    assert(0x10000000000000000 * 0x2000 == 0x2000_0000_0000_0000_0000)
                        by (nonlinear_arith);
                }
                let u = pow2(down as nat);
                assert(65535 * u >= u) by (nonlinear_arith)
                    requires
                        u >= 0,
                ;
                assert((2 * (p as nat) + u) / (2 * u) == 0) by {
                    lemma_basic_div((2 * p + u) as int, (2 * u) as int);
                }
            }
            return 0;
        }
        let unit: u128 = power_of_two(down);
        assert(65535 * unit <= 65535 * 0x1_0000_0000_0000_0000_0000);
        if p >= 65535 * unit {
            return 65535;
        }
        let r: u128 = (2 * p + unit) / (2 * unit);
        proof {
            lemma_div_below((2 * p + unit) as int, (2 * unit) as int, 65535);
        }
        r as u16
    }
}

proof fn lemma_small_half(b: nat)
    requires
        b > 0,
    ensures
        (2 * 0 + b) / (2 * b) == 0,
{
    lemma_basic_div(b as int, (2 * b) as int);
}

proof fn lemma_whole_half(w: nat, b: nat)
    requires
        b > 0,
    ensures
        (2 * (w * b) + b) / (2 * b) == w,
{
    let n = (2 * (w * b) + b) as int;
    assert(n == w * (2 * b) + b) by (nonlinear_arith)
        requires
            n == 2 * (w * b) + b,
    ;
    lemma_fundamental_div_mod_converse(n, (2 * b) as int, w as int, b as int);
}

proof fn lemma_div_below(n: int, d: int, limit: int)
    requires
        d > 0,
        0 <= n < (limit + 1) * d,
    ensures
        0 <= n / d <= limit,
{
    lemma_fundamental_div_mod(n, d);
    lemma_mod_bound(n, d);
    let q = n / d;
    assert(q <= limit) by (nonlinear_arith)
        requires
            n == d * q + n % d,
            n % d >= 0,
            n < (limit + 1) * d,
            d > 0,
    ;
    assert(q >= 0) by (nonlinear_arith)
        requires
            n == d * q + n % d,
            n % d < d,
            n >= 0,
            d > 0,
    ;
}

proof fn lemma_excess_bound(p: nat, j: nat)
    requires
        p < 0x20_0000_0000_0000 * pow2(j),
    ensures
        excess_bits(p) <= j,
    decreases j,
{
    if p >= 0x20_0000_0000_0000 {
        if j == 0 {
            lemma2_to64();
        } else {
            lemma_pow2_unfold(j);
            let h = pow2((j - 1) as nat);
            assert(p / 2 < 0x20_0000_0000_0000 * h) by {
                assert(p < 0x20_0000_0000_0000 * (2 * h));
            }
            lemma_excess_bound(p / 2, (j - 1) as nat);
        }
    }
}

/// Scaling by `1.0` changes nothing.
pub proof fn scaling_by_one_is_identity(value: u16)
    ensures
        scaled_units(value as nat, ONE_BITS) == value,
{
    let v = value as nat;
    let sig = significand(ONE_BITS);
    assert(sig == 0x10_0000_0000_0000 && scale(ONE_BITS) == 1023);
    let p = v * sig;
    lemma2_to64();
    lemma2_to64_rest();
    assert(p < 0x20_0000_0000_0000 * 0x10000) by (nonlinear_arith)
        requires
            p == v * sig,
            v <= 65535,
            sig == 0x10_0000_0000_0000,
    ;
    lemma_excess_bound(p, 16);
    let k = excess_bits(p);
    let unit = pow2(k);
    lemma_pow2_pos(k);
    lemma_pow2_adds(k, (52 - k) as nat);
    let rest = pow2((52 - k) as nat);
    assert(p == (v * rest) * unit) by (nonlinear_arith)
        requires
            p == v * sig,
            sig == unit * rest,
    ;
    lemma_fundamental_div_mod_converse(p as int, unit as int, (v * rest) as int, 0);
    assert(round53(p) == p);
    let up = pow2(1023);
    let down = pow2(1075);
    lemma_pow2_adds(52, 1023);
    lemma_pow2_pos(1075);
    assert(p * up == v * down) by (nonlinear_arith)
        requires
            p == v * sig,
            down == sig * up,
    ;
    lemma_pow2_adds(1075, 1024);
    lemma_power_at_least(1024, 16);
    let wide = pow2(1024);
    assert(v * down < down * wide) by (nonlinear_arith)
        requires
            v < wide,
            down > 0,
    ;
    assert((v * down >= 65535 * down) == (v >= 65535)) by (nonlinear_arith)
        requires
            down > 0,
    ;
    lemma_whole_half(v, down);
}

/// The bits stand for the whole number `n`.
pub open spec fn is_whole(bits: u64, n: nat) -> bool {
    is_finite(bits) && !is_negative(bits) && significand(bits) * pow2(scale(bits)) == n * pow2(1075)
}

/// Among finite numbers without a sign the order of the bit patterns is the
/// order of the numbers they stand for.
pub proof fn bit_order_is_number_order(a: u64, b: u64)
    requires
        is_finite(a),
        is_finite(b),
        !is_negative(a),
        !is_negative(b),
    ensures
        a <= b <==> significand(a) * pow2(scale(a)) <= significand(b) * pow2(scale(b)),
{
    if a <= b {
        positive_bits_are_monotone(a, b);
    } else {
        positive_bits_are_monotone(b, a);
        let x = significand(a) * pow2(scale(a));
        let y = significand(b) * pow2(scale(b));
        lemma_pow2_pos(scale(a));
        lemma_pow2_pos(scale(b));
        if scale(a) == scale(b) {
            assert(significand(a) > significand(b));
            lemma_mul_strict_inequality(
                significand(b) as int,
                significand(a) as int,
                pow2(scale(a)) as int,
            );
        } else {
            let unit = pow2(scale(b));
            let gap = (scale(a) - scale(b)) as nat;
            lemma_pow2_adds(scale(b), gap);
            lemma_pow2_unfold(gap);
            lemma_pow2_pos((gap - 1) as nat);
            let f = pow2(gap);
            assert(x > y) by (nonlinear_arith)
                requires
                    x == significand(a) * (unit * f),
                    y == significand(b) * unit,
                    significand(a) >= 0x10_0000_0000_0000,
                    significand(b) < 0x20_0000_0000_0000,
                    f >= 2,
                    unit > 0,
            ;
        }
    }
}

proof fn positive_bits_are_monotone(a: u64, b: u64)
    requires
        is_finite(a),
        is_finite(b),
        !is_negative(a),
        !is_negative(b),
        a <= b,
    ensures
        significand(a) * pow2(scale(a)) <= significand(b) * pow2(scale(b)),
        exponent_field(a) <= exponent_field(b),
{
    let x = significand(a) * pow2(scale(a));
    let y = significand(b) * pow2(scale(b));
    lemma_pow2_pos(scale(a));
    lemma_pow2_pos(scale(b));
    if scale(a) == scale(b) {
        lemma_mul_inequality(
            significand(a) as int,
            significand(b) as int,
            pow2(scale(a)) as int,
        );
    } else {
        let unit = pow2(scale(a));
        let gap = (scale(b) - scale(a)) as nat;
        lemma_pow2_adds(scale(a), gap);
        lemma_pow2_unfold(gap);
        lemma_pow2_pos((gap - 1) as nat);
        let f = pow2(gap);
        assert(x <= y) by (nonlinear_arith)
            requires
                y == significand(b) * (unit * f),
                x == significand(a) * unit,
                significand(b) >= 0x10_0000_0000_0000,
                significand(a) < 0x20_0000_0000_0000,
                f >= 2,
                unit > 0,
        ;
    }
}

/// The double-precision number of a 16-bit integer.
#[must_use]
pub fn from_u16(n: u16) -> (f: Float64)
    ensures
        is_whole(f@, n as nat),
{
    if n == 0 {
        proof {
            assert(0 * pow2(1) == 0 && 0 * pow2(1075) == 0);
        }
        return Float64 { bits: 0 };
    }
    let mut sig: u64 = n as u64;
    let mut sc: u64 = 1075;
    proof {
        lemma_pow2_pos(1075);
        lemma2_to64();
    }
    while sig < 0x10_0000_0000_0000
        invariant
            1 <= sig < 0x20_0000_0000_0000,
            sc <= 1075,
            sig * pow2(sc as nat) == n * pow2(1075),
            sig as int >= pow2((1075 - sc) as nat),
        decreases 0x20_0000_0000_0000 - sig,
    {
        proof {
            lemma2_to64_rest();
            if 1075 - sc >= 53 {
                lemma_power_at_least((1075 - sc) as nat, 53);
            }
            lemma_pow2_unfold(sc as nat);
            lemma_pow2_unfold((1075 - sc + 1) as nat);
            let h = pow2((sc - 1) as nat);
            assert((2 * sig) * h == sig * (2 * h)) by (nonlinear_arith);
        }
        sig = sig * 2;
        sc = sc - 1;
    }
    proof {
        lemma2_to64_rest();
        if 1075 - sc >= 54 {
            lemma_power_at_least((1075 - sc) as nat, 54);
        }
    }
    let bits: u64 = sc * 0x10_0000_0000_0000 + (sig - 0x10_0000_0000_0000);
    assert(exponent_field(bits) == sc);
    assert(significand(bits) == sig);
    Float64 { bits }
}

proof fn lemma_excess_low(p: nat)
    requires
        p >= 0x20_0000_0000_0000,
    ensures
        0x10_0000_0000_0000 * pow2(excess_bits(p)) <= p,
    decreases p,
{
    lemma2_to64();
    let k = excess_bits(p);
    lemma_pow2_unfold(k);
    if p / 2 < 0x20_0000_0000_0000 {
        assert(excess_bits(p / 2) == 0);
        assert(k == 1);
    } else {
        lemma_excess_low(p / 2);
    }
}

/// Scaling, told by numbers: a factor is `m * 2^e / 2^1075`, with `e` its
/// exponent bits and `m` its fraction bits behind a leading one, and `x / d` is
/// the product. A factor that is not a positive number gives nothing. A product
/// of at most 53 binary digits is rounded to the nearest whole number, halves up;
/// a longer one is first rounded to 53 digits. More than 16 bits give `65535`.
pub proof fn scaling_rounds_to_the_nearest(value: nat, factor: u64)
    requires
        value <= 65535,
    ensures
        !(0 < factor < 0x7FF0_0000_0000_0000) ==> scaled_units(value, factor) == 0,
        ({
            let product = value * (factor as nat % 0x10_0000_0000_0000 + 0x10_0000_0000_0000);
            let x = product * pow2(factor as nat / 0x10_0000_0000_0000);
            let d = pow2(1075);
            let r = scaled_units(value, factor);
            let off = 2 * (r * d) - 2 * x;
            0x10_0000_0000_0000 <= factor < 0x7FF0_0000_0000_0000 ==> {
                &&& product < 0x20_0000_0000_0000 && x < 65535 * d ==> r == (2 * x + d) / (2 * d)
                &&& 0x20_0000_0000_0001 * x < 0x20_0000_0000_0000 * (65535 * d) ==> -(
                0x20_0000_0000_0000 * d + 2 * x) <= 0x20_0000_0000_0000 * off
                    <= 0x20_0000_0000_0000 * d + 2 * x
                &&& 0x20_0000_0000_0000 * (65535 * d) <= 0x1F_FFFF_FFFF_FFFF * x
                    && 0x20_0000_0000_0001 * x < 0x20_0000_0000_0000 * pow2(2099) ==> r == 65535
            }
        }),
{
    if 0x10_0000_0000_0000 <= factor < 0x7FF0_0000_0000_0000 {
        let e = factor as nat / 0x10_0000_0000_0000;
        let m = factor as nat % 0x10_0000_0000_0000 + 0x10_0000_0000_0000;
        assert(1 <= e <= 2046);
        assert(significand(factor) == m && scale(factor) == e);
        let product = value * m;
        let k = excess_bits(product);
        let u = pow2(k);
        let p = round53(product);
        let up = pow2(e);
        let d = pow2(1075);
        let x = product * up;
        let r = scaled_units(value, factor);
        lemma2_to64();
        lemma2_to64_rest();
        lemma_pow2_pos(k);
        lemma_pow2_pos(e);
        lemma_pow2_pos(1075);
        float32::lemma_round_div_is_nearest(product, u);
        assert(-(product as int) <= 0x20_0000_0000_0000 * (p - product) <= product) by {
            if product >= 0x20_0000_0000_0000 {
                lemma_excess_low(product);
            } else {
                assert(u == 1);
                assert(p == product);
            }
        }
        assert(-(x as int) <= 0x20_0000_0000_0000 * (p * up - x) <= x) by (nonlinear_arith)
            requires
                -(product as int) <= 0x20_0000_0000_0000 * (p - product) <= product,
                x == product * up,
                up > 0,
        ;
        let y = p * up;
        assert(d * 65535 < pow2(2099)) by {
            lemma_pow2_adds(1075, 1024);
            if true {
                lemma_pow2_strictly_increases(16, 1024);
            }
            assert(d * 65535 < d * pow2(1024)) by (nonlinear_arith)
                requires
                    d > 0,
                    pow2(1024) > 65536,
            ;
        }
        if y < 65535 * d {
            let n = (2 * y + d) as int;
            let w = (2 * d) as int;
            assert(r == n / w);
            lemma_fundamental_div_mod(n, w);
            lemma_mod_bound(n, w);
            assert(w * (n / w) == 2 * (r * d)) by (nonlinear_arith)
                requires
                    w == 2 * d,
                    r == n / w,
            ;
        }
    }
}

/// Numbers are equal when their bits are, and the two zeros are equal; what is no
/// number equals nothing, not even itself.
pub proof fn numbers_equal_by_value(a: u64, b: u64)
    ensures
        ({
            let none = |x: u64|
                0x7FF0_0000_0000_0000 < x < 0x8000_0000_0000_0000 || x > 0xFFF0_0000_0000_0000;
            &&& none(a) || none(b) ==> !equal_numbers(a, b)
            &&& !none(a) && !none(b) && a == b ==> equal_numbers(a, b)
            &&& a != b ==> (equal_numbers(a, b) <==> (a == 0 && b == 0x8000_0000_0000_0000) || (a
                == 0x8000_0000_0000_0000 && b == 0))
            &&& equal_numbers(a, b) == equal_numbers(b, a)
        }),
{
}

} // verus!

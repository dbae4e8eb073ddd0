//! Single-precision numbers by their IEEE 754 bit pattern, with the few exact
//! operations that split arithmetic needs.
//!
//! A [`Float32`] holds the bits that `f32::to_bits` gives. Every operation is
//! integer arithmetic on significand and exponent, and rounds as IEEE 754
//! does: to the nearest representable number, ties to the even significand.

use vstd::arithmetic::div_mod::*;
use vstd::arithmetic::mul::*;
use vstd::arithmetic::power2::*;
use vstd::prelude::*;

verus! {

/// Bits of `0.5`.
pub const HALF_BITS: u32 = 0x3F00_0000;

/// Bits of `1.0`.
pub const ONE_BITS: u32 = 0x3F80_0000;

/// Bits of `0.10`.
pub const MIN_RATIO_BITS: u32 = 0x3DCC_CCCD;

/// Bits of `0.90`.
pub const MAX_RATIO_BITS: u32 = 0x3F66_6666;

/// A single-precision number, held as its bit pattern.
#[derive(Debug, Clone, Copy)]
pub struct Float32 {
    bits: u32,
}

impl View for Float32 {
    type V = u32;

    closed spec fn view(&self) -> u32 {
        self.bits
    }
}

/// The biased exponent field of a bit pattern.
pub open spec fn exponent_field(bits: u32) -> nat {
    (bits as nat / 0x80_0000) % 256
}

/// The fraction field of a bit pattern.
pub open spec fn fraction_field(bits: u32) -> nat {
    bits as nat % 0x80_0000
}

/// The sign bit is set.
pub open spec fn is_negative(bits: u32) -> bool {
    bits >= 0x8000_0000
}

/// Neither an infinity nor a NaN.
pub open spec fn is_finite(bits: u32) -> bool {
    exponent_field(bits) < 255
}

/// Not a number.
pub open spec fn is_nan(bits: u32) -> bool {
    !is_finite(bits) && fraction_field(bits) != 0
}

/// Zero of either sign.
pub open spec fn is_zero(bits: u32) -> bool {
    bits == 0 || bits == 0x8000_0000
}

/// Equal as numbers: the two zeros are equal, and a NaN equals nothing.
pub open spec fn equal_numbers(a: u32, b: u32) -> bool {
    !is_nan(a) && !is_nan(b) && (a == b || (is_zero(a) && is_zero(b)))
}

/// The significand as an integer: the magnitude of a finite number is
/// `significand * 2^(scale - 150)`.
pub open spec fn significand(bits: u32) -> nat {
    if exponent_field(bits) == 0 {
        fraction_field(bits)
    } else {
        fraction_field(bits) + 0x80_0000
    }
}

/// The exponent of a finite number, biased by 150.
pub open spec fn scale(bits: u32) -> nat {
    if exponent_field(bits) == 0 {
        1
    } else {
        exponent_field(bits)
    }
}

/// How many low bits of `p` do not fit into a 24-bit significand.
pub open spec fn excess_bits(p: nat) -> nat
    decreases p,
{
    if p < 0x100_0000 {
        0
    } else {
        1 + excess_bits(p / 2)
    }
}

/// The integer nearest to `n / d`, ties to even.
pub open spec fn round_div(n: nat, d: nat) -> nat {
    let q = n / d;
    let rest = n % d;
    if 2 * rest > d || (2 * rest == d && q % 2 == 1) {
        q + 1
    } else {
        q
    }
}

/// `p` rounded to 24 significant bits, ties to even.
pub open spec fn round24(p: nat) -> nat {
    let unit = pow2(excess_bits(p));
    round_div(p, unit) * unit
}

/// Among finite numbers without a sign the order of the bit patterns is the
/// order of the numbers they stand for.
pub proof fn bit_order_is_number_order(a: u32, b: u32)
    requires
        is_finite(a),
        is_finite(b),
        !is_negative(a),
        !is_negative(b),
    ensures
        a <= b <==> significand(a) * pow2(scale(a)) <= significand(b) * pow2(scale(b)),
{
    if a <= b {
        positive_bits_are_monotone(a, b);
    } else {
        positive_bits_are_monotone(b, a);
        let x = significand(a) * pow2(scale(a));
        let y = significand(b) * pow2(scale(b));
        lemma_pow2_pos(scale(a));
        lemma_pow2_pos(scale(b));
        if exponent_field(a) == exponent_field(b) {
            assert(significand(a) > significand(b));
            lemma_mul_strict_inequality(
                significand(b) as int,
                significand(a) as int,
                pow2(scale(a)) as int,
            );
        } else if scale(a) == scale(b) {
            assert(significand(a) > significand(b));
            lemma_mul_strict_inequality(
                significand(b) as int,
                significand(a) as int,
                pow2(scale(a)) as int,
            );
        } else {
            let unit = pow2(scale(b));
            lemma_pow2_adds(scale(b), (scale(a) - scale(b)) as nat);
            lemma_pow2_at_least_two((scale(a) - scale(b)) as nat);
            let f = pow2((scale(a) - scale(b)) as nat);
            assert(x > y) by (nonlinear_arith)
                requires
                    x == significand(a) * (unit * f),
                    y == significand(b) * unit,
                    significand(a) >= 0x80_0000,
                    significand(b) < 0x100_0000,
                    f >= 2,
                    unit > 0,
            ;
        }
    }
}

proof fn lemma_pow2_at_least_two(e: nat)
    requires
        e > 0,
    ensures
        pow2(e) >= 2,
{
    lemma_pow2_unfold(e);
    lemma_pow2_pos((e - 1) as nat);
}

proof fn positive_bits_are_monotone(a: u32, b: u32)
    requires
        is_finite(a),
        is_finite(b),
        !is_negative(a),
        !is_negative(b),
        a <= b,
    ensures
        significand(a) * pow2(scale(a)) <= significand(b) * pow2(scale(b)),
        exponent_field(a) <= exponent_field(b),
{
    let x = significand(a) * pow2(scale(a));
    let y = significand(b) * pow2(scale(b));
    lemma_pow2_pos(scale(a));
    lemma_pow2_pos(scale(b));
    if scale(a) == scale(b) {
        lemma_mul_inequality(
            significand(a) as int,
            significand(b) as int,
            pow2(scale(a)) as int,
        );
    } else {
        let unit = pow2(scale(a));
        lemma_pow2_adds(scale(a), (scale(b) - scale(a)) as nat);
        lemma_pow2_at_least_two((scale(b) - scale(a)) as nat);
        let f = pow2((scale(b) - scale(a)) as nat);
        assert(x <= y) by (nonlinear_arith)
            requires
                y == significand(b) * (unit * f),
                x == significand(a) * unit,
                significand(b) >= 0x80_0000,
                significand(a) < 0x100_0000,
                f >= 2,
                unit > 0,
        ;
    }
}

/// The bits that a raw ratio is clamped to: `0.5` for an infinity or a NaN,
/// else the nearest number in `[0.10, 0.90]`.
pub open spec fn clamped_bits(raw: u32) -> u32 {
    if !is_finite(raw) {
        HALF_BITS
    } else if is_negative(raw) || raw < MIN_RATIO_BITS {
        MIN_RATIO_BITS
    } else if raw > MAX_RATIO_BITS {
        MAX_RATIO_BITS
    } else {
        raw
    }
}

/// A ratio as the layout tree stores it after clamping.
pub open spec fn is_ratio(bits: u32) -> bool {
    MIN_RATIO_BITS <= bits <= MAX_RATIO_BITS
}

/// Clamping yields a ratio, and leaves a ratio alone.
pub proof fn clamping_is_idempotent(raw: u32)
    ensures
        is_ratio(clamped_bits(raw)),
        clamped_bits(clamped_bits(raw)) == clamped_bits(raw),
        is_ratio(raw) ==> clamped_bits(raw) == raw,
{
}

/// The integer part of the single-precision product of `n` and a ratio.
pub open spec fn product_floor(n: nat, ratio: u32) -> nat {
    round24(n * significand(ratio)) / pow2((150 - scale(ratio)) as nat)
}

/// The single-precision product of `n` and the multiplier exceeds `limit`.
pub open spec fn product_exceeds(n: nat, multiplier: u32, limit: nat) -> bool {
    round24(n * significand(multiplier)) * pow2(scale(multiplier)) > limit * pow2(150)
}

proof fn lemma_excess_is_place(p: nat, e: nat)
    requires
        pow2(e + 23) <= p < pow2(e + 24),
    ensures
        excess_bits(p) == e,
    decreases e,
{
    lemma2_to64();
    if e > 0 {
        lemma_pow2_unfold(e + 23);
        lemma_pow2_unfold(e + 24);
        lemma_pow2_adds(23, e);
        lemma_pow2_at_least_two(e);
        assert(pow2(23) * pow2(e) >= 0x100_0000) by (nonlinear_arith)
            requires
                pow2(23) == 0x80_0000,
                pow2(e) >= 2,
        ;
        lemma_excess_is_place(p / 2, (e - 1) as nat);
    }
}

/// The integer part of the product of `n` and a ratio, told by the number that
/// the bits stand for: the product is `n * m / 2^(150 - e)`, with `e` the
/// exponent bits and `m` the fraction bits behind a leading one. A product of
/// more than 24 binary digits counts with half of its 24th digit added, which
/// is how it is rounded; a shorter one is exact.
pub proof fn ratios_multiply_as_numbers(n: nat, ratio: u32, place: nat)
    requires
        n <= 65535,
        0x3DCC_CCCD <= ratio <= 0x3F66_6666,
    ensures
        ({
            let product = n * (ratio as nat % 0x80_0000 + 0x80_0000);
            let one = pow2((150 - ratio as nat / 0x80_0000) as nat);
            &&& product < 0x100_0000 ==> product_floor(n, ratio) == product / one
            &&& pow2(place + 24) <= product < pow2(place + 25) ==> product_floor(n, ratio) == (
            product + pow2(place)) / one
        }),
{
    let m = ratio as nat % 0x80_0000 + 0x80_0000;
    let product = n * m;
    let e = ratio as nat / 0x80_0000;
    let one = pow2((150 - e) as nat);
    assert(123 <= e <= 126);
    assert(exponent_field(ratio) == e);
    assert(significand(ratio) == m && scale(ratio) == e);
    lemma2_to64();
    if product < 0x100_0000 {
        assert(excess_bits(product) == 0);
        assert(round24(product) == product);
    }
    if pow2(place + 24) <= product < pow2(place + 25) {
        lemma_excess_is_place(product, place + 1);
        let h = pow2(place);
        let u = pow2(place + 1);
        lemma_pow2_unfold(place + 1);
        lemma_pow2_pos(place);
        assert(product < pow2(40)) by {
            lemma2_to64_rest();
            assert(n * m < 65536 * 0x100_0000) by (nonlinear_arith)
                requires
                    n <= 65535,
                    m < 0x100_0000,
            ;
        }
        assert(place < 16) by {
            if place >= 16 {
                if place > 16 {
                    lemma_pow2_strictly_increases(40, place + 24);
                }
            }
        }
        let w = pow2((149 - e - place) as nat);
        let half_w = pow2((148 - e - place) as nat);
        lemma_pow2_adds(place + 1, (149 - e - place) as nat);
        lemma_pow2_unfold((149 - e - place) as nat);
        lemma_pow2_pos((148 - e - place) as nat);
        assert(one == u * w && w == 2 * half_w);
        let q = round_div(product, u);
        let t = (product + h) / u;
        let d = product / u;
        lemma_fundamental_div_mod(product as int, u as int);
        lemma_mod_bound(product as int, u as int);
        let rest = product % u;
        assert(t == if rest >= h { d + 1 } else { d }) by {
            if rest >= h {
                assert(product + h == (d + 1) * u + (rest - h)) by (nonlinear_arith)
                    requires
                        product == u * d + rest,
                        u == 2 * h,
                ;
                lemma_fundamental_div_mod_converse(
                    (product + h) as int,
                    u as int,
                    (d + 1) as int,
                    rest - h,
                );
            } else {
                assert(product + h == d * u + (rest + h)) by (nonlinear_arith)
                    requires
                        product == u * d + rest,
                ;
                lemma_fundamental_div_mod_converse(
                    (product + h) as int,
                    u as int,
                    d as int,
                    (rest + h) as int,
                );
            }
        }
        lemma_div_denominator((product + h) as int, u as int, w as int);
        assert((q * u) / u == q) by {
            lemma_div_by_multiple(q as int, u as int);
        }
        lemma_div_denominator((q * u) as int, u as int, w as int);
        if q != t {
            assert(rest == h && d % 2 == 0 && q == d && t == d + 1);
            lemma_fundamental_div_mod(d as int, w as int);
            lemma_mod_bound(d as int, w as int);
            let (a, b) = (d / w, d % w);
            assert(b % 2 == 0) by {
                assert(d == 2 * (half_w * a) + b) by (nonlinear_arith)
                    requires
                        d == w * a + b,
                        w == 2 * half_w,
                ;
            }
            assert(b + 1 < w);
            assert(d + 1 == a * w + (b + 1)) by (nonlinear_arith)
                requires
                    d == w * a + b,
            ;
            lemma_fundamental_div_mod_converse((d + 1) as int, w as int, a as int, (b + 1) as int);
        }
    }
}

/// Half of a number of cells, rounded down, is what the ratio `0.5` gives.
pub proof fn half_is_half(n: nat)
    requires
        n <= 65535,
    ensures
        product_floor(n, 0x3F00_0000) == n / 2,
{
    let product = n * 0x80_0000;
    lemma2_to64();
    if product < 0x100_0000 {
        ratios_multiply_as_numbers(n, 0x3F00_0000, 0);
    } else {
        let place = lemma_place(product);
        ratios_multiply_as_numbers(n, 0x3F00_0000, place);
        lemma_pow2_adds(24, place);
        assert(pow2(place) <= n) by (nonlinear_arith)
            requires
                0x100_0000 * pow2(place) <= n * 0x80_0000,
        ;
        assert((n * 0x80_0000 + pow2(place)) / 0x100_0000 == n / 2);
    }
}

proof fn lemma_place(p: nat) -> (place: nat)
    requires
        0x100_0000 <= p < 0x100_0000_0000,
    ensures
        pow2(place + 24) <= p < pow2(place + 25),
{
    lemma2_to64();
    let e = lemma_place_from(p, 0);
    e
}

proof fn lemma_place_from(p: nat, from: nat) -> (place: nat)
    requires
        from <= 16,
        pow2(from + 24) <= p < 0x100_0000_0000,
    ensures
        pow2(place + 24) <= p < pow2(place + 25),
    decreases 16 - from,
{
    lemma2_to64();
    lemma2_to64_rest();
    if p < pow2(from + 25) {
        from
    } else {
        assert(from < 16);
        lemma_place_from(p, from + 1)
    }
}

/// The bounds of a ratio are the single-precision numbers nearest to a tenth and
/// nine tenths, and `0.5` is exact: with `m` the 24 binary digits and `e` the
/// exponent bits, a number is `m / 2^(150 - e)`, so that ten times it lies
/// within five units of the last digit.
pub proof fn ratio_bounds_are_tenths(raw: u32)
    ensures
        ({
            let c = clamped_bits(raw);
            let exponent = raw as nat / 0x80_0000 % 256;
            &&& raw as nat == 0x3DCC_CCCD ==> raw as nat / 0x80_0000 == 123 && -5 < 10 * (raw as nat
                % 0x80_0000 + 0x80_0000) - pow2(27) < 5
            &&& raw as nat == 0x3F66_6666 ==> raw as nat / 0x80_0000 == 126 && -5 < 10 * (raw as nat
                % 0x80_0000 + 0x80_0000) - 9 * pow2(24) < 5
            &&& 0x3DCC_CCCD <= c <= 0x3F66_6666
            &&& exponent == 255 ==> c == 0x3F00_0000
            &&& exponent < 255 && raw >= 0x8000_0000 ==> c == 0x3DCC_CCCD
            &&& raw < 0x3DCC_CCCD ==> c == 0x3DCC_CCCD
            &&& 0x3DCC_CCCD <= raw <= 0x3F66_6666 ==> c == raw
            &&& exponent < 255 && 0x3F66_6666 < raw < 0x8000_0000 ==> c == 0x3F66_6666
        }),
{
    lemma2_to64();
}

proof fn lemma_excess_step(p: nat, k: nat, t: nat)
    requires
        t == p / pow2(k),
        t >= 0x100_0000,
        excess_bits(p) == k + excess_bits(t),
    ensures
        t / 2 == p / pow2(k + 1),
        excess_bits(p) == k + 1 + excess_bits(t / 2),
        pow2(k + 1) == 2 * pow2(k),
        2 * pow2(k) <= p,
{
    lemma_pow2_unfold(k + 1);
    lemma_pow2_pos(k);
    lemma_div_denominator(p as int, pow2(k) as int, 2);
    assert(pow2(k) * 2 == 2 * pow2(k));
    lemma_fundamental_div_mod(p as int, pow2(k) as int);
    assert(p >= pow2(k) * t) by {
        lemma_mod_bound(p as int, pow2(k) as int);
    }
    assert(pow2(k) * t >= 2 * pow2(k)) by (nonlinear_arith)
        requires
            t >= 2,
            pow2(k) > 0,
    ;
}

/// Rounds a product to 24 significant bits.
fn round_to_single(p: u64) -> (r: u64)
    requires
        p < 0x1_0000_0000_0000,
    ensures
        r == round24(p as nat),
        r <= 2 * p,
{
    let mut unit: u64 = 1;
    let mut t: u64 = p;
    let ghost mut k: nat = 0;
    proof {
        lemma2_to64();
    }
    while t >= 0x100_0000
        invariant
            unit == pow2(k),
            t == p as nat / pow2(k),
            excess_bits(p as nat) == k + excess_bits(t as nat),
            p < 0x1_0000_0000_0000,
            1 <= unit,
            unit <= p || unit == 1,
        decreases t,
    {
        proof {
            lemma_excess_step(p as nat, k, t as nat);
        }
        unit = unit * 2;
        t = t / 2;
        proof {
            k = k + 1;
        }
    }
    assert(excess_bits(p as nat) == k);
    let q: u64 = p / unit;
    let rest: u64 = p % unit;
    proof {
        lemma_fundamental_div_mod(p as int, unit as int);
        lemma_mod_bound(p as int, unit as int);
        assert(q * unit <= p) by (nonlinear_arith)
            requires
                p == unit * q + rest,
                rest >= 0,
        ;
        assert((q + 1) * unit == q * unit + unit) by (nonlinear_arith);
    }
    if 2 * rest > unit || (2 * rest == unit && q % 2 == 1) {
        assert(rest >= 1);
        assert(unit <= p);
        (q + 1) * unit
    } else {
        q * unit
    }
}

impl PartialEq for Float32 {
    fn eq(&self, other: &Self) -> (same: bool) {
        let (a, b) = (self.bits, other.bits);
        let both_zero: bool = (a == 0 || a == 0x8000_0000) && (b == 0 || b == 0x8000_0000);
        !self.is_nan() && !other.is_nan() && (a == b || both_zero)
    }
}

impl vstd::std_specs::cmp::PartialEqSpecImpl for Float32 {
    open spec fn obeys_eq_spec() -> bool {
        true
    }

    open spec fn eq_spec(&self, other: &Self) -> bool {
        equal_numbers(self@, other@)
    }
}

impl Float32 {
    /// The number with the given bit pattern.
    #[must_use]
    pub fn from_bits(bits: u32) -> (f: Self)
        ensures
            f@ == bits,
    {
        Self { bits }
    }

    /// The bit pattern.
    #[must_use]
    pub fn to_bits(self) -> (bits: u32)
        ensures
            bits == self@,
    {
        self.bits
    }

    fn exponent(self) -> (e: u32)
        ensures
            e == exponent_field(self@),
    {
        (self.bits / 0x80_0000) % 256
    }

    /// The significand and the exponent biased by 150.
    fn parts(self) -> (p: (u32, u32))
        ensures
            p.0 == significand(self@),
            p.1 == scale(self@),
            p.0 < 0x100_0000,
            1 <= p.1 <= 255,
    {
        let e: u32 = self.exponent();
        let f: u32 = self.bits % 0x80_0000;
        if e == 0 {
            (f, 1)
        } else {
            (f + 0x80_0000, e)
        }
    }

    /// True for a NaN.
    #[must_use]
    pub fn is_nan(self) -> (yes: bool)
        ensures
            yes == is_nan(self@),
    {
        !self.is_finite() && self.bits % 0x80_0000 != 0
    }

    /// True for every number that is neither infinite nor a NaN.
    #[must_use]
    pub fn is_finite(self) -> (finite: bool)
        ensures
            finite == is_finite(self@),
    {
        self.exponent() < 255
    }

    /// The ratio nearest to this number; `0.5` for an infinity or a NaN.
    #[must_use]
    pub fn clamp_ratio(self) -> (r: Self)
        ensures
            r@ == clamped_bits(self@),
    {
        if !self.is_finite() {
            Self { bits: HALF_BITS }
        } else if self.bits >= 0x8000_0000 || self.bits < MIN_RATIO_BITS {
            Self { bits: MIN_RATIO_BITS }
        } else if self.bits > MAX_RATIO_BITS {
            Self { bits: MAX_RATIO_BITS }
        } else {
            self
        }
    }

    /// The integer part of the product of `n` and this ratio.
    #[must_use]
    pub fn floor_of_product(self, n: u16) -> (r: u32)
        requires
            is_ratio(self@),
        ensures
            r == product_floor(n as nat, self@),
    {
        let (sig, sc) = self.parts();
        assert(123 <= sc <= 126);
        assert(n * sig < 0x1_0000_0000_0000) by (nonlinear_arith)
            requires
                n <= 65535,
                sig < 0x100_0000,
        ;
        let p: u64 = n as u64 * sig as u64;
        assert(n as nat * sig as nat == p);
        assert(p < 0x100_0000_0000) by (nonlinear_arith)
            requires
                p == n * sig,
                n <= 65535,
                sig < 0x100_0000,
        ;
        let rounded: u64 = round_to_single(p);
        proof {
            lemma2_to64();
        }
        if sc == 123 {
            (rounded / 0x800_0000) as u32
        } else if sc == 124 {
            (rounded / 0x400_0000) as u32
        } else if sc == 125 {
            (rounded / 0x200_0000) as u32
        } else {
            (rounded / 0x100_0000) as u32
        }
    }

    /// True for a finite number above zero.
    #[must_use]
    pub fn is_positive(self) -> (positive: bool)
        ensures
            positive == is_positive(self@),
    {
        self.is_finite() && self.bits < 0x8000_0000 && self.bits != 0
    }

    /// Whether the single-precision product of `n` and this positive number
    /// exceeds `limit`.
    #[must_use]
    pub fn product_is_above(self, n: u16, limit: u16) -> (above: bool)
        requires
            is_positive(self@),
        ensures
            above == product_exceeds(n as nat, self@, limit as nat),
    {
        let (sig, sc) = self.parts();
        assert(n * sig < 0x100_0000_0000) by (nonlinear_arith)
            requires
                n <= 65535,
                sig < 0x100_0000,
        ;
        let p: u64 = n as u64 * sig as u64;
        assert(n as nat * sig as nat == p);
        let r: u64 = round_to_single(p);
        if sc >= 150 {
            let up: u32 = sc - 150;
            proof {
                lemma_scale_up(r as nat, sc as nat, limit as nat);
            }
            if up >= 17 {
                proof {
                    lemma_large_power(r as nat, up as nat);
                }
                r > 0
            } else {
                let unit: u64 = power_of_two(up);
                assert(r * unit <= 0x200_0000_0000 * 0x1_0000) by (nonlinear_arith)
                    requires
                        r <= 0x200_0000_0000,
                        unit <= 0x1_0000,
                ;
                r * unit > limit as u64
            }
        } else {
            let down: u32 = 150 - sc;
            proof {
                lemma_scale_down(r as nat, sc as nat, limit as nat);
            }
            if down >= 42 {
                proof {
                    lemma_small_power(limit as nat, down as nat);
                }
                limit == 0 && r > 0
            } else {
                let unit: u64 = power_of_two(down);
                assert(limit * unit <= 0xffff * 0x200_0000_0000) by (nonlinear_arith)
                    requires
                        limit <= 0xffff,
                        unit <= 0x200_0000_0000,
                ;
                r > limit as u64 * unit
            }
        }
    }

    /// The ratio after the divider of a split of `total` cells has been
    /// dragged by `delta` cells.
    #[must_use]
    pub fn dragged(self, delta: i32, total: u16) -> (r: Self)
        requires
            total > 0,
        ensures
            r@ == dragged_bits(self@, delta as int, total as nat),
    {
        let start = self.clamp_ratio();
        let (sig, sc) = start.parts();
        assert(123 <= sc <= 126);
        let unit: i128 = power_of_two(150 - sc) as i128;
        proof {
            lemma2_to64();
        }
        assert(sig * total < 0x100_0000_0000 && 0 <= sig * total) by (nonlinear_arith)
            requires
                sig < 0x100_0000,
                0 <= total <= 65535,
        ;
        assert(-0x8000_0000 * 0x800_0000 <= delta * unit <= 0x8000_0000 * 0x800_0000)
            by (nonlinear_arith)
            requires
                -0x8000_0000 <= delta <= 0x8000_0000,
                0 <= unit <= 0x800_0000,
        ;
        assert(1 <= total * unit <= 65535 * 0x800_0000) by (nonlinear_arith)
            requires
                1 <= total <= 65535,
                1 <= unit <= 0x800_0000,
        ;
        let num: i128 = sig as i128 * total as i128 + delta as i128 * unit;
        let den: i128 = total as i128 * unit;
        Self { bits: nearest_ratio(num, den) }
    }
}

/// A finite number above zero.
pub open spec fn is_positive(bits: u32) -> bool {
    is_finite(bits) && !is_negative(bits) && bits != 0
}

/// The bits of the ratio nearest to `num / den`: the bounds outside
/// `(0.10, 0.90)`, else the nearest single-precision number, ties to even.
/// Numbers in `[2^(23-s), 2^(24-s))` are multiples of `2^-s`.
pub open spec fn nearest_ratio_bits(num: int, den: int) -> u32 {
    if num * 0x800_0000 <= significand(MIN_RATIO_BITS) * den {
        MIN_RATIO_BITS
    } else if num * 0x100_0000 >= significand(MAX_RATIO_BITS) * den {
        MAX_RATIO_BITS
    } else if 2 * num >= den {
        (126 * 0x80_0000 + round_div((num * 0x100_0000) as nat, den as nat) - 0x80_0000) as u32
    } else if 4 * num >= den {
        (125 * 0x80_0000 + round_div((num * 0x200_0000) as nat, den as nat) - 0x80_0000) as u32
    } else if 8 * num >= den {
        (124 * 0x80_0000 + round_div((num * 0x400_0000) as nat, den as nat) - 0x80_0000) as u32
    } else {
        (123 * 0x80_0000 + round_div((num * 0x800_0000) as nat, den as nat) - 0x80_0000) as u32
    }
}

/// The ratio nearest to the clamped ratio plus `delta / total`.
pub open spec fn dragged_bits(ratio: u32, delta: int, total: nat) -> u32 {
    let start = clamped_bits(ratio);
    let unit = pow2((150 - scale(start)) as nat);
    nearest_ratio_bits(significand(start) * total + delta * unit, (total * unit) as int)
}

fn power_of_two(e: u32) -> (p: u64)
    requires
        e <= 57,
    ensures
        p == pow2(e as nat),
        1 <= p <= 0x200_0000_0000_0000,
        e <= 16 ==> p <= 0x1_0000,
        e <= 27 ==> p <= 0x800_0000,
        e <= 41 ==> p <= 0x200_0000_0000,
{
    let mut p: u64 = 1;
    let mut i: u32 = 0;
    proof {
        lemma2_to64();
        lemma2_to64_rest();
    }
    while i < e
        invariant
            0 <= i <= e <= 57,
            p == pow2(i as nat),
        decreases e - i,
    {
        proof {
            lemma_pow2_unfold((i + 1) as nat);
            lemma2_to64_rest();
            if i < 57 {
                lemma_pow2_strictly_increases(i as nat, 57);
            }
        }
        p = p * 2;
        i = i + 1;
    }
    proof {
        lemma_pow2_pos(e as nat);
        if e < 57 {
            lemma_pow2_strictly_increases(e as nat, 57);
        }
        if e < 16 {
            lemma_pow2_strictly_increases(e as nat, 16);
        }
        if e < 27 {
            lemma_pow2_strictly_increases(e as nat, 27);
        }
        if e < 41 {
            lemma_pow2_strictly_increases(e as nat, 41);
        }
    }
    p
}

/// Rounds the quotient of a positive and a larger positive number.
fn round_quotient(n: i128, d: i128) -> (q: i128)
    requires
        0 <= n < 0x1000_0000_0000_0000_0000,
        0 < d < 0x1000_0000_0000_0000,
    ensures
        q == round_div(n as nat, d as nat),
{
    let q: i128 = n / d;
    let rest: i128 = n % d;
    if 2 * rest > d || (2 * rest == d && q % 2 == 1) {
        q + 1
    } else {
        q
    }
}

fn nearest_ratio(num: i128, den: i128) -> (bits: u32)
    requires
        0 < den < 0x1_0000_0000_0000,
        -0x1000_0000_0000_0000 < num < 0x1000_0000_0000_0000,
    ensures
        bits == nearest_ratio_bits(num as int, den as int),
{
    assert(significand(MIN_RATIO_BITS) == 13421773);
    assert(significand(MAX_RATIO_BITS) == 15099494);
    if num * 0x800_0000 <= 13421773 * den {
        return MIN_RATIO_BITS;
    }
    if num * 0x100_0000 >= 15099494 * den {
        return MAX_RATIO_BITS;
    }
    assert(0 < num < den);
    if 2 * num >= den {
        let q: i128 = round_quotient(num * 0x100_0000, den);
        proof {
            lemma_quotient_bound(num * 0x100_0000, den as int, 0x80_0000, 0x100_0000);
        }
        (126 * 0x80_0000 + q - 0x80_0000) as u32
    } else if 4 * num >= den {
        let q: i128 = round_quotient(num * 0x200_0000, den);
        proof {
            lemma_quotient_bound(num * 0x200_0000, den as int, 0x80_0000, 0x100_0000);
        }
        (125 * 0x80_0000 + q - 0x80_0000) as u32
    } else if 8 * num >= den {
        let q: i128 = round_quotient(num * 0x400_0000, den);
        proof {
            lemma_quotient_bound(num * 0x400_0000, den as int, 0x80_0000, 0x100_0000);
        }
        (124 * 0x80_0000 + q - 0x80_0000) as u32
    } else {
        let q: i128 = round_quotient(num * 0x800_0000, den);
        proof {
            lemma_quotient_bound(num * 0x800_0000, den as int, 0x80_0000, 0x100_0000);
        }
        (123 * 0x80_0000 + q - 0x80_0000) as u32
    }
}

proof fn lemma_quotient_bound(n: int, d: int, low: int, high: int)
    requires
        0 < d,
        0 <= n,
        low * d <= n,
        n <= high * d,
    ensures
        low <= round_div(n as nat, d as nat) <= high + 1,
{
    lemma_fundamental_div_mod(n, d);
    lemma_mod_bound(n, d);
    let q = n / d;
    assert(low <= q) by (nonlinear_arith)
        requires
            n == d * q + n % d,
            n % d < d,
            low * d <= n,
            d > 0,
    ;
    assert(q <= high) by (nonlinear_arith)
        requires
            n == d * q + n % d,
            n % d >= 0,
            n <= high * d,
            d > 0,
    ;
}

proof fn lemma_scale_up(r: nat, sc: nat, limit: nat)
    requires
        sc >= 150,
    ensures
        (r * pow2(sc) > limit * pow2(150)) == (r * pow2((sc - 150) as nat) > limit),
{
    let u = pow2((sc - 150) as nat);
    let b = pow2(150);
    lemma_pow2_adds((sc - 150) as nat, 150);
    lemma_pow2_pos(150);
    assert((r * (u * b) > limit * b) == (r * u > limit)) by (nonlinear_arith)
        requires
            b > 0,
    {
        assert(r * (u * b) == (r * u) * b);
    }
}

proof fn lemma_scale_down(r: nat, sc: nat, limit: nat)
    requires
        sc < 150,
    ensures
        (r * pow2(sc) > limit * pow2(150)) == (r > limit * pow2((150 - sc) as nat)),
{
    let u = pow2((150 - sc) as nat);
    let b = pow2(sc);
    lemma_pow2_adds((150 - sc) as nat, sc);
    lemma_pow2_pos(sc);
    assert((r * b > limit * (u * b)) == (r > limit * u)) by (nonlinear_arith)
        requires
            b > 0,
    {
        assert(limit * (u * b) == (limit * u) * b);
    }
}

proof fn lemma_large_power(r: nat, up: nat)
    requires
        up >= 17,
    ensures
        r > 0 ==> r * pow2(up) > 65535,
        r == 0 ==> r * pow2(up) == 0,
{
    lemma2_to64();
    if up > 17 {
        lemma_pow2_strictly_increases(17, up);
    }
    let u = pow2(up);
    assert(r > 0 ==> r * u >= u) by (nonlinear_arith)
        requires
            u > 0,
    ;
}

proof fn lemma_small_power(limit: nat, down: nat)
    requires
        down >= 42,
    ensures
        limit > 0 ==> limit * pow2(down) >= 0x400_0000_0000,
        limit == 0 ==> limit * pow2(down) == 0,
{
    lemma2_to64_rest();
    if down > 42 {
        lemma_pow2_strictly_increases(42, down);
    }
    let u = pow2(down);
    assert(limit > 0 ==> limit * u >= u) by (nonlinear_arith)
        requires
            u > 0,
    ;
}

/// Rounded division is off by at most half of the divisor.
pub proof fn lemma_round_div_is_nearest(n: nat, d: nat)
    requires
        d > 0,
    ensures
        -(d as int) <= 2 * (round_div(n, d) * d - n) <= d,
{
    lemma_fundamental_div_mod(n as int, d as int);
    lemma_mod_bound(n as int, d as int);
    let q = n / d;
    let rest = n % d;
    assert(q * d == n - rest) by (nonlinear_arith)
        requires
            n == d * q + rest,
    ;
    assert((q + 1) * d == n - rest + d) by (nonlinear_arith)
        requires
            n == d * q + rest,
    ;
}

/// A dragged divider changes the ratio by the part of the span that it was moved.
/// With `m` the 24 binary digits and `e` the exponent bits, a number is
/// `m / 2^(150 - e)`; the ratio before the drag, clamped, plus `delta / total` is
/// `num / den`. A sum of at most a tenth, or of at least nine tenths, gives that
/// bound, and any other the number nearest to it.
pub proof fn drags_move_the_ratio(ratio: u32, delta: int, total: nat)
    requires
        0x3DCC_CCCD <= ratio <= 0x3F66_6666,
        total > 0,
    ensures
        ({
            let m = ratio as nat % 0x80_0000 + 0x80_0000;
            let unit = pow2((150 - ratio as nat / 0x80_0000) as nat);
            let num = m * total + delta * unit;
            let den = total * unit;
            let out = dragged_bits(ratio, delta, total);
            let m_out = out as nat % 0x80_0000 + 0x80_0000;
            let off = 2 * (m_out * den - num * pow2((150 - out as nat / 0x80_0000) as nat));
            &&& 0x3DCC_CCCD <= out <= 0x3F66_6666
            &&& num * pow2(27) <= 0xCC_CCCD * den ==> out == 0x3DCC_CCCD
            &&& num * pow2(24) >= 0xE6_6666 * den ==> out == 0x3F66_6666
            &&& 0xCC_CCCD * den < num * pow2(27) && num * pow2(24) < 0xE6_6666 * den ==> -(
            den as int) <= off <= den
        }),
{
    lemma2_to64();
    let e = ratio as nat / 0x80_0000;
    let m = ratio as nat % 0x80_0000 + 0x80_0000;
    assert(123 <= e <= 126);
    assert(exponent_field(ratio) == e);
    assert(significand(ratio) == m && scale(ratio) == e);
    let unit = pow2((150 - e) as nat);
    lemma_pow2_pos((150 - e) as nat);
    let num = m * total + delta * unit;
    let den = total * unit;
    assert(den > 0) by (nonlinear_arith)
        requires
            den == total * unit,
            total > 0,
            unit > 0,
    ;
    assert(significand(MIN_RATIO_BITS) == 0xCC_CCCD);
    assert(significand(MAX_RATIO_BITS) == 0xE6_6666);
    let out = dragged_bits(ratio, delta, total);
    assert(out == nearest_ratio_bits(num, den as int));
    if 0xCC_CCCD * den < num * 0x800_0000 && num * 0x100_0000 < 0xE6_6666 * den {
        let (k, c) = if 2 * num >= den {
            (126nat, 0x100_0000int)
        } else if 4 * num >= den {
            (125nat, 0x200_0000int)
        } else if 8 * num >= den {
            (124nat, 0x400_0000int)
        } else {
            (123nat, 0x800_0000int)
        };
        let n = num * c;
        let q = round_div(n as nat, den as nat);
        assert(c == pow2((150 - k) as nat));
        lemma_quotient_bound(n, den as int, 0x80_0000, 0x100_0000);
        lemma_round_div_is_nearest(n as nat, den);
        let w = (q * den) as int;
        assert(q * den == w);
        if k == 126 {
            assert(q <= 0xE6_6666) by (nonlinear_arith)
                requires
                    2 * (q * den - n) <= den,
                    n < 0xE6_6666 * den,
                    den > 0,
            ;
        } else {
            assert(q <= 0x100_0000) by (nonlinear_arith)
                requires
                    2 * (q * den - n) <= den,
                    n < 0x100_0000 * den,
                    den > 0,
            ;
        }
        if k == 123 {
            assert(q >= 0xCC_CCCD) by (nonlinear_arith)
                requires
                    2 * (q * den - n) >= -den,
                    n > 0xCC_CCCD * den,
                    den > 0,
            ;
        }
        assert(out == k * 0x80_0000 + q - 0x80_0000);
        if q < 0x100_0000 {
            assert(out as nat / 0x80_0000 == k);
            assert(out as nat % 0x80_0000 + 0x80_0000 == q);
        } else {
            assert(q == 0x100_0000);
            assert(out as nat / 0x80_0000 == k + 1);
            assert(out as nat % 0x80_0000 == 0);
            let half = pow2((150 - (k + 1)) as nat);
            assert(c == 2 * half);
            assert(num * c == 2 * (num * half)) by (nonlinear_arith)
                requires
                    c == 2 * half,
            ;
        }
    }
}

/// Whether a product is above a limit, told by numbers: the multiplier is
/// `m * 2^e / 2^150`. A product that is not above the limit is never taken to be,
/// and one that is above it by more than its last binary digit always is.
pub proof fn products_compare_as_numbers(n: nat, multiplier: u32, limit: nat)
    requires
        n <= 65535,
        limit <= 65535,
        0 < multiplier < 0x7F80_0000,
    ensures
        ({
            let exponent = multiplier as nat / 0x80_0000;
            let fraction = multiplier as nat % 0x80_0000;
            let m = if exponent == 0 {
                fraction
            } else {
                fraction + 0x80_0000
            };
            let e = if exponent == 0 {
                1
            } else {
                exponent
            };
            let product = n * m * pow2(e);
            &&& product <= limit * pow2(150) ==> !product_exceeds(n, multiplier, limit)
            &&& 0xFF_FFFF * product > 0x100_0000 * (limit * pow2(150)) ==> product_exceeds(
                n,
                multiplier,
                limit,
            )
        }),
{
    let m = significand(multiplier);
    let e = scale(multiplier);
    let p = n * m;
    let k = excess_bits(p);
    let u = pow2(k);
    let up = pow2(e);
    let r = round24(p);
    let big = limit * pow2(150);
    assert(multiplier as nat / 0x80_0000 % 256 == multiplier as nat / 0x80_0000);
    assert(p < 0x100_0000_0000) by (nonlinear_arith)
        requires
            p == n * m,
            n <= 65535,
            m < 0x100_0000,
    ;
    lemma_pow2_pos(k);
    lemma_pow2_pos(e);
    lemma_pow2_pos(150);
    lemma2_to64();
    lemma2_to64_rest();
    if p >= 0x100_0000 {
        let place = lemma_place(p);
        lemma_excess_is_place(p, place + 1);
        assert(k == place + 1);
    }
    lemma_round_div_is_nearest(p, u);
    assert(p < 0x100_0000 ==> k == 0);
    assert(p >= 0x100_0000 ==> u * 0x80_0000 <= p < u * 0x100_0000) by {
        if p >= 0x100_0000 {
            lemma_pow2_adds(k, 23);
            lemma_pow2_adds(k, 24);
        }
    }
    if p * up <= big {
        assert(r * up <= big) by {
            if k == 0 {
                assert(u == 1);
                assert(r == p);
            } else if e > 150 {
                let s = (e - 150) as nat;
                lemma_pow2_adds(150, s);
                lemma_pow2_pos(s);
                assert(p * (pow2(150) * pow2(s)) > limit * pow2(150)) by (nonlinear_arith)
                    requires
                        p >= 0x100_0000,
                        limit <= 65535,
                        pow2(s) >= 1,
                        pow2(150) >= 1,
                ;
            } else {
                let s = (150 - e) as nat;
                let one = pow2(s);
                lemma_pow2_adds(e, s);
                lemma_pow2_pos(s);
                assert(limit * pow2(150) == (limit * one) * up) by (nonlinear_arith)
                    requires
                        pow2(150) == up * one,
                ;
                assert(p <= limit * one) by (nonlinear_arith)
                    requires
                        p * up <= (limit * one) * up,
                        up > 0,
                ;
                if s < k {
                    lemma_pow2_strictly_increases(s, k);
                    assert(limit * one < p) by (nonlinear_arith)
                        requires
                            limit <= 65535,
                            one < u,
                            u * 0x80_0000 <= p,
                            one > 0,
                    ;
                }
                let t = pow2((s - k) as nat);
                lemma_pow2_adds(k, (s - k) as nat);
                let a = limit * t;
                assert(limit * one == a * u) by (nonlinear_arith)
                    requires
                        one == u * t,
                        a == limit * t,
                ;
                let q = p / u;
                lemma_fundamental_div_mod(p as int, u as int);
                lemma_mod_bound(p as int, u as int);
                let rest = p % u;
                assert(q <= a) by (nonlinear_arith)
                    requires
                        p == u * q + rest,
                        rest >= 0,
                        p <= a * u,
                        u > 0,
                ;
                assert(rest > 0 ==> q < a) by (nonlinear_arith)
                    requires
                        p == u * q + rest,
                        p <= a * u,
                        q <= a,
                        u > 0,
                ;
                assert(round_div(p, u) <= a);
                assert(r <= limit * one) by (nonlinear_arith)
                    requires
                        r == round_div(p, u) * u,
                        round_div(p, u) <= a,
                        limit * one == a * u,
                        u > 0,
                ;
                assert(r * up <= (limit * one) * up) by (nonlinear_arith)
                    requires
                        r <= limit * one,
                        up > 0,
                ;
            }
        }
    }
    if 0xFF_FFFF * (p * up) > 0x100_0000 * big {
        assert(0x100_0000 * r >= 0xFF_FFFF * p) by {
            if k == 0 {
                assert(r == p);
            }
        }
        assert(0x100_0000 * (r * up) >= 0xFF_FFFF * (p * up)) by (nonlinear_arith)
            requires
                0x100_0000 * r >= 0xFF_FFFF * p,
                up > 0,
        ;
    }
}

/// Numbers are equal when their bits are, and the two zeros are equal; what is no
/// number equals nothing, not even itself.
pub proof fn numbers_equal_by_value(a: u32, b: u32)
    ensures
        ({
            let none = |x: u32| 0x7F80_0000 < x < 0x8000_0000 || x > 0xFF80_0000;
            &&& none(a) || none(b) ==> !equal_numbers(a, b)
            &&& !none(a) && !none(b) && a == b ==> equal_numbers(a, b)
            &&& a != b ==> (equal_numbers(a, b) <==> (a == 0 && b == 0x8000_0000) || (a
                == 0x8000_0000 && b == 0))
            &&& equal_numbers(a, b) == equal_numbers(b, a)
        }),
{
}

} // verus!

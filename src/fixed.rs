//! Saturating fixed-point scalars: the numbers that flow through the graph.
//!
//! A `Fixed` holds a real number `r` as the integer `raw = r * SCALE`,
//! rounded toward zero. Results that leave the range of `i64` saturate at
//! its bounds, the fixed-point analogue of an infinity: no operation panics.
use vstd::prelude::*;

verus! {

/// Raw units per 1.0.
pub const SCALE: i64 = 1_000_000_000;

/// Saturates an exact result into the range of `i64`.
pub open spec fn clamp(x: int) -> int {
    if x > i64::MAX as int {
        i64::MAX as int
    } else if x < i64::MIN as int {
        i64::MIN as int
    } else {
        x
    }
}

pub open spec fn abs(x: int) -> nat {
    if x < 0 { (-x) as nat } else { x as nat }
}

/// Integer division rounded toward zero (`d != 0`).
pub open spec fn div_trunc(x: int, d: int) -> int {
    let q = (abs(x) / abs(d)) as int;
    if (x < 0) != (d < 0) { -q } else { q }
}

pub open spec fn spec_add(a: int, b: int) -> int {
    clamp(a + b)
}

pub open spec fn spec_sub(a: int, b: int) -> int {
    clamp(a - b)
}

pub open spec fn spec_neg(a: int) -> int {
    clamp(-a)
}

pub open spec fn spec_mul(a: int, b: int) -> int {
    clamp(div_trunc(a * b, SCALE as int))
}

/// Division; a zero divisor saturates toward the dividend's sign
/// (and `0 / 0` is `0`).
pub open spec fn spec_div(a: int, b: int) -> int {
    if b == 0 {
        if a > 0 {
            i64::MAX as int
        } else if a < 0 {
            i64::MIN as int
        } else {
            0
        }
    } else {
        clamp(div_trunc(a * SCALE as int, b))
    }
}

pub open spec fn spec_relu(a: int) -> int {
    if a > 0 { a } else { 0 }
}

/// `a` to the power `n`, one saturating product at a time.
pub open spec fn spec_pow(a: int, n: nat) -> int
    decreases n,
{
    if n == 0 {
        SCALE as int
    } else {
        spec_mul(spec_pow(a, (n - 1) as nat), a)
    }
}

/// `r` is the integer square root of `n`.
pub open spec fn is_isqrt(n: nat, r: nat) -> bool {
    r * r <= n && n < (r + 1) * (r + 1)
}

pub open spec fn isqrt(n: nat) -> nat {
    choose|r: nat| is_isqrt(n, r)
}

/// Square root of a non-negative fixed-point number: `isqrt(a * SCALE)`.
pub open spec fn spec_sqrt(a: nat) -> int {
    isqrt(a * SCALE as nat) as int
}

pub proof fn lemma_isqrt_unique(n: nat, r: nat, s: nat)
    requires
        is_isqrt(n, r),
        is_isqrt(n, s),
    ensures
        r == s,
{
    if r < s {
        assert((r + 1) * (r + 1) <= s * s) by (nonlinear_arith)
            requires r + 1 <= s;
    } else if s < r {
        assert((s + 1) * (s + 1) <= r * r) by (nonlinear_arith)
            requires s + 1 <= r;
    }
}

/// Zero absorbs a product and is neutral for sums of in-range values.
pub proof fn lemma_zero_facts(a: int)
    ensures
        spec_mul(a, 0) == 0,
        spec_mul(0, a) == 0,
        i64::MIN <= a <= i64::MAX ==> spec_add(a, 0) == a && spec_sub(a, 0) == a,
        spec_add(0, 0) == 0,
{
    assert(a * 0 == 0);
    assert(0 * a == 0);
}

/// A fixed-point number, `raw / SCALE`.
#[derive(Clone, Copy, Debug, PartialEq, Eq, Structural)]
pub struct Fixed {
    pub raw: i64,
}

fn clamp_i128(x: i128) -> (r: i64)
    ensures
        r == clamp(x as int),
{
    if x > i64::MAX as i128 {
        i64::MAX
    } else if x < i64::MIN as i128 {
        i64::MIN
    } else {
        x as i64
    }
}

fn div_trunc_i128(x: i128, d: i128) -> (r: i128)
    requires
        d != 0,
        -0x4000_0000_0000_0000_0000_0000_0000_0000 <= x <= 0x4000_0000_0000_0000_0000_0000_0000_0000,
        -0x4000_0000_0000_0000_0000_0000_0000_0000 <= d <= 0x4000_0000_0000_0000_0000_0000_0000_0000,
    ensures
        r == div_trunc(x as int, d as int),
{
    let ax: u128 = if x < 0 { (-x) as u128 } else { x as u128 };
    let ad: u128 = if d < 0 { (-d) as u128 } else { d as u128 };
    let q: u128 = ax / ad;
    assert(q <= ax) by (nonlinear_arith)
        requires q == ax / ad, ad >= 1;
    let qi: i128 = q as i128;
    if (x < 0) != (d < 0) {
        -qi
    } else {
        qi
    }
}

/// Relies on num_traits::Pow for `i128` with a `u32` exponent, which
/// calls `i128::pow`: the exact square when it fits.
#[verifier::external_body]
fn square_i128(x: i128) -> (r: i128)
    requires
        -0x4000_0000_0000_0000 <= x <= 0x4000_0000_0000_0000,
    ensures
        r == x * x,
{
    num_traits::Pow::pow(x, 2u32)
}

/// Integer square root by bisection.
fn isqrt_u128(n: u128) -> (r: u128)
    requires
        n < 0x1_0000_0000_0000_0000_0000_0000,
    ensures
        is_isqrt(n as nat, r as nat),
{
    let mut lo: u128 = 0;
    let mut hi: u128 = 0x1_0000_0000_0000;
    assert(n < hi * hi) by (nonlinear_arith)
        requires n < 0x1_0000_0000_0000_0000_0000_0000, hi == 0x1_0000_0000_0000u128;
    while hi - lo > 1
        invariant
            lo < hi <= 0x1_0000_0000_0000,
            lo * lo <= n,
            n < hi * hi,
        decreases hi - lo,
    {
        let mid: u128 = lo + (hi - lo) / 2;
        assert(mid * mid <= 0x1_0000_0000_0000_0000_0000_0000) by (nonlinear_arith)
            requires mid <= 0x1_0000_0000_0000u128;
        if mid * mid <= n {
            lo = mid;
        } else {
            hi = mid;
        }
    }
    assert(hi == lo + 1);
    lo
}

impl Fixed {
    pub open spec fn val(self) -> int {
        self.raw as int
    }

    pub fn from_raw(raw: i64) -> (r: Fixed)
        ensures
            r.raw == raw,
    {
        Fixed { raw }
    }

    /// The whole number `n`, saturated.
    pub fn from_int(n: i64) -> (r: Fixed)
        ensures
            r.val() == clamp(n * SCALE),
    {
        assert(-0x1_0000_0000_0000_0000_0000_0000 <= n * SCALE <= 0x1_0000_0000_0000_0000_0000_0000)
            by (nonlinear_arith)
            requires -0x8000_0000_0000_0000 <= n <= 0x8000_0000_0000_0000;
        Fixed { raw: clamp_i128(n as i128 * SCALE as i128) }
    }

    pub fn zero() -> (r: Fixed)
        ensures
            r.val() == 0,
    {
        Fixed { raw: 0 }
    }

    pub fn one() -> (r: Fixed)
        ensures
            r.val() == SCALE,
    {
        Fixed { raw: SCALE }
    }

    pub fn add(self, o: Fixed) -> (r: Fixed)
        ensures
            r.val() == spec_add(self.val(), o.val()),
    {
        Fixed { raw: clamp_i128(self.raw as i128 + o.raw as i128) }
    }

    pub fn sub(self, o: Fixed) -> (r: Fixed)
        ensures
            r.val() == spec_sub(self.val(), o.val()),
    {
        Fixed { raw: clamp_i128(self.raw as i128 - o.raw as i128) }
    }

    pub fn neg(self) -> (r: Fixed)
        ensures
            r.val() == spec_neg(self.val()),
    {
        Fixed { raw: clamp_i128(-(self.raw as i128)) }
    }

    pub fn mul(self, o: Fixed) -> (r: Fixed)
        ensures
            r.val() == spec_mul(self.val(), o.val()),
    {
        let a = self.raw as i128;
        let b = o.raw as i128;
        assert(-0x4000_0000_0000_0000_0000_0000_0000_0000 <= a * b
            <= 0x4000_0000_0000_0000_0000_0000_0000_0000) by (nonlinear_arith)
            requires
                -0x8000_0000_0000_0000 <= a <= 0x8000_0000_0000_0000,
                -0x8000_0000_0000_0000 <= b <= 0x8000_0000_0000_0000,
        ;
        Fixed { raw: clamp_i128(div_trunc_i128(a * b, SCALE as i128)) }
    }

    /// `self * self`, the square.
    pub fn square(self) -> (r: Fixed)
        ensures
            r.val() == spec_mul(self.val(), self.val()),
    {
        let a = self.raw as i128;
        let s = if a < -0x4000_0000_0000_0000 || a > 0x4000_0000_0000_0000 {
            // beyond the range where the square is taken exactly, it is
            // far past saturation whatever its last digits
            assert(a * a > 0x1000_0000_0000_0000_0000_0000_0000_0000) by (nonlinear_arith)
                requires a < -0x4000_0000_0000_0000 || a > 0x4000_0000_0000_0000;
            let ghost sq = a * a;
            assert(sq / (SCALE as int) > i64::MAX) by (nonlinear_arith)
                requires sq > 0x1000_0000_0000_0000_0000_0000_0000_0000;
            assert(div_trunc(sq, SCALE as int) == sq / (SCALE as int));
            return Fixed { raw: i64::MAX };
        } else {
            square_i128(a)
        };
        assert(0 <= s <= 0x1000_0000_0000_0000_0000_0000_0000_0000) by (nonlinear_arith)
            requires s == a * a, -0x4000_0000_0000_0000 <= a <= 0x4000_0000_0000_0000;
        Fixed { raw: clamp_i128(div_trunc_i128(s, SCALE as i128)) }
    }

    pub fn div(self, o: Fixed) -> (r: Fixed)
        ensures
            r.val() == spec_div(self.val(), o.val()),
    {
        if o.raw == 0 {
            if self.raw > 0 {
                Fixed { raw: i64::MAX }
            } else if self.raw < 0 {
                Fixed { raw: i64::MIN }
            } else {
                Fixed { raw: 0 }
            }
        } else {
            let a = self.raw;
            assert(-0x1_0000_0000_0000_0000_0000_0000 <= a * SCALE <= 0x1_0000_0000_0000_0000_0000_0000)
                by (nonlinear_arith)
                requires -0x8000_0000_0000_0000 <= a <= 0x8000_0000_0000_0000;
            let n = self.raw as i128 * SCALE as i128;
            Fixed { raw: clamp_i128(div_trunc_i128(n, o.raw as i128)) }
        }
    }

    pub fn relu(self) -> (r: Fixed)
        ensures
            r.val() == spec_relu(self.val()),
    {
        if self.raw > 0 {
            self
        } else {
            Fixed { raw: 0 }
        }
    }

    /// `self` to the power `n`: `n` saturating products, from one.
    pub fn pow(self, n: u32) -> (r: Fixed)
        ensures
            r.val() == spec_pow(self.val(), n as nat),
    {
        let mut acc = Fixed::one();
        let mut k: u32 = 0;
        while k < n
            invariant
                k <= n,
                acc.val() == spec_pow(self.val(), k as nat),
            decreases n - k,
        {
            acc = acc.mul(self);
            k += 1;
        }
        acc
    }

    /// Square root; `None` for a negative number, which has none.
    pub fn sqrt(self) -> (r: Option<Fixed>)
        ensures
            self.val() < 0 <==> r.is_none(),
            r.is_some() ==> r.unwrap().val() == spec_sqrt(self.val() as nat),
    {
        if self.raw < 0 {
            None
        } else {
            let a = self.raw;
            assert(0 <= a * SCALE < 0x1_0000_0000_0000_0000_0000_0000) by (nonlinear_arith)
                requires 0 <= a < 0x8000_0000_0000_0000;
            let n: u128 = self.raw as u128 * SCALE as u128;
            let s = isqrt_u128(n);
            proof {
                lemma_isqrt_unique(n as nat, s as nat, isqrt(n as nat));
            }
            assert(s * s <= n);
            assert(s <= 0x1_0000_0000_0000) by (nonlinear_arith)
                requires s * s <= n, n < 0x1_0000_0000_0000_0000_0000_0000;
            Some(Fixed { raw: s as i64 })
        }
    }
}

} // verus!

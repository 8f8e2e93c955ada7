//! Canonical rational numbers used to report exact intersection points.
//!
//! Every rational produced by the library is in lowest terms with a
//! positive denominator, so structural equality coincides with equality
//! of the represented values.

use vstd::prelude::*;
use crate::vector::{Point2, COORD_MAX, lemma_mul_le};
use vstd::arithmetic::div_mod::{lemma_div_nonincreasing, lemma_small_mod, lemma_div_basics};

verus! {

/// Largest numerator magnitude a well-formed rational may carry.
pub const FRAC_NUM_MAX: i128 = 1_000_000_000_000_000_000_000;

/// Largest denominator a well-formed rational may carry.
pub const FRAC_DEN_MAX: i128 = 1_000_000_000_000_000;

/// Greatest common divisor.
pub open spec fn spec_gcd(a: nat, b: nat) -> nat
    decreases b,
{
    if b == 0 {
        a
    } else {
        spec_gcd(b, a % b)
    }
}

/// The greatest common divisor of two numbers, at least one positive,
/// is positive.
pub proof fn lemma_gcd_pos(a: nat, b: nat)
    requires
        a > 0 || b > 0,
    ensures
        spec_gcd(a, b) > 0,
    decreases b,
{
    if b == 0 {
    } else if a % b == 0 {
        assert(spec_gcd(b, 0) == b);
    } else {
        lemma_gcd_pos(b, a % b);
    }
}

/// The greatest common divisor does not exceed a positive second argument.
pub proof fn lemma_gcd_le_right(a: nat, b: nat)
    requires
        b > 0,
    ensures
        spec_gcd(a, b) <= b,
    decreases b,
{
    if a % b == 0 {
        assert(spec_gcd(a, b) == spec_gcd(b, 0));
    } else {
        lemma_gcd_le_right(b, a % b);
    }
}

/// The greatest common divisor does not exceed a positive first argument.
pub proof fn lemma_gcd_le_left(a: nat, b: nat)
    requires
        a > 0,
    ensures
        spec_gcd(a, b) <= a,
{
    if b == 0 {
    } else if a % b == 0 {
        if a < b {
            lemma_small_mod(a, b);
        }
        assert(spec_gcd(a, b) == spec_gcd(b, 0));
    } else {
        lemma_gcd_le_right(b, a % b);
        if a < b {
            lemma_small_mod(a, b);
        }
    }
}

pub fn gcd_u128(a: u128, b: u128) -> (g: u128)
    ensures
        g as nat == spec_gcd(a as nat, b as nat),
{
    let mut x = a;
    let mut y = b;
    while y != 0
        invariant
            spec_gcd(x as nat, y as nat) == spec_gcd(a as nat, b as nat),
        decreases y,
    {
        let t = x % y;
        x = y;
        y = t;
    }
    x
}

/// The integer square root: the largest number whose square does not
/// exceed the argument.
pub open spec fn spec_isqrt(n: nat) -> nat
    decreases n,
{
    if n == 0 {
        0
    } else {
        let r = spec_isqrt((n - 1) as nat);
        if (r + 1) * (r + 1) <= n {
            r + 1
        } else {
            r
        }
    }
}

/// The integer square root is squeezed between the two neighbouring squares.
pub proof fn lemma_isqrt_bounds(n: nat)
    ensures
        (spec_isqrt(n) as int) * (spec_isqrt(n) as int) <= n as int,
        (n as int) < ((spec_isqrt(n) as int) + 1) * ((spec_isqrt(n) as int) + 1),
    decreases n,
{
    if n == 0 {
        assert(spec_isqrt(0) == 0);
    } else {
        let r = spec_isqrt((n - 1) as nat) as int;
        lemma_isqrt_bounds((n - 1) as nat);
        assert(r * r <= n - 1);
        assert(n - 1 < (r + 1) * (r + 1));
        if (r + 1) * (r + 1) <= (n as int) {
            assert(spec_isqrt(n) as int == r + 1) by {
                assert((spec_isqrt((n - 1) as nat) + 1) * (spec_isqrt((n - 1) as nat) + 1) <= n);
            }
            assert((n as int) < (r + 2) * (r + 2)) by (nonlinear_arith)
                requires (n as int) <= (r + 1) * (r + 1), r >= 0;
        } else {
            assert(spec_isqrt(n) as int == r) by {
                assert(!((spec_isqrt((n - 1) as nat) + 1) * (spec_isqrt((n - 1) as nat) + 1) <= n));
            }
        }
    }
}

/// Any number squeezed between the neighbouring squares is the integer
/// square root.
pub proof fn lemma_isqrt_unique(n: nat, r: nat)
    requires
        (r as int) * (r as int) <= n as int,
        (n as int) < ((r as int) + 1) * ((r as int) + 1),
    ensures
        r == spec_isqrt(n),
{
    lemma_isqrt_bounds(n);
    let s = spec_isqrt(n) as int;
    assert(r as int == s) by (nonlinear_arith)
        requires
            (r as int) * (r as int) <= n as int,
            (n as int) < ((r as int) + 1) * ((r as int) + 1),
            s * s <= n as int,
            (n as int) < (s + 1) * (s + 1),
            r as int >= 0,
            s >= 0;
}

/// Computes the integer square root exactly.
pub fn isqrt_u128(n: u128) -> (r: u128)
    requires
        (n as nat) < 1_000_000_000_000_000 * 1_000_000_000_000_000,
    ensures
        r as nat == spec_isqrt(n as nat),
{
    let mut lo: u128 = 0;
    let mut hi: u128 = 1_000_000_000_000_000;
    assert((hi + 1) * (hi + 1) > n) by (nonlinear_arith)
        requires (n as nat) < 1_000_000_000_000_000 * 1_000_000_000_000_000, hi == 1_000_000_000_000_000u128;
    while lo < hi
        invariant
            lo <= hi,
            hi <= 1_000_000_000_000_000,
            (lo * lo) as nat <= n as nat,
            (n as nat) < ((hi as nat + 1) * (hi as nat + 1)),
        decreases hi - lo,
    {
        let mid = lo + (hi - lo + 1) / 2;
        assert(lo < mid <= hi);
        assert((mid as nat) * (mid as nat) <= 1_000_000_000_000_000 * 1_000_000_000_000_000) by (nonlinear_arith)
            requires (mid as nat) <= 1_000_000_000_000_000;
        if mid * mid <= n {
            lo = mid;
        } else {
            hi = mid - 1;
        }
    }
    proof {
        lemma_isqrt_unique(n as nat, lo as nat);
    }
    lo
}

/// A rational number in lowest terms with a positive denominator.
#[derive(Clone, Copy, PartialEq, Eq, Structural, Debug)]
pub struct Frac {
    pub num: i128,
    pub den: i128,
}

/// A well-formed rational: positive, bounded denominator and bounded
/// numerator, so comparisons against coordinates cannot overflow.
pub open spec fn frac_wf(f: Frac) -> bool {
    &&& 0 < f.den <= FRAC_DEN_MAX
    &&& -FRAC_NUM_MAX <= f.num <= FRAC_NUM_MAX
}

/// The magnitude of an integer.
pub open spec fn spec_abs(x: int) -> nat {
    if x >= 0 {
        x as nat
    } else {
        (-x) as nat
    }
}

/// The canonical numerator of the rational `n / d`.
pub open spec fn norm_num(n: int, d: int) -> int {
    let nn: int = if d < 0 { -n } else { n };
    let g = spec_gcd(spec_abs(n), spec_abs(d));
    if nn >= 0 {
        (spec_abs(nn) / g) as int
    } else {
        -((spec_abs(nn) / g) as int)
    }
}

/// The canonical denominator of the rational `n / d`.
pub open spec fn norm_den(n: int, d: int) -> int {
    let g = spec_gcd(spec_abs(n), spec_abs(d));
    (spec_abs(d) / g) as int
}

/// The canonical form of the rational `n / d`.
pub open spec fn spec_frac(n: int, d: int) -> Frac {
    Frac { num: norm_num(n, d) as i128, den: norm_den(n, d) as i128 }
}

impl Frac {
    /// Reduces `num / den` to canonical form.
    pub fn new(num: i128, den: i128) -> (f: Frac)
        requires
            den != 0,
            -FRAC_NUM_MAX <= num <= FRAC_NUM_MAX,
            -FRAC_DEN_MAX <= den <= FRAC_DEN_MAX,
        ensures
            f == spec_frac(num as int, den as int),
            frac_wf(f),
    {
        let neg: bool = (num < 0) != (den < 0);
        let na: u128 = if num < 0 { (-num) as u128 } else { num as u128 };
        let da: u128 = if den < 0 { (-den) as u128 } else { den as u128 };
        let g = gcd_u128(na, da);
        proof {
            lemma_gcd_pos(na as nat, da as nat);
            lemma_gcd_le_right(na as nat, da as nat);
            if na > 0 {
                lemma_gcd_le_left(na as nat, da as nat);
            }
            lemma_div_nonincreasing(na as int, g as int);
            lemma_div_nonincreasing(da as int, g as int);
        }
        let nr = na / g;
        let dr = da / g;
        proof {
            assert(na as nat == spec_abs(num as int));
            assert(da as nat == spec_abs(den as int));
            assert(g as nat == spec_gcd(spec_abs(num as int), spec_abs(den as int)));
            assert(dr as nat == spec_abs(den as int) / spec_gcd(spec_abs(num as int), spec_abs(den as int)));
            assert(dr >= 1) by {
                assert(g as nat <= da as nat);
                assert(da as nat / (g as nat) >= 1) by (nonlinear_arith)
                    requires g as nat <= da as nat, g as nat > 0, da as nat > 0;
            }
            if na > 0 {
                assert(nr >= 1) by {
                    assert(na as nat / (g as nat) >= 1) by (nonlinear_arith)
                        requires g as nat <= na as nat, g as nat > 0, na as nat > 0;
                }
            }
        }
        if neg && nr > 0 {
            Frac { num: -(nr as i128), den: dr as i128 }
        } else {
            assert(num == 0 ==> nr == 0) by {
                if num == 0 {
                    assert(na == 0);
                    vstd::arithmetic::div_mod::lemma_div_of0(g as int);
                }
            }
            Frac { num: nr as i128, den: dr as i128 }
        }
    }

    /// The rational equal to a whole coordinate.
    pub fn from_int(x: i64) -> (f: Frac)
        ensures
            f == spec_frac(x as int, 1),
            f.num == x,
            f.den == 1,
            frac_wf(f),
    {
        proof {
            let a = spec_abs(x as int);
            assert(a % 1 == 0) by (nonlinear_arith);
            reveal_with_fuel(spec_gcd, 3);
            assert(spec_gcd(a, 1) == 1);
            lemma_div_basics(a as int);
            assert(a / 1 == a);
            assert(1nat / 1nat == 1nat) by (nonlinear_arith);
        }
        Frac { num: x as i128, den: 1 }
    }

    /// Whether the rational is at least the whole number `x`.
    pub fn ge_int(&self, x: i64) -> (r: bool)
        requires
            frac_wf(*self),
            -COORD_MAX <= x <= COORD_MAX,
        ensures
            r == (self.num as int >= x as int * self.den as int),
    {
        proof {
            lemma_mul_le(x as int, self.den as int, COORD_MAX as int, FRAC_DEN_MAX as int);
        }
        self.num >= (x as i128) * self.den
    }

    /// Whether the rational is at most the whole number `x`.
    pub fn le_int(&self, x: i64) -> (r: bool)
        requires
            frac_wf(*self),
            -COORD_MAX <= x <= COORD_MAX,
        ensures
            r == (self.num as int <= x as int * self.den as int),
    {
        proof {
            lemma_mul_le(x as int, self.den as int, COORD_MAX as int, FRAC_DEN_MAX as int);
        }
        self.num <= (x as i128) * self.den
    }
}

/// A point with rational coordinates.
#[derive(Clone, Copy, PartialEq, Eq, Structural, Debug)]
pub struct FracPoint2 {
    pub x: Frac,
    pub y: Frac,
}

/// The rational point `(nx / dx, ny / dy)` in canonical form.
pub open spec fn spec_frac_point(nx: int, dx: int, ny: int, dy: int) -> FracPoint2 {
    FracPoint2 { x: spec_frac(nx, dx), y: spec_frac(ny, dy) }
}

/// Both coordinates are well-formed rationals.
pub open spec fn frac_pt_wf(p: FracPoint2) -> bool {
    frac_wf(p.x) && frac_wf(p.y)
}

impl FracPoint2 {
    pub fn new(x: Frac, y: Frac) -> (p: FracPoint2)
        ensures
            p == (FracPoint2 { x, y }),
    {
        FracPoint2 { x, y }
    }

    /// The rational point equal to a whole-coordinate point.
    pub fn from_point(p: &Point2) -> (r: FracPoint2)
        ensures
            r == spec_frac_point(p.x as int, 1, p.y as int, 1),
            frac_pt_wf(r),
    {
        FracPoint2 { x: Frac::from_int(p.x), y: Frac::from_int(p.y) }
    }
}

} // verus!

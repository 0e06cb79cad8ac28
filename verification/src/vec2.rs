//! Two-dimensional fixed-point vectors.
//!
//! A scalar is a signed 64-bit count of millionths: the number one is `UNIT`.
//! Sums and differences are exact; products and quotients are rounded toward
//! zero. Every operation that can leave the 64-bit range returns `None`
//! there, and says in its contract exactly when.

use vstd::prelude::*;

verus! {

/// The fixed-point representation of the number one.
pub const UNIT: i64 = 1_000_000;

/// The quotient of `n` by a positive `d`, rounded toward zero.
pub open spec fn trunc_div(n: int, d: int) -> int
    recommends
        d > 0,
{
    if n >= 0 {
        n / d
    } else {
        -((-n) / d)
    }
}

/// `Some(v)` where `v` fits in 64 signed bits, `None` elsewhere.
pub open spec fn narrow(v: int) -> Option<i64> {
    if i64::MIN <= v <= i64::MAX {
        Some(v as i64)
    } else {
        None
    }
}

/// The fixed-point product of two scalars, before narrowing.
pub open spec fn fixed_mul(a: int, b: int) -> int {
    trunc_div(a * b, UNIT as int)
}

/// The fixed-point quotient of two scalars, before narrowing.
pub open spec fn fixed_div(a: int, b: int) -> int
    recommends
        b != 0,
{
    if b > 0 {
        trunc_div(a * UNIT, b)
    } else {
        trunc_div(-(a * UNIT), -b)
    }
}

/// Divides a wide value by a positive wide divisor, rounding toward zero.
fn wide_trunc_div(n: i128, d: i128) -> (q: i128)
    requires
        d > 0,
    ensures
        q == trunc_div(n as int, d as int),
{
    n / d
}

/// The fixed-point product of two scalars, `None` where it does not fit.
pub fn scalar_mul(a: i64, b: i64) -> (r: Option<i64>)
    ensures
        r == narrow(fixed_mul(a as int, b as int)),
{
    proof {
        lemma_product_bound(a as int, b as int);
    }
    let wide: i128 = (a as i128) * (b as i128);
    narrow_wide(wide_trunc_div(wide, UNIT as i128))
}

/// The fixed-point quotient of two scalars, `None` where the divisor is zero
/// or the quotient does not fit.
pub fn scalar_div(a: i64, b: i64) -> (r: Option<i64>)
    ensures
        b == 0 ==> r.is_none(),
        b != 0 ==> r == narrow(fixed_div(a as int, b as int)),
{
    if b == 0 {
        return None;
    }
    proof {
        lemma_product_bound(a as int, UNIT as int);
    }
    let wide: i128 = (a as i128) * (UNIT as i128);
    if b > 0 {
        narrow_wide(wide_trunc_div(wide, b as i128))
    } else {
        narrow_wide(wide_trunc_div(-wide, -(b as i128)))
    }
}

/// Brings a wide value back to 64 bits where it fits.
pub fn narrow_wide(v: i128) -> (r: Option<i64>)
    ensures
        r == narrow(v as int),
{
    if v < i64::MIN as i128 || v > i64::MAX as i128 {
        None
    } else {
        Some(v as i64)
    }
}

/// The product of two 64-bit values stays well inside 128 bits.
pub proof fn lemma_product_bound(a: int, b: int)
    requires
        i64::MIN <= a <= i64::MAX,
        i64::MIN <= b <= i64::MAX,
    ensures
        -0x4000_0000_0000_0000_0000_0000_0000_0000 <= a * b
            <= 0x4000_0000_0000_0000_0000_0000_0000_0000,
{
    assert(-0x4000_0000_0000_0000_0000_0000_0000_0000 <= a * b
        <= 0x4000_0000_0000_0000_0000_0000_0000_0000) by (nonlinear_arith)
        requires
            -0x8000_0000_0000_0000 <= a <= 0x7fff_ffff_ffff_ffff,
            -0x8000_0000_0000_0000 <= b <= 0x7fff_ffff_ffff_ffff,
    ;
}

/// Whether `r` is the square root of `n`, rounded down.
pub open spec fn is_sqrt(n: int, r: int) -> bool {
    r >= 0 && r * r <= n < (r + 1) * (r + 1)
}

/// The square root of `n`, rounded down.
pub open spec fn int_sqrt(n: int) -> int {
    choose|r: int| is_sqrt(n, r)
}

/// A number has at most one rounded-down square root.
pub proof fn lemma_sqrt_unique(n: int, r: int)
    requires
        is_sqrt(n, r),
    ensures
        int_sqrt(n) == r,
{
    let c = int_sqrt(n);
    assert(is_sqrt(n, c));
    if c < r {
        assert((c + 1) * (c + 1) <= r * r) by (nonlinear_arith)
            requires
                0 <= c < r,
        ;
    }
    if r < c {
        assert((r + 1) * (r + 1) <= c * c) by (nonlinear_arith)
            requires
                0 <= r < c,
        ;
    }
}

/// The square root of `n`, rounded down.
pub fn wide_sqrt(n: u128) -> (r: u128)
    ensures
        is_sqrt(n as int, r as int),
        r < 0x1_0000_0000_0000_0000,
{
    let mut lo: u128 = 0;
    let mut hi: u128 = 0x1_0000_0000_0000_0000;
    assert(0x1_0000_0000_0000_0000int * 0x1_0000_0000_0000_0000int
        == 0x1_0000_0000_0000_0000_0000_0000_0000_0000int) by (nonlinear_arith);
    while hi - lo > 1
        invariant
            lo < hi <= 0x1_0000_0000_0000_0000,
            lo * lo <= n < hi * hi,
        decreases hi - lo,
    {
        let mid: u128 = lo + (hi - lo) / 2;
        assert(mid * mid < 0x1_0000_0000_0000_0000_0000_0000_0000_0000int) by (nonlinear_arith)
            requires
                0 <= mid < 0x1_0000_0000_0000_0000int,
        ;
        if mid * mid <= n {
            lo = mid;
        } else {
            hi = mid;
        }
    }
    lo
}

/// A vector of two fixed-point scalars.
#[derive(Clone, Copy, Debug, PartialEq, Eq, Structural)]
pub struct Vec2 {
    pub x: i64,
    pub y: i64,
}

/// Pairs two scalars where both exist.
pub open spec fn both(x: Option<i64>, y: Option<i64>) -> Option<Vec2> {
    if x.is_some() && y.is_some() {
        Some(Vec2 { x: x.unwrap(), y: y.unwrap() })
    } else {
        None
    }
}

impl Vec2 {
    /// The sum of two vectors, `None` where a coordinate leaves the range.
    pub open spec fn spec_add(self, other: Vec2) -> Option<Vec2> {
        both(narrow(self.x + other.x), narrow(self.y + other.y))
    }

    /// The difference of two vectors, `None` where a coordinate leaves the range.
    pub open spec fn spec_sub(self, other: Vec2) -> Option<Vec2> {
        both(narrow(self.x - other.x), narrow(self.y - other.y))
    }

    /// The coordinate-wise fixed-point product.
    pub open spec fn spec_scale(self, x: i64, y: i64) -> Option<Vec2> {
        both(
            narrow(fixed_mul(self.x as int, x as int)),
            narrow(fixed_mul(self.y as int, y as int)),
        )
    }

    /// The coordinate-wise fixed-point quotient, `None` where a divisor is zero.
    pub open spec fn spec_div(self, x: i64, y: i64) -> Option<Vec2> {
        if x == 0 || y == 0 {
            None
        } else {
            both(
                narrow(fixed_div(self.x as int, x as int)),
                narrow(fixed_div(self.y as int, y as int)),
            )
        }
    }

    /// The vector whose coordinates are both zero.
    pub fn null_vec() -> (v: Vec2)
        ensures
            v == (Vec2 { x: 0, y: 0 }),
    {
        Vec2 { x: 0, y: 0 }
    }

    /// The vector with the given coordinates.
    pub fn new(x: i64, y: i64) -> (v: Vec2)
        ensures
            v == (Vec2 { x, y }),
    {
        Vec2 { x, y }
    }

    /// Adds two vectors coordinate by coordinate.
    pub fn checked_add(self, other: Vec2) -> (r: Option<Vec2>)
        ensures
            r == self.spec_add(other),
    {
        match (self.x.checked_add(other.x), self.y.checked_add(other.y)) {
            (Some(x), Some(y)) => Some(Vec2 { x, y }),
            _ => None,
        }
    }

    /// Subtracts `other` from this vector coordinate by coordinate.
    pub fn checked_sub(self, other: Vec2) -> (r: Option<Vec2>)
        ensures
            r == self.spec_sub(other),
    {
        match (self.x.checked_sub(other.x), self.y.checked_sub(other.y)) {
            (Some(x), Some(y)) => Some(Vec2 { x, y }),
            _ => None,
        }
    }

    /// Multiplies the first coordinate by `x` and the second by `y`.
    pub fn scale(&self, x: i64, y: i64) -> (r: Option<Vec2>)
        ensures
            r == self.spec_scale(x, y),
    {
        match (scalar_mul(self.x, x), scalar_mul(self.y, y)) {
            (Some(x), Some(y)) => Some(Vec2 { x, y }),
            _ => None,
        }
    }

    /// Multiplies both coordinates by the scalar `s`.
    pub fn scale_uni(&self, s: i64) -> (r: Option<Vec2>)
        ensures
            r == self.spec_scale(s, s),
    {
        self.scale(s, s)
    }

    /// The sum of the squares of the raw coordinates.
    pub open spec fn raw_norm(self) -> int {
        self.x * self.x + self.y * self.y
    }

    /// The squared length, `None` where it leaves the range.
    pub open spec fn spec_length_squared(self) -> Option<i64> {
        narrow(trunc_div(self.raw_norm(), UNIT as int))
    }

    /// The length, rounded down, `None` where it leaves the range.
    pub open spec fn spec_length(self) -> Option<i64> {
        narrow(int_sqrt(self.raw_norm()))
    }

    /// The vector of length one in the same direction, `None` for a vector
    /// whose length is zero or leaves the range.
    pub open spec fn spec_normalize(self) -> Option<Vec2> {
        match self.spec_length() {
            None => None,
            Some(len) => self.spec_div(len, len),
        }
    }

    /// The fixed-point dot product, `None` where it leaves the range.
    pub open spec fn spec_dot(a: Vec2, b: Vec2) -> Option<i64> {
        narrow(trunc_div(a.x * b.x + a.y * b.y, UNIT as int))
    }

    /// The fixed-point cross product, `None` where it leaves the range.
    pub open spec fn spec_cross(a: Vec2, b: Vec2) -> Option<i64> {
        narrow(trunc_div(a.x * b.y - a.y * b.x, UNIT as int))
    }

    /// The sum of the squares of the raw coordinates, as a wide value.
    fn wide_norm(&self) -> (n: u128)
        ensures
            n == self.raw_norm(),
    {
        proof {
            lemma_product_bound(self.x as int, self.x as int);
            lemma_product_bound(self.y as int, self.y as int);
            assert(self.x * self.x >= 0) by (nonlinear_arith);
            assert(self.y * self.y >= 0) by (nonlinear_arith);
        }
        let xx: i128 = (self.x as i128) * (self.x as i128);
        let yy: i128 = (self.y as i128) * (self.y as i128);
        (xx as u128) + (yy as u128)
    }

    /// The length of the vector, rounded down.
    pub fn length(&self) -> (r: Option<i64>)
        ensures
            r == self.spec_length(),
    {
        let root = wide_sqrt(self.wide_norm());
        proof {
            lemma_sqrt_unique(self.raw_norm(), root as int);
        }
        if root > i64::MAX as u128 {
            None
        } else {
            Some(root as i64)
        }
    }

    /// The square of the length of the vector.
    pub fn length_squared(&self) -> (r: Option<i64>)
        ensures
            r == self.spec_length_squared(),
    {
        let q: u128 = self.wide_norm() / (UNIT as u128);
        if q > i64::MAX as u128 {
            None
        } else {
            Some(q as i64)
        }
    }

    /// The vector of length one in the direction of this vector.
    pub fn normalize(&self) -> (r: Option<Vec2>)
        ensures
            r == self.spec_normalize(),
    {
        match self.length() {
            None => None,
            Some(len) => self.checked_div_scalar(len),
        }
    }

    /// The dot product of two vectors.
    pub fn dot(a: Vec2, b: Vec2) -> (r: Option<i64>)
        ensures
            r == Self::spec_dot(a, b),
    {
        proof {
            lemma_product_bound(a.x as int, b.x as int);
            lemma_product_bound(a.y as int, b.y as int);
        }
        let first: i128 = (a.x as i128) * (b.x as i128);
        let second: i128 = (a.y as i128) * (b.y as i128);
        match first.checked_add(second) {
            None => None,
            Some(sum) => narrow_wide(wide_trunc_div(sum, UNIT as i128)),
        }
    }

    /// The cross product of two vectors.
    pub fn cross(a: Vec2, b: Vec2) -> (r: Option<i64>)
        ensures
            r == Self::spec_cross(a, b),
    {
        proof {
            lemma_product_bound(a.x as int, b.y as int);
            lemma_product_bound(a.y as int, b.x as int);
        }
        let first: i128 = (a.x as i128) * (b.y as i128);
        let second: i128 = (a.y as i128) * (b.x as i128);
        match first.checked_sub(second) {
            None => None,
            Some(difference) => narrow_wide(wide_trunc_div(difference, UNIT as i128)),
        }
    }

    /// Multiplies two vectors coordinate by coordinate.
    pub fn checked_mul(self, other: Vec2) -> (r: Option<Vec2>)
        ensures
            r == self.spec_scale(other.x, other.y),
    {
        self.scale(other.x, other.y)
    }

    /// Divides this vector by `other` coordinate by coordinate.
    pub fn checked_div(self, other: Vec2) -> (r: Option<Vec2>)
        ensures
            r == self.spec_div(other.x, other.y),
    {
        if other.x == 0 || other.y == 0 {
            return None;
        }
        match (scalar_div(self.x, other.x), scalar_div(self.y, other.y)) {
            (Some(x), Some(y)) => Some(Vec2 { x, y }),
            _ => None,
        }
    }

    /// Adds the scalar `n` to both coordinates.
    pub fn checked_add_scalar(self, n: i64) -> (r: Option<Vec2>)
        ensures
            r == self.spec_add(Vec2 { x: n, y: n }),
    {
        self.checked_add(Vec2 { x: n, y: n })
    }

    /// Subtracts the scalar `n` from both coordinates.
    pub fn checked_sub_scalar(self, n: i64) -> (r: Option<Vec2>)
        ensures
            r == self.spec_sub(Vec2 { x: n, y: n }),
    {
        self.checked_sub(Vec2 { x: n, y: n })
    }

    /// Multiplies both coordinates by the scalar `n`.
    pub fn checked_mul_scalar(self, n: i64) -> (r: Option<Vec2>)
        ensures
            r == self.spec_scale(n, n),
    {
        self.scale(n, n)
    }

    /// Divides both coordinates by the scalar `n`.
    pub fn checked_div_scalar(self, n: i64) -> (r: Option<Vec2>)
        ensures
            r == self.spec_div(n, n),
    {
        self.checked_div(Vec2 { x: n, y: n })
    }
}

impl Default for Vec2 {
    /// The vector whose coordinates are both zero.
    fn default() -> (v: Vec2)
        ensures
            v == (Vec2 { x: 0, y: 0 }),
    {
        Vec2 { x: 0, y: 0 }
    }
}

} // verus!

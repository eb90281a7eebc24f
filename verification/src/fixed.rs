//! Fixed-point numbers with nine decimal places.

use vstd::prelude::*;

verus! {

/// How many raw units make one: a `Fixed` with raw value `r` stands for `r / SCALE`.
pub const SCALE: i64 = 1_000_000_000;

/// Whether `v` can be the raw value of a `Fixed`.
pub open spec fn fits(v: int) -> bool {
    i64::MIN <= v <= i64::MAX
}

/// The product of two raw values, in raw units again, rounded down.
pub open spec fn mul_scaled(a: int, b: int) -> int {
    (a * b) / (SCALE as int)
}

/// The distance of `v` from zero.
pub open spec fn magnitude(v: int) -> int {
    if v < 0 {
        -v
    } else {
        v
    }
}

/// Whether `r` is the square root of `v`, rounded down to a whole number.
pub open spec fn is_floor_root(r: int, v: int) -> bool {
    &&& 0 <= r
    &&& r * r <= v
    &&& v < (r + 1) * (r + 1)
}

/// Whether `r` is the square root of the raw value `v`, rounded down to a raw unit.
pub open spec fn is_root(r: int, v: int) -> bool {
    is_floor_root(r, v * SCALE)
}

/// A number with nine decimal places, held as a count of billionths.
#[derive(Clone, Copy, Debug, PartialEq, Eq, Structural)]
pub struct Fixed {
    pub raw: i64,
}

impl View for Fixed {
    type V = int;

    open spec fn view(&self) -> int {
        self.raw as int
    }
}

/// The `Fixed` with raw value `v`, where there is one.
pub open spec fn checked(v: int) -> Option<Fixed> {
    if fits(v) {
        Some(Fixed { raw: v as i64 })
    } else {
        None
    }
}

proof fn lemma_product_bound(a: int, b: int)
    by (nonlinear_arith)
    requires
        -0x8000_0000_0000_0000 <= a <= 0x8000_0000_0000_0000,
        -0x8000_0000_0000_0000 <= b <= 0x8000_0000_0000_0000,
    ensures
        -0x4000_0000_0000_0000_0000_0000_0000_0000 <= a * b
            <= 0x4000_0000_0000_0000_0000_0000_0000_0000,
{
}

/// `n / SCALE`, rounded down also where `n` is negative.
pub(crate) fn scale_down(n: i128) -> (q: i128)
    requires
        -0x4000_0000_0000_0000_0000_0000_0000_0000 <= n
            <= 0x4000_0000_0000_0000_0000_0000_0000_0000,
    ensures
        q == (n as int) / (SCALE as int),
{
    let d: i128 = 1_000_000_000;
    if n >= 0 {
        n / d
    } else {
        -((-n - 1) / d) - 1
    }
}

/// The product of two raw values in raw units, rounded down, at full width.
pub(crate) fn wide_product(a: i64, b: i64) -> (p: i128)
    ensures
        p == mul_scaled(a as int, b as int),
        -0x2_0000_0000_0000_0000_0000_0000 <= p <= 0x2_0000_0000_0000_0000_0000_0000,
{
    proof {
        lemma_product_bound(a as int, b as int);
    }
    let wide_a: i128 = a as i128;
    let wide_b: i128 = b as i128;
    scale_down(wide_a * wide_b)
}

/// `v` as a `Fixed`, unless it is out of range.
pub(crate) fn narrow(v: i128) -> (r: Option<Fixed>)
    ensures
        r == checked(v as int),
{
    if v < -0x8000_0000_0000_0000 || v > 0x7fff_ffff_ffff_ffff {
        None
    } else {
        Some(Fixed { raw: v as i64 })
    }
}

/// The square root of `v`, rounded down, for a `v` that a product of two raw
/// values in range can be.
pub(crate) fn floor_root(v: i128) -> (root: Fixed)
    requires
        0 <= v < 0x4000_0000_0000_0000_0000_0000,
    ensures
        is_floor_root(root@, v as int),
{
    let mut lo: i128 = 0;
    let mut hi: i128 = 0x8000_0000_0000;
    assert(lo * lo <= v && v < hi * hi) by (nonlinear_arith)
        requires
            lo == 0,
            hi == 0x8000_0000_0000,
            0 <= v < 0x4000_0000_0000_0000_0000_0000,
    ;
    while hi - lo > 1
        invariant
            0 <= lo < hi <= 0x8000_0000_0000,
            lo * lo <= v,
            v < hi * hi,
        decreases hi - lo,
    {
        let mid: i128 = lo + (hi - lo) / 2;
        assert(0 <= mid * mid <= 0x8000_0000_0000 * 0x8000_0000_0000) by (nonlinear_arith)
            requires
                0 <= mid <= 0x8000_0000_0000,
        ;
        if mid * mid <= v {
            lo = mid;
        } else {
            hi = mid;
        }
    }
    Fixed { raw: lo as i64 }
}

impl Fixed {
    /// The whole number `units`, or `None` where it is too large to hold.
    pub fn from_int(units: i64) -> (r: Option<Fixed>)
        ensures
            r == checked(units * SCALE),
    {
        let wide: i128 = units as i128;
        narrow(wide * 1_000_000_000)
    }

    /// The square root, rounded down to a billionth; `None` for a negative number.
    pub fn sqrt(self) -> (r: Option<Fixed>)
        ensures
            self@ < 0 <==> r is None,
            r matches Some(root) ==> is_root(root@, self@),
    {
        if self.raw < 0 {
            None
        } else {
            Some(floor_root((self.raw as i128) * 1_000_000_000))
        }
    }
}

} // verus!

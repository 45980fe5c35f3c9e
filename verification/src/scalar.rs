//! Fixed-point scalars.
//!
//! Every length, height and field value of this crate is an integer count of
//! millionths: `UNIT` stands for one. Results that are not whole are rounded
//! down, and each function says so exactly in its contract.

use vstd::prelude::*;

verus! {

/// One, as a scalar.
pub const UNIT: i64 = 1_000_000;

/// `r` is the square root of `n`, rounded down.
pub open spec fn is_sqrt_floor(n: nat, r: nat) -> bool {
    r * r <= n < (r + 1) * (r + 1)
}

/// The square root of `n`, rounded down.
pub open spec fn sqrt_floor(n: nat) -> nat {
    choose|r: nat| is_sqrt_floor(n, r)
}

/// A number has at most one rounded-down square root.
pub proof fn lemma_sqrt_floor_unique(n: nat, a: nat, b: nat)
    requires
        is_sqrt_floor(n, a),
        is_sqrt_floor(n, b),
    ensures
        a == b,
{
    if a < b {
        assert((a + 1) * (a + 1) <= b * b) by (nonlinear_arith)
            requires
                a + 1 <= b,
        ;
    } else if b < a {
        assert((b + 1) * (b + 1) <= a * a) by (nonlinear_arith)
            requires
                b + 1 <= a,
        ;
    }
}

/// Every number has a rounded-down square root, and `sqrt_floor` is it.
pub proof fn lemma_sqrt_floor(n: nat)
    ensures
        is_sqrt_floor(n, sqrt_floor(n)),
    decreases n,
{
    if n == 0 {
        assert(is_sqrt_floor(0, 0)) by (nonlinear_arith);
    } else {
        lemma_sqrt_floor((n - 1) as nat);
        let r = sqrt_floor((n - 1) as nat);
        if n < (r + 1) * (r + 1) {
            assert(is_sqrt_floor(n, r));
        } else {
            assert((r + 2) * (r + 2) > (r + 1) * (r + 1)) by (nonlinear_arith);
            assert(is_sqrt_floor(n, r + 1));
        }
    }
}

/// Whatever passes for the rounded-down square root of `n` is `sqrt_floor(n)`.
pub proof fn lemma_sqrt_floor_is(n: nat, r: nat)
    requires
        is_sqrt_floor(n, r),
    ensures
        sqrt_floor(n) == r,
{
    lemma_sqrt_floor_unique(n, sqrt_floor(n), r);
}

/// The rounded-down square root grows with its argument.
pub proof fn lemma_sqrt_floor_monotone(a: nat, b: nat)
    requires
        a <= b,
    ensures
        sqrt_floor(a) <= sqrt_floor(b),
{
    lemma_sqrt_floor(a);
    lemma_sqrt_floor(b);
    let ra = sqrt_floor(a);
    let rb = sqrt_floor(b);
    if rb < ra {
        assert((rb + 1) * (rb + 1) <= ra * ra) by (nonlinear_arith)
            requires
                rb + 1 <= ra,
        ;
    }
}

/// The square root of `n`, rounded down.
pub fn isqrt(n: u128) -> (r: u64)
    ensures
        r == sqrt_floor(n as nat),
        r * r <= n < (r + 1) * (r + 1),
{
    let mut lo: u128 = 0;
    let mut hi: u128 = 0x1_0000_0000_0000_0000;
    assert(0x1_0000_0000_0000_0000int * 0x1_0000_0000_0000_0000int > u128::MAX) by (nonlinear_arith);
    while hi - lo > 1
        invariant
            lo < hi <= 0x1_0000_0000_0000_0000,
            lo * lo <= n < hi * hi,
        decreases hi - lo,
    {
        let mid: u128 = lo + (hi - lo) / 2;
        assert(mid * mid <= 0xFFFF_FFFF_FFFF_FFFF * 0xFFFF_FFFF_FFFF_FFFF) by (nonlinear_arith)
            requires
                mid <= 0xFFFF_FFFF_FFFF_FFFF,
        ;
        assert(0xFFFF_FFFF_FFFF_FFFFint * 0xFFFF_FFFF_FFFF_FFFFint <= u128::MAX) by (nonlinear_arith);
        if mid * mid <= n {
            lo = mid;
        } else {
            hi = mid;
        }
    }
    proof {
        lemma_sqrt_floor_is(n as nat, lo as nat);
    }
    lo as u64
}

/// The sum of the squares of two grid coordinates.
pub fn square_sum(x: i32, z: i32) -> (s: u128)
    ensures
        s == x * x + z * z,
        s <= 0x8000_0000_0000_0000,
{
    let wx: i64 = x as i64;
    let wz: i64 = z as i64;
    assert(0 <= wx * wx <= 0x4000_0000_0000_0000) by (nonlinear_arith)
        requires
            -0x8000_0000 <= wx <= 0x8000_0000,
    ;
    assert(0 <= wz * wz <= 0x4000_0000_0000_0000) by (nonlinear_arith)
        requires
            -0x8000_0000 <= wz <= 0x8000_0000,
    ;
    let sx: u128 = (wx * wx) as u128;
    let sz: u128 = (wz * wz) as u128;
    sx + sz
}

/// How far the cell `(x, z)` lies from the origin, rounded down to a scalar.
pub open spec fn distance_of(x: int, z: int) -> nat {
    sqrt_floor(((x * x + z * z) * (UNIT * UNIT)) as nat)
}

/// A cell whose distance from the origin is a whole number has that number
/// as its distance, with nothing lost to rounding.
pub proof fn lemma_distance_of_whole(x: int, z: int, d: nat)
    requires
        x * x + z * z == d * d,
    ensures
        distance_of(x, z) == d * UNIT,
{
    let r = d * 1_000_000;
    assert(r * r == (d * d) * 1_000_000_000_000) by (nonlinear_arith)
        requires
            r == d * 1_000_000,
    ;
    assert((r + 1) * (r + 1) > r * r) by (nonlinear_arith);
    lemma_sqrt_floor_is((d * d * 1_000_000_000_000) as nat, r);
}

/// How far the cell `(x, z)` lies from the origin.
///
/// The squares are taken in 128 bits, so no coordinate overflows.
pub fn distance(x: i32, z: i32) -> (d: i64)
    ensures
        d == distance_of(x as int, z as int),
        0 <= d < 0x10_0000_0000_0000,
{
    let s: u128 = square_sum(x, z);
    let n: u128 = s * 1_000_000_000_000;
    let d: u64 = isqrt(n);
    assert(d < 0x10_0000_0000_0000) by (nonlinear_arith)
        requires
            d * d <= n,
            n <= 0x8000_0000_0000_0000 * 1_000_000_000_000,
    ;
    d as i64
}

/// The whole number `n` as a scalar.
pub fn whole(n: i32) -> (r: i64)
    ensures
        r == n * UNIT,
{
    let wide: i64 = n as i64;
    wide * UNIT
}

/// `a / b` rounded towards minus infinity, which is what `/` means in this
/// crate's contracts.
pub(crate) fn floor_div(a: i128, b: i128) -> (q: i128)
    requires
        b > 0,
    ensures
        q == a / b,
{
    if a >= 0 {
        a / b
    } else {
        let m: i128 = -(a + 1);
        let p: i128 = m / b;
        assert(a / b == -(m / b) - 1) by (nonlinear_arith)
            requires
                b > 0,
                m >= 0,
                a == -m - 1,
        ;
        -p - 1
    }
}

} // verus!

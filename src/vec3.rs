//! Three-component vectors in fixed point: the integer `UNIT` stands for 1.0.
use rand::Rng;
use rand::rngs::StdRng;
use vstd::prelude::*;

verus! {

/// The integer that stands for 1.0 in every fixed-point quantity.
pub const UNIT: i64 = 1024;

/// Largest absolute coordinate accepted by `nrmlz_3`, so that squares and
/// their sum stay inside `i64`.
pub const NORM_LIMIT: i64 = 1073741824;

#[derive(Clone, Copy, Debug, PartialEq, Eq, Structural)]
pub struct V3 {
    pub x: i64,
    pub y: i64,
    pub z: i64,
}

/// Every coordinate of `v` lies in `[-b, b]`.
pub open spec fn within(v: V3, b: int) -> bool {
    -b <= v.x <= b && -b <= v.y <= b && -b <= v.z <= b
}

pub open spec fn fits(n: int) -> bool {
    i64::MIN <= n <= i64::MAX
}

/// Squared Euclidean length.
pub open spec fn norm2(v: V3) -> int {
    v.x * v.x + v.y * v.y + v.z * v.z
}

/// `r` is the integer square root of `n`.
pub open spec fn is_root(n: int, r: int) -> bool {
    0 <= r && r * r <= n && n < (r + 1) * (r + 1)
}

/// The integer square root of a non-negative `n` (the largest `r` with `r * r <= n`).
pub open spec fn root(n: int) -> int {
    choose|r: int| is_root(n, r)
}

/// Division that rounds toward zero, as Rust's `/` does, for a positive divisor.
pub open spec fn tdiv(a: int, b: int) -> int {
    if a >= 0 {
        a / b
    } else {
        -((-a) / b)
    }
}

/// The direction of `v` scaled to length `UNIT` (rounded toward zero per
/// coordinate); the zero vector stays zero.
pub open spec fn unit_of(v: V3) -> (int, int, int) {
    let len = root(norm2(v));
    if len == 0 {
        (0, 0, 0)
    } else {
        (tdiv(v.x * UNIT, len), tdiv(v.y * UNIT, len), tdiv(v.z * UNIT, len))
    }
}

pub open spec fn triple(v: V3) -> (int, int, int) {
    (v.x as int, v.y as int, v.z as int)
}

pub proof fn lemma_root_unique(n: int, a: int, b: int)
    requires
        is_root(n, a),
        is_root(n, b),
    ensures
        a == b,
{
    if a < b {
        assert((a + 1) * (a + 1) <= b * b) by (nonlinear_arith)
            requires
                0 <= a < b,
        ;
    } else if b < a {
        assert((b + 1) * (b + 1) <= a * a) by (nonlinear_arith)
            requires
                0 <= b < a,
        ;
    }
}

/// The square root of a perfect square is exact.
pub proof fn lemma_root_of_square(a: int)
    requires
        0 <= a,
    ensures
        root(a * a) == a,
{
    assert(a * a < (a + 1) * (a + 1)) by (nonlinear_arith)
        requires
            0 <= a,
    ;
    assert(is_root(a * a, a));
    lemma_root_unique(a * a, a, root(a * a));
}

pub proof fn lemma_tdiv_odd(a: int, b: int)
    requires
        b > 0,
    ensures
        tdiv(-a, b) == -tdiv(a, b),
{
}

pub proof fn lemma_tdiv_bound(a: int, b: int)
    requires
        b > 0,
    ensures
        a >= 0 ==> 0 <= tdiv(a, b) <= a,
        a < 0 ==> a <= tdiv(a, b) <= 0,
{
    if a >= 0 {
        assert(a / b <= a) by (nonlinear_arith)
            requires
                a >= 0,
                b > 0,
        ;
    } else {
        assert((-a) / b <= -a) by (nonlinear_arith)
            requires
                -a >= 0,
                b > 0,
        ;
    }
}

/// Integer square root by bisection.
pub fn isqrt(n: u64) -> (r: u64)
    ensures
        is_root(n as int, r as int),
        r == root(n as int),
        r < 4294967296,
{
    let mut lo: u64 = 0;
    let mut hi: u64 = 4294967296;
    assert(4294967296 * 4294967296 == 18446744073709551616int);
    while hi - lo > 1
        invariant
            lo < hi <= 4294967296,
            lo * lo <= n,
            n < hi * hi,
        decreases hi - lo,
    {
        let mid: u64 = lo + (hi - lo) / 2;
        assert(mid * mid < 18446744073709551616) by (nonlinear_arith)
            requires
                mid < 4294967296,
        ;
        if mid * mid <= n {
            lo = mid;
        } else {
            hi = mid;
        }
    }
    proof {
        assert(hi == lo + 1);
        assert(is_root(n as int, lo as int));
        lemma_root_unique(n as int, lo as int, root(n as int));
    }
    lo
}

/// `a / b` rounded toward zero.
pub fn tdiv_i64(a: i64, b: i64) -> (r: i64)
    requires
        a > i64::MIN,
        b > 0,
    ensures
        r == tdiv(a as int, b as int),
{
    proof {
        lemma_tdiv_bound(a as int, b as int);
    }
    if a >= 0 {
        a / b
    } else {
        let q: i64 = (-a) / b;
        -q
    }
}

pub fn add_3(a: V3, b: V3) -> (r: V3)
    requires
        fits(a.x + b.x),
        fits(a.y + b.y),
        fits(a.z + b.z),
    ensures
        r.x == a.x + b.x,
        r.y == a.y + b.y,
        r.z == a.z + b.z,
{
    V3 { x: a.x + b.x, y: a.y + b.y, z: a.z + b.z }
}

pub fn sub_3(a: V3, b: V3) -> (r: V3)
    requires
        fits(a.x - b.x),
        fits(a.y - b.y),
        fits(a.z - b.z),
    ensures
        r.x == a.x - b.x,
        r.y == a.y - b.y,
        r.z == a.z - b.z,
{
    V3 { x: a.x - b.x, y: a.y - b.y, z: a.z - b.z }
}

/// Scales every coordinate by `k`.
pub fn mltply_3(v: V3, k: i64) -> (r: V3)
    requires
        fits(v.x * k),
        fits(v.y * k),
        fits(v.z * k),
    ensures
        r.x == v.x * k,
        r.y == v.y * k,
        r.z == v.z * k,
{
    V3 { x: v.x * k, y: v.y * k, z: v.z * k }
}

pub fn cross_3(a: V3, b: V3) -> (r: V3)
    requires
        within(a, NORM_LIMIT as int),
        within(b, NORM_LIMIT as int),
    ensures
        r.x == a.y * b.z - a.z * b.y,
        r.y == a.z * b.x - a.x * b.z,
        r.z == a.x * b.y - a.y * b.x,
{
    proof {
        lemma_product_bound(a.y as int, b.z as int);
        lemma_product_bound(a.z as int, b.y as int);
        lemma_product_bound(a.z as int, b.x as int);
        lemma_product_bound(a.x as int, b.z as int);
        lemma_product_bound(a.x as int, b.y as int);
        lemma_product_bound(a.y as int, b.x as int);
    }
    V3 { x: a.y * b.z - a.z * b.y, y: a.z * b.x - a.x * b.z, z: a.x * b.y - a.y * b.x }
}

proof fn lemma_product_bound(a: int, b: int)
    requires
        -NORM_LIMIT <= a <= NORM_LIMIT,
        -NORM_LIMIT <= b <= NORM_LIMIT,
    ensures
        -NORM_LIMIT * NORM_LIMIT <= a * b <= NORM_LIMIT * NORM_LIMIT,
{
    assert(-1073741824 * 1073741824 <= a * b <= 1073741824 * 1073741824) by (nonlinear_arith)
        requires
            -1073741824 <= a <= 1073741824,
            -1073741824 <= b <= 1073741824,
    ;
}

/// A cross-product coordinate of two vectors with coordinates in
/// `[-1024, 1024]`.
pub proof fn lemma_short_cross(a: int, b: int, c: int, d: int)
    requires
        -1024 <= a <= 1024,
        -1024 <= b <= 1024,
        -1024 <= c <= 1024,
        -1024 <= d <= 1024,
    ensures
        -2097152 <= a * b - c * d <= 2097152,
{
    assert(-1048576 <= a * b <= 1048576) by (nonlinear_arith)
        requires
            -1024 <= a <= 1024,
            -1024 <= b <= 1024,
    ;
    assert(-1048576 <= c * d <= 1048576) by (nonlinear_arith)
        requires
            -1024 <= c <= 1024,
            -1024 <= d <= 1024,
    ;
}

/// Squared length of `v`.
pub fn norm2_3(v: V3) -> (r: i64)
    requires
        within(v, NORM_LIMIT as int),
    ensures
        r == norm2(v),
        r >= 0,
{
    proof {
        lemma_product_bound(v.x as int, v.x as int);
        lemma_product_bound(v.y as int, v.y as int);
        lemma_product_bound(v.z as int, v.z as int);
        assert(v.x * v.x >= 0 && v.y * v.y >= 0 && v.z * v.z >= 0) by (nonlinear_arith);
    }
    v.x * v.x + v.y * v.y + v.z * v.z
}

proof fn lemma_coord_bound(a: int, n: int, len: int)
    requires
        is_root(n, len),
        len > 0,
        a * a <= n,
    ensures
        -UNIT <= tdiv(a * UNIT, len) <= UNIT,
{
    assert(-len <= a <= len) by (nonlinear_arith)
        requires
            a * a <= n,
            n < (len + 1) * (len + 1),
            len > 0,
    ;
    if a >= 0 {
        assert((a * 1024) / len <= 1024) by (nonlinear_arith)
            requires
                0 <= a <= len,
                len > 0,
        ;
    } else {
        assert(((-a) * 1024) / len <= 1024) by (nonlinear_arith)
            requires
                0 <= -a <= len,
                len > 0,
        ;
        assert(-(a * 1024) == (-a) * 1024);
    }
}

/// Scales `v` to length `UNIT`; the zero vector is returned unchanged rather
/// than divided by zero.
pub fn nrmlz_3(v: V3) -> (r: V3)
    requires
        within(v, NORM_LIMIT as int),
    ensures
        triple(r) == unit_of(v),
        within(r, UNIT as int),
{
    let n2 = norm2_3(v);
    let len = isqrt(n2 as u64);
    proof {
        let n = n2 as int;
        assert(v.x * v.x <= n && v.y * v.y <= n && v.z * v.z <= n) by (nonlinear_arith)
            requires
                n == v.x * v.x + v.y * v.y + v.z * v.z,
        ;
        if len != 0 {
            lemma_coord_bound(v.x as int, n, len as int);
            lemma_coord_bound(v.y as int, n, len as int);
            lemma_coord_bound(v.z as int, n, len as int);
        }
    }
    if len == 0 {
        V3 { x: 0, y: 0, z: 0 }
    } else {
        let l = len as i64;
        V3 {
            x: tdiv_i64(v.x * UNIT, l),
            y: tdiv_i64(v.y * UNIT, l),
            z: tdiv_i64(v.z * UNIT, l),
        }
    }
}

#[verifier::external_type_specification]
#[verifier::external_body]
pub struct ExStdRng(StdRng);

/// Relies on rand's `Rng::gen_range` over an inclusive range: the value
/// drawn lies in `[lo, hi]` (it panics only on an empty range).
#[verifier::external_body]
pub(crate) fn draw(rng: &mut StdRng, lo: i64, hi: i64) -> (r: i64)
    requires
        lo <= hi,
    ensures
        lo <= r <= hi,
{
    rng.gen_range(lo..=hi)
}

/// A vector whose coordinates are drawn independently from `[lo, hi]`.
pub fn gen_3(lo: i64, hi: i64, rng: &mut StdRng) -> (r: V3)
    requires
        lo <= hi,
    ensures
        lo <= r.x <= hi,
        lo <= r.y <= hi,
        lo <= r.z <= hi,
{
    let x = draw(rng, lo, hi);
    let y = draw(rng, lo, hi);
    let z = draw(rng, lo, hi);
    V3 { x, y, z }
}

} // verus!

//! Integer vectors and the arithmetic that maps world positions to chunks and
//! to block offsets within a chunk.

use vstd::prelude::*;

verus! {

/// A triple of coordinates.
#[derive(Debug, Clone, Copy, PartialEq, Eq, Hash)]
pub struct Vec3<T>(pub T, pub T, pub T);

pub type Vec3i = Vec3<i32>;

/// The quotient that `quot_rem_i` yields: the floor of `n / m` for a positive
/// `m`. For a negative `m` that does not divide a negative `n`, the result
/// lies two below the Euclidean quotient.
pub open spec fn spec_quot(n: int, m: int) -> int {
    if m < 0 && n < 0 && n % m != 0 {
        n / m - 2
    } else {
        n / m
    }
}

/// The remainder that goes with `spec_quot`: `n - spec_quot(n, m) * m`, which
/// lies in `0..m` for a positive `m`.
pub open spec fn spec_rem(n: int, m: int) -> int {
    if m < 0 && n < 0 && n % m != 0 {
        n % m + 2 * m
    } else {
        n % m
    }
}

/// Whether `quot_rem_i` can divide `n` by `m` within `i32`.
pub open spec fn quot_rem_defined(n: int, m: int) -> bool {
    &&& m != 0
    &&& !(n == i32::MIN && m == -1)
    &&& i32::MIN <= spec_rem(n, m)
}

/// The Euclidean quotient and remainder are the only pair `(q, r)` with
/// `n == q * m + r` and `0 <= r < |m|`.
proof fn lemma_euclid_unique(n: int, m: int, q: int, r: int)
    requires
        m != 0,
        0 <= r,
        r < m || r < -m,
        n == q * m + r,
    ensures
        q == n / m,
        r == n % m,
{
    let q2 = n / m;
    let r2 = n % m;
    assert(n == m * q2 + r2 && 0 <= r2 && (r2 < m || r2 < -m)) by (nonlinear_arith)
        requires
            m != 0,
            q2 == n / m,
            r2 == n % m,
    ;
    assert(q == q2) by (nonlinear_arith)
        requires
            m != 0,
            n == q * m + r,
            n == m * q2 + r2,
            0 <= r,
            r < m || r < -m,
            0 <= r2,
            r2 < m || r2 < -m,
    ;
    assert(r == r2) by (nonlinear_arith)
        requires
            q == q2,
            n == q * m + r,
            n == m * q2 + r2,
    ;
}

/// What truncating division by `m` leaves of a positive `a`, put together
/// again: `a == (a / m) * m + a % m` with `0 <= a % m < m`.
proof fn lemma_split(a: int, m: int)
    requires
        0 <= a,
        0 < m,
    ensures
        a == (a / m) * m + a % m,
        0 <= a % m < m,
        0 <= a / m <= a,
        a % m != 0 ==> 2 * (a / m) <= a,
{
    vstd::arithmetic::div_mod::lemma_fundamental_div_mod(a, m);
    vstd::arithmetic::div_mod::lemma_mod_bound(a, m);
    vstd::arithmetic::div_mod::lemma_div_pos_is_pos(a, m);
    vstd::arithmetic::div_mod::lemma_div_nonincreasing(a, m);
    let q = a / m;
    let r = a % m;
    assert(a == q * m + r) by (nonlinear_arith)
        requires
            a == m * q + r,
    ;
    if r != 0 {
        assert(2 * q <= a) by (nonlinear_arith)
            requires
                a == q * m + r,
                0 < r < m,
                0 <= q,
        ;
    }
}

/// Divides `n` by `m`, rounding the quotient down so that the remainder of a
/// positive divisor is never negative.
pub fn quot_rem_i(n: i32, m: i32) -> (r: (i32, i32))
    requires
        quot_rem_defined(n as int, m as int),
    ensures
        r.0 == spec_quot(n as int, m as int),
        r.1 == spec_rem(n as int, m as int),
{
    let ghost a: int = if n < 0 { -n } else { n as int };
    let ghost b: int = if m < 0 { -m } else { m as int };
    proof {
        lemma_split(a, b);
        assert(a == n * -1 || a == n);
        assert(b == m * -1 || b == m);
        if b >= 2 {
            vstd::arithmetic::div_mod::lemma_div_is_ordered_by_denominator(a, 2, b);
        }
    }
    let quot: i32 = n.checked_div(m).unwrap();
    let rem: i32 = n.checked_rem(m).unwrap();
    proof {
        let tq: int = quot as int;
        let tr: int = rem as int;
        assert(tq * m + tr == n) by (nonlinear_arith)
            requires
                a == (a / b) * b + a % b,
                a == n || a == -n,
                b == m || b == -m,
                (a == n) == (n >= 0),
                (b == m) == (m > 0),
                tq == (if (n < 0) == (m < 0) { a / b } else { -(a / b) }),
                tr == (if n < 0 { -(a % b) } else { a % b }),
        ;
        if tr >= 0 {
            lemma_euclid_unique(n as int, m as int, tq, tr);
        } else if m > 0 {
            assert((tq - 1) * m + (tr + m) == n) by (nonlinear_arith)
                requires
                    tq * m + tr == n,
            ;
            lemma_euclid_unique(n as int, m as int, tq - 1, tr + m);
        } else {
            assert((tq + 1) * m + (tr - m) == n) by (nonlinear_arith)
                requires
                    tq * m + tr == n,
            ;
            lemma_euclid_unique(n as int, m as int, tq + 1, tr - m);
        }
    }
    if rem >= 0 {
        (quot, rem)
    } else {
        (quot - 1, rem + m)
    }
}

/// Whether `quot_rem_vec3i` can divide every coordinate of `n` by that of `m`.
pub open spec fn quot_rem_vec3i_defined(n: Vec3i, m: Vec3i) -> bool {
    &&& quot_rem_defined(n.0 as int, m.0 as int)
    &&& quot_rem_defined(n.1 as int, m.1 as int)
    &&& quot_rem_defined(n.2 as int, m.2 as int)
}

/// Divides `n` by `m` coordinate by coordinate: with `m` the extent of a
/// chunk, the quotient is the chunk that a world position lies in, and the
/// remainder its position within that chunk.
pub fn quot_rem_vec3i(n: &Vec3i, m: &Vec3i) -> (r: (Vec3i, Vec3i))
    requires
        quot_rem_vec3i_defined(*n, *m),
    ensures
        r.0.0 == spec_quot(n.0 as int, m.0 as int),
        r.0.1 == spec_quot(n.1 as int, m.1 as int),
        r.0.2 == spec_quot(n.2 as int, m.2 as int),
        r.1.0 == spec_rem(n.0 as int, m.0 as int),
        r.1.1 == spec_rem(n.1 as int, m.1 as int),
        r.1.2 == spec_rem(n.2 as int, m.2 as int),
{
    let (quot1, rem1) = quot_rem_i(n.0, m.0);
    let (quot2, rem2) = quot_rem_i(n.1, m.1);
    let (quot3, rem3) = quot_rem_i(n.2, m.2);
    (Vec3(quot1, quot2, quot3), Vec3(rem1, rem2, rem3))
}

/// The offset of a block within a chunk, before it is made an index:
/// `x + y * size.x + z * (size.x + size.y)`.
pub open spec fn linear_offset(block_position: Vec3i, chunk_size: Vec3i) -> int {
    block_position.0 + block_position.1 * chunk_size.0 + block_position.2 * (chunk_size.0
        + chunk_size.1)
}

/// Whether a value lies within `i32`.
pub open spec fn fits_i32(value: int) -> bool {
    i32::MIN <= value <= i32::MAX
}

/// Whether every step of `linear_offset` stays within `i32`.
pub open spec fn linear_index_defined(block_position: Vec3i, chunk_size: Vec3i) -> bool {
    &&& fits_i32(block_position.1 * chunk_size.0)
    &&& fits_i32(block_position.0 + block_position.1 * chunk_size.0)
    &&& fits_i32(chunk_size.0 + chunk_size.1)
    &&& fits_i32(block_position.2 * (chunk_size.0 + chunk_size.1))
    &&& fits_i32(linear_offset(block_position, chunk_size))
}

/// The index that an offset becomes: itself where it is not negative, and its
/// two's complement in the width of `usize` where it is.
pub open spec fn offset_as_index(offset: int) -> int {
    if offset >= 0 {
        offset
    } else {
        offset + usize::MAX + 1
    }
}

/// The index of the block at `block_position` in the blocks of a chunk of
/// extent `chunk_size`.
pub fn linear_index(block_position: &Vec3i, chunk_size: &Vec3i) -> (index: usize)
    requires
        linear_index_defined(*block_position, *chunk_size),
    ensures
        index == offset_as_index(linear_offset(*block_position, *chunk_size)),
{
    let offset: i32 = block_position.0 + block_position.1 * chunk_size.0 + block_position.2 * (
    chunk_size.0 + chunk_size.1);
    if offset >= 0 {
        offset as usize
    } else {
        usize::MAX - ((-(offset + 1)) as usize)
    }
}

} // verus!

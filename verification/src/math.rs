//! Geometry engine: display-matrix parsing and fixed-point conversion.
//!
//! A display matrix arrives as 36 bytes of side data: nine little-endian
//! signed 32-bit cells in row-major 3x3 order.  Cells 2, 5 and 8 carry
//! 2.30 fixed-point values, the rest 16.16 fixed-point values; parsing
//! divides each cell by the matching power of two, truncating toward zero.

use vstd::prelude::*;
use vstd::arithmetic::power2::{pow2, lemma2_to64, lemma_pow2_strictly_increases};
use vstd::arithmetic::div_mod::{
    lemma_div_is_ordered_by_denominator,
    lemma_div_basics,
    lemma_div_pos_is_pos,
    lemma_fundamental_div_mod,
    lemma_mod_bound,
};

use crate::digits::decimal_string;
use crate::error::{ErrorKind, VideoError};
use crate::frame::PixelFrame;

verus! {

/// Integer division truncating toward zero, as C and Rust divide.
pub open spec fn trunc_div(x: int, d: int) -> int
    recommends
        d != 0,
{
    if x == 0 {
        0
    } else if x > 0 && d > 0 {
        x / d
    } else if x < 0 && d < 0 {
        (-x) / (-d)
    } else if x < 0 {
        -((-x) / d)
    } else {
        -(x / (-d))
    }
}

/// A 3x3 display-rotation matrix after fixed-point conversion, row-major:
///
/// ```text
/// | m0 m1 m2 |
/// | m3 m4 m5 |
/// | m6 m7 m8 |
/// ```
#[derive(Clone, Copy, Debug, PartialEq, Eq, Structural)]
pub struct DisplayMatrix {
    pub m0: i32,
    pub m1: i32,
    pub m2: i32,
    pub m3: i32,
    pub m4: i32,
    pub m5: i32,
    pub m6: i32,
    pub m7: i32,
    pub m8: i32,
}

/// The signed 32-bit value held by four little-endian bytes.
pub open spec fn le_i32(b: Seq<u8>) -> int
    recommends
        b.len() == 4,
{
    let u = b[0] + b[1] * 0x100 + b[2] * 0x1_0000 + b[3] * 0x100_0000;
    if u < 0x8000_0000 {
        u
    } else {
        u - 0x1_0000_0000
    }
}

/// The value of matrix cell `k` parsed out of `bytes`: the raw cell divided
/// by 2^30 for cells 2, 5, 8 and by 2^16 otherwise, truncating toward zero.
pub open spec fn spec_cell(bytes: Seq<u8>, k: int) -> int
    recommends
        bytes.len() >= 36,
        0 <= k < 9,
{
    let raw = le_i32(bytes.subrange(4 * k, 4 * k + 4));
    if k == 2 || k == 5 || k == 8 {
        trunc_div(raw, pow2(30) as int)
    } else {
        trunc_div(raw, pow2(16) as int)
    }
}

/// The matrix that 36 bytes of side data encode.
pub open spec fn spec_parse_matrix(bytes: Seq<u8>) -> DisplayMatrix
    recommends
        bytes.len() >= 36,
{
    DisplayMatrix {
        m0: spec_cell(bytes, 0) as i32,
        m1: spec_cell(bytes, 1) as i32,
        m2: spec_cell(bytes, 2) as i32,
        m3: spec_cell(bytes, 3) as i32,
        m4: spec_cell(bytes, 4) as i32,
        m5: spec_cell(bytes, 5) as i32,
        m6: spec_cell(bytes, 6) as i32,
        m7: spec_cell(bytes, 7) as i32,
        m8: spec_cell(bytes, 8) as i32,
    }
}

/// Reads the little-endian signed 32-bit value at `off`.
fn read_le_i32(bytes: &[u8], off: usize) -> (r: i32)
    requires
        off + 4 <= bytes@.len(),
    ensures
        r as int == le_i32(bytes@.subrange(off as int, off as int + 4)),
{
    let b0 = bytes[off] as u32;
    let b1 = bytes[off + 1] as u32;
    let b2 = bytes[off + 2] as u32;
    let b3 = bytes[off + 3] as u32;
    let u: u32 = b0 + b1 * 0x100 + b2 * 0x1_0000 + b3 * 0x100_0000;
    let v: i64 = if u >= 0x8000_0000 {
        u as i64 - 0x1_0000_0000i64
    } else {
        u as i64
    };
    v as i32
}

/// Divides `x` by `2^n`, truncating toward zero.
///
/// This is the fixed-point-to-integer conversion applied to every parsed
/// matrix cell.
pub fn to_fixed_point(x: i32, n: i32) -> (r: i32)
    requires
        0 <= n <= 30,
    ensures
        r as int == trunc_div(x as int, pow2(n as nat) as int),
{
    proof {
        lemma2_to64();
    }
    let mut d: u64 = 1;
    let mut i: i32 = 0;
    while i < n
        invariant
            0 <= i <= n <= 30,
            d == pow2(i as nat),
        decreases n - i,
    {
        proof {
            if (i as nat) < 30 {
                lemma_pow2_strictly_increases(i as nat, 30);
                lemma2_to64();
            }
        }
        d = d * 2;
        i = i + 1;
    }
    proof {
        if (n as nat) < 30 {
            lemma_pow2_strictly_increases(n as nat, 30);
        }
        lemma2_to64();
    }
    if x >= 0 {
        let q: u64 = (x as u64) / d;
        proof {
            lemma_div_is_ordered_by_denominator(x as int, 1, d as int);
        }
        q as i32
    } else {
        let mag: i64 = -(x as i64);
        let q: u64 = (mag as u64) / d;
        proof {
            lemma_div_is_ordered_by_denominator(mag as int, 1, d as int);
        }
        (-(q as i64)) as i32
    }
}

/// Absolute value of a mathematical integer.
pub open spec fn iabs(x: int) -> int {
    if x >= 0 {
        x
    } else {
        -x
    }
}

/// The absolute value of an `i32`, widened so that `i32::MIN` needs no care.
fn abs_u64(x: i32) -> (a: u64)
    ensures
        a == iabs(x as int),
{
    if x >= 0 {
        x as u64
    } else {
        (-(x as i64)) as u64
    }
}

/// The integer square root: the largest `r` with `r * r <= n`.
pub fn isqrt(n: u64) -> (r: u64)
    ensures
        r * r <= n < (r + 1) * (r + 1),
        r <= 0xFFFF_FFFF,
{
    let mut lo: u64 = 0;
    let mut hi: u64 = 0xFFFF_FFFF;
    proof {
        assert((0xFFFF_FFFFu64 + 1) * (0xFFFF_FFFFu64 + 1) > n) by (nonlinear_arith)
            requires
                n <= 0xFFFF_FFFF_FFFF_FFFFu64,
        ;
    }
    while lo < hi
        invariant
            lo <= hi <= 0xFFFF_FFFF,
            lo * lo <= n,
            (hi + 1) * (hi + 1) > n,
        decreases hi - lo,
    {
        let mid = lo + (hi - lo + 1) / 2;
        proof {
            assert(mid * mid <= 0xFFFF_FFFFu64 * 0xFFFF_FFFFu64) by (nonlinear_arith)
                requires
                    0 <= mid <= 0xFFFF_FFFFu64,
            ;
        }
        if mid * mid <= n {
            lo = mid;
        } else {
            hi = mid - 1;
        }
    }
    lo
}

/// The whole-degree angle of the vector `(a0, a1)` inside the first
/// quadrant, derived from the two column scales of a display matrix with
/// both `m0` and `m1` nonzero: `a0, a3, a1, a4` are the absolute values of
/// cells 0, 3, 1 and 4.
///
/// The comparison of `a1 * a3` against `a0 * a4` decides exactly whether
/// the angle is below, at, or above 45 degrees; away from 45 degrees the
/// result is a within-quadrant approximation of the true angle.
fn first_quadrant_deg(a0: u64, a3: u64, a1: u64, a4: u64) -> (phi: u32)
    requires
        1 <= a0 <= 0x8000_0000,
        1 <= a1 <= 0x8000_0000,
        a3 <= 0x8000_0000,
        a4 <= 0x8000_0000,
    ensures
        a1 * a3 == a0 * a4 ==> phi == 45,
        a1 * a3 < a0 * a4 ==> phi <= 44,
        a1 * a3 > a0 * a4 ==> 46 <= phi <= 89,
{
    proof {
        assert(a1 * a3 <= 0x8000_0000u64 * 0x8000_0000u64 && a0 * a4 <= 0x8000_0000u64
            * 0x8000_0000u64) by (nonlinear_arith)
            requires
                0 <= a0 <= 0x8000_0000u64,
                0 <= a1 <= 0x8000_0000u64,
                0 <= a3 <= 0x8000_0000u64,
                0 <= a4 <= 0x8000_0000u64,
        ;
        assert(a0 * a0 + a3 * a3 <= 0x8000_0000u64 * 0x8000_0000u64 + 0x8000_0000u64
            * 0x8000_0000u64 && a1 * a1 + a4 * a4 <= 0x8000_0000u64 * 0x8000_0000u64
            + 0x8000_0000u64 * 0x8000_0000u64 && 1 <= a0 * a0 && 1 <= a1 * a1)
            by (nonlinear_arith)
            requires
                1 <= a0 <= 0x8000_0000u64,
                1 <= a1 <= 0x8000_0000u64,
                0 <= a3 <= 0x8000_0000u64,
                0 <= a4 <= 0x8000_0000u64,
        ;
    }
    let cross_l = a1 * a3;
    let cross_r = a0 * a4;
    if cross_l == cross_r {
        45
    } else {
        let s0 = isqrt(a0 * a0 + a3 * a3);
        let s1 = isqrt(a1 * a1 + a4 * a4);
        proof {
            assert(s0 >= 1 && s1 >= 1) by (nonlinear_arith)
                requires
                    s0 * s0 <= a0 * a0 + a3 * a3,
                    (s0 + 1) * (s0 + 1) > a0 * a0 + a3 * a3,
                    s1 * s1 <= a1 * a1 + a4 * a4,
                    (s1 + 1) * (s1 + 1) > a1 * a1 + a4 * a4,
                    1 <= a0 * a0,
                    1 <= a1 * a1,
            ;
        }
        proof {
            assert((a1 as u128) * (s0 as u128) <= 0x8000_0000u128 * 0xFFFF_FFFFu128 && (
            a0 as u128) * (s1 as u128) <= 0x8000_0000u128 * 0xFFFF_FFFFu128 && 1 <= (a0 as u128) * (
            s1 as u128) && 1 <= (a1 as u128) * (s0 as u128)) by (nonlinear_arith)
                requires
                    1 <= a0 <= 0x8000_0000u64,
                    1 <= a1 <= 0x8000_0000u64,
                    1 <= s0 <= 0xFFFF_FFFFu64,
                    1 <= s1 <= 0xFFFF_FFFFu64,
            ;
            assert(45u128 * (0x8000_0000u128 * 0xFFFF_FFFFu128) < 0xFFFF_FFFF_FFFF_FFFF_FFFF_FFFF_FFFF_FFFFu128);
        }
        let t_num = (a1 as u128) * (s0 as u128);
        let t_den = (a0 as u128) * (s1 as u128);
        if cross_l < cross_r {
            let q = (45u128 * t_num) / t_den;
            if q > 44 {
                44
            } else {
                q as u32
            }
        } else {
            let q = (45u128 * t_den) / t_num;
            let d: u32 = if q == 0 {
                1
            } else if q > 44 {
                44
            } else {
                q as u32
            };
            90 - d
        }
    }
}

/// The rotation that a display matrix encodes, in whole degrees inside
/// `[-180, 180]`, or `None` when either derived column scale is zero.
///
/// The sign convention follows the side data: the result is the angle by
/// which the stored frame must be turned counterclockwise for display, so
/// a quarter turn stored as the column-swap pattern with `m1 > 0` comes
/// out as `-90`.  Axis-aligned and diagonal matrices (angles that are a
/// multiple of 45 degrees) are classified exactly by sign patterns and by
/// the comparison of `|m1 * m3|` with `|m0 * m4|`; between those angles
/// the result is a within-quadrant whole-degree approximation.
pub fn av_display_rotation_get(m: &DisplayMatrix) -> (r: Option<i32>)
    ensures
        r is None <==> ((m.m0 == 0 && m.m3 == 0) || (m.m1 == 0 && m.m4 == 0)),
        r matches Some(d) ==> -180 <= d <= 180,
        m.m1 == 0 && m.m4 != 0 && m.m0 > 0 ==> r == Some(0i32),
        m.m1 == 0 && m.m4 != 0 && m.m0 < 0 ==> r == Some(-180i32),
        m.m0 == 0 && m.m3 != 0 && m.m1 > 0 ==> r == Some(-90i32),
        m.m0 == 0 && m.m3 != 0 && m.m1 < 0 ==> r == Some(90i32),
        m.m0 == 0 && m.m3 != 0 && m.m1 == 0 && m.m4 != 0 ==> r == Some(0i32),
        m.m0 > 0 && m.m1 > 0 ==> (r matches Some(d) && -89 <= d <= 0),
        m.m0 > 0 && m.m1 < 0 ==> (r matches Some(d) && 0 <= d <= 89),
        m.m0 < 0 && m.m1 > 0 ==> (r matches Some(d) && -179 <= d <= -91),
        m.m0 < 0 && m.m1 < 0 ==> (r matches Some(d) && 91 <= d <= 179),
        m.m0 > 0 && m.m1 > 0 && iabs(m.m1 * m.m3) == iabs(m.m0 * m.m4) ==> r == Some(-45i32),
        m.m0 > 0 && m.m1 < 0 && iabs(m.m1 * m.m3) == iabs(m.m0 * m.m4) ==> r == Some(45i32),
        m.m0 < 0 && m.m1 > 0 && iabs(m.m1 * m.m3) == iabs(m.m0 * m.m4) ==> r == Some(-135i32),
        m.m0 < 0 && m.m1 < 0 && iabs(m.m1 * m.m3) == iabs(m.m0 * m.m4) ==> r == Some(135i32),
{
    if (m.m0 == 0 && m.m3 == 0) || (m.m1 == 0 && m.m4 == 0) {
        return None;
    }
    if m.m1 == 0 {
        // The normalized vector lies on the horizontal axis.
        if m.m0 > 0 {
            return Some(0);
        } else if m.m0 < 0 {
            return Some(-180);
        } else {
            return Some(0);
        }
    }
    if m.m0 == 0 {
        // The normalized vector lies on the vertical axis.
        if m.m1 > 0 {
            return Some(-90);
        } else {
            return Some(90);
        }
    }
    let a0 = abs_u64(m.m0);
    let a3 = abs_u64(m.m3);
    let a1 = abs_u64(m.m1);
    let a4 = abs_u64(m.m4);
    proof {
        assert(iabs(m.m1 as int * m.m3 as int) == iabs(m.m1 as int) * iabs(m.m3 as int) && iabs(
            m.m0 as int * m.m4 as int,
        ) == iabs(m.m0 as int) * iabs(m.m4 as int)) by (nonlinear_arith);
    }
    let phi = first_quadrant_deg(a0, a3, a1, a4);
    let phi_clamped: u32 = if phi == 0 {
        1
    } else {
        phi
    };
    if m.m0 > 0 && m.m1 > 0 {
        Some(-(phi as i32))
    } else if m.m0 > 0 {
        Some(phi as i32)
    } else if m.m1 > 0 {
        Some(-(180 - phi_clamped as i32))
    } else {
        Some(180 - phi_clamped as i32)
    }
}

/// Converts 36 bytes of display-matrix side data into the nine-cell matrix.
///
/// Succeeds exactly when at least 36 bytes are present; shorter input is
/// rejected with a conversion error whose message names the first four-byte
/// cell that does not fit.
pub fn parse_display_matrix(bytes: &[u8]) -> (r: Result<DisplayMatrix, VideoError>)
    ensures
        r is Ok <==> bytes@.len() >= 36,
        r matches Ok(m) ==> m == spec_parse_matrix(bytes@),
        r matches Err(e) ==> e.kind == ErrorKind::ConversionError,
{
    if bytes.len() < 36 {
        let cell = bytes.len() / 4;
        let lo = cell * 4;
        let hi = lo + 4;
        let mut message = String::from_str("display matrix side data ends before byte range ");
        message.append(decimal_string(lo as u64).as_str());
        message.append("..");
        message.append(decimal_string(hi as u64).as_str());
        return Err(VideoError::new(ErrorKind::ConversionError, message));
    }
    let m = DisplayMatrix {
        m0: to_fixed_point(read_le_i32(bytes, 0), 16),
        m1: to_fixed_point(read_le_i32(bytes, 4), 16),
        m2: to_fixed_point(read_le_i32(bytes, 8), 30),
        m3: to_fixed_point(read_le_i32(bytes, 12), 16),
        m4: to_fixed_point(read_le_i32(bytes, 16), 16),
        m5: to_fixed_point(read_le_i32(bytes, 20), 30),
        m6: to_fixed_point(read_le_i32(bytes, 24), 16),
        m7: to_fixed_point(read_le_i32(bytes, 28), 16),
        m8: to_fixed_point(read_le_i32(bytes, 32), 30),
    };
    Ok(m)
}

/// The homogeneous denominator of the remap at source pixel `(p, q)`.
pub open spec fn remap_z(t: DisplayMatrix, p: int, q: int) -> int {
    t.m2 * p + t.m5 * q + t.m8
}

/// The destination pixel index that source pixel `(p, q)` maps to, for a
/// destination row width of `dst_w` pixels.
pub open spec fn remap_di(t: DisplayMatrix, dst_w: int, p: int, q: int) -> int
    recommends
        remap_z(t, p, q) != 0,
{
    let z = remap_z(t, p, q);
    let dp = trunc_div(t.m0 * p + t.m3 * q + t.m6, z);
    let dq = trunc_div(t.m1 * p + t.m4 * q + t.m7, z);
    dp + dst_w * dq
}

/// The destination buffer after remapping source pixel `i` (the pixel at
/// `(i % src_w, i / src_w)`): its four bytes land at destination index
/// `remap_di` when that index is in bounds and the denominator is nonzero;
/// otherwise the pixel is dropped and the buffer is unchanged.
pub open spec fn rotate_pixel(
    dst: Seq<u8>,
    src: Seq<u8>,
    t: DisplayMatrix,
    src_w: int,
    dst_w: int,
    i: int,
) -> Seq<u8>
    recommends
        src_w >= 1,
        0 <= i,
        4 * i + 4 <= src.len(),
{
    let p = i % src_w;
    let q = i / src_w;
    if remap_z(t, p, q) == 0 {
        dst
    } else {
        let di = remap_di(t, dst_w, p, q);
        if 0 <= di && 4 * di + 4 <= dst.len() {
            dst.update(4 * di, src[4 * i]).update(4 * di + 1, src[4 * i + 1]).update(
                4 * di + 2,
                src[4 * i + 2],
            ).update(4 * di + 3, src[4 * i + 3])
        } else {
            dst
        }
    }
}

/// The destination buffer after remapping the first `n` source pixels in
/// order, starting from `dst0`.
pub open spec fn rotate_upto(
    dst0: Seq<u8>,
    src: Seq<u8>,
    t: DisplayMatrix,
    src_w: int,
    dst_w: int,
    n: nat,
) -> Seq<u8>
    decreases n,
{
    if n == 0 {
        dst0
    } else {
        rotate_pixel(
            rotate_upto(dst0, src, t, src_w, dst_w, (n - 1) as nat),
            src,
            t,
            src_w,
            dst_w,
            n - 1,
        )
    }
}

/// Remapping never changes the destination buffer's length.
pub proof fn lemma_rotate_upto_len(
    dst0: Seq<u8>,
    src: Seq<u8>,
    t: DisplayMatrix,
    src_w: int,
    dst_w: int,
    n: nat,
)
    ensures
        rotate_upto(dst0, src, t, src_w, dst_w, n).len() == dst0.len(),
    decreases n,
{
    if n > 0 {
        lemma_rotate_upto_len(dst0, src, t, src_w, dst_w, (n - 1) as nat);
    }
}

/// Under the zero-rotation matrix — identity 2x2 block, zero offsets and a
/// unit denominator — the remap is the identity map: after remapping the
/// first `n` source pixels into a buffer of the same size and row width,
/// every byte of the remapped region equals the source byte at the same
/// position, and every byte past it keeps its old value.
pub proof fn lemma_rotate_identity(dst0: Seq<u8>, src: Seq<u8>, t: DisplayMatrix, w: int, n: nat)
    requires
        t.m0 == 1,
        t.m1 == 0,
        t.m2 == 0,
        t.m3 == 0,
        t.m4 == 1,
        t.m5 == 0,
        t.m6 == 0,
        t.m7 == 0,
        t.m8 == 1,
        w >= 1,
        dst0.len() == src.len(),
        4 * n <= src.len(),
    ensures
        forall|j: int|
            0 <= j < dst0.len() ==> #[trigger] rotate_upto(dst0, src, t, w, w, n)[j] == if j < 4
                * n {
                src[j]
            } else {
                dst0[j]
            },
    decreases n,
{
    lemma_rotate_upto_len(dst0, src, t, w, w, n);
    if n > 0 {
        let i = n - 1;
        lemma_rotate_identity(dst0, src, t, w, (n - 1) as nat);
        lemma_rotate_upto_len(dst0, src, t, w, w, (n - 1) as nat);
        let prev = rotate_upto(dst0, src, t, w, w, (n - 1) as nat);
        let p = i % w;
        let q = i / w;
        lemma_fundamental_div_mod(i as int, w);
        lemma_mod_bound(i as int, w);
        assert(remap_z(t, p, q) == 1);
        lemma_div_basics(p);
        lemma_div_basics(q);
        assert(trunc_div(1 * p + 0 * q + 0, 1) == p);
        assert(trunc_div(0 * p + 1 * q + 0, 1) == q);
        assert(remap_di(t, w, p, q) == i);
    }
}

/// Truncating division never grows the magnitude.
pub proof fn lemma_trunc_div_bound(x: int, d: int)
    requires
        d != 0,
    ensures
        iabs(trunc_div(x, d)) <= iabs(x),
{
    if x != 0 {
        let a = iabs(x);
        let b = iabs(d);
        lemma_div_basics(a);
        lemma_div_pos_is_pos(a, b);
        lemma_div_is_ordered_by_denominator(a, 1, b);
    }
}

/// A product with an `i32`-sized factor is bounded by `2^31` times the
/// other, nonnegative, factor.
proof fn lemma_mul_abs_bound(a: int, x: int)
    requires
        iabs(a) <= 0x8000_0000,
        x >= 0,
    ensures
        iabs(a * x) <= 0x8000_0000 * x,
{
    assert(iabs(a * x) <= 0x8000_0000 * x) by (nonlinear_arith)
        requires
            iabs(a) <= 0x8000_0000,
            x >= 0,
    ;
}

/// Computes the destination pixel index for source pixel `(p, q)`, or
/// `None` when the homogeneous denominator is zero there.
#[verifier::rlimit(50)]
fn remap_index(transform: &DisplayMatrix, p: usize, q: usize, dst_width: usize) -> (r: Option<
    i128,
>)
    requires
        p < 0x1_0000_0000,
        q < 0x4000_0000_0000_0000,
        dst_width <= 0x1_0000_0000,
    ensures
        r is None <==> remap_z(*transform, p as int, q as int) == 0,
        r matches Some(di) ==> di == remap_di(*transform, dst_width as int, p as int, q as int),
{
    proof {
        lemma_mul_abs_bound(transform.m0 as int, p as int);
        lemma_mul_abs_bound(transform.m1 as int, p as int);
        lemma_mul_abs_bound(transform.m2 as int, p as int);
        lemma_mul_abs_bound(transform.m3 as int, q as int);
        lemma_mul_abs_bound(transform.m4 as int, q as int);
        lemma_mul_abs_bound(transform.m5 as int, q as int);
    }
    let pc: i128 = p as i128;
    let qc: i128 = q as i128;
    let z: i128 = (transform.m2 as i128) * pc + (transform.m5 as i128) * qc + (
    transform.m8 as i128);
    if z == 0 {
        return None;
    }
    let num_p: i128 = (transform.m0 as i128) * pc + (transform.m3 as i128) * qc + (
    transform.m6 as i128);
    let num_q: i128 = (transform.m1 as i128) * pc + (transform.m4 as i128) * qc + (
    transform.m7 as i128);
    proof {
        lemma_trunc_div_bound(num_p as int, z as int);
        lemma_trunc_div_bound(num_q as int, z as int);
    }
    let dp: i128 = match num_p.checked_div(z) {
        Some(v) => v,
        None => {
            proof {
                assert(false);
            }
            0
        },
    };
    let dq: i128 = match num_q.checked_div(z) {
        Some(v) => v,
        None => {
            proof {
                assert(false);
            }
            0
        },
    };
    proof {
        assert(dp as int == trunc_div(num_p as int, z as int));
        assert(dq as int == trunc_div(num_q as int, z as int));
        assert(iabs((dst_width as int) * (dq as int)) <= 0x1_0000_0000 * iabs(dq as int))
            by (nonlinear_arith)
            requires
                0 <= (dst_width as int) <= 0x1_0000_0000,
        ;
    }
    Some(dp + (dst_width as i128) * dq)
}

/// Remaps every pixel of `src_frame` into `dst_frame` through the given
/// display matrix: for each source pixel index `i`, in increasing order,
/// the four bytes of the pixel are copied to destination pixel index
/// `remap_di`, skipping pixels whose denominator is zero or whose target
/// lies outside the destination buffer.
#[verifier::rlimit(50)]
pub fn rotate_frame(src_frame: &PixelFrame, dst_frame: &mut PixelFrame, transform: &DisplayMatrix)
    requires
        src_frame.width >= 1,
    ensures
        final(dst_frame).width == old(dst_frame).width,
        final(dst_frame).height == old(dst_frame).height,
        final(dst_frame).stride == old(dst_frame).stride,
        final(dst_frame).data@ == rotate_upto(
            old(dst_frame).data@,
            src_frame.data@,
            *transform,
            src_frame.width as int,
            old(dst_frame).width as int,
            (src_frame.data@.len() / 4) as nat,
        ),
{
    let src_width: usize = src_frame.width as usize;
    let dst_width: usize = dst_frame.width as usize;
    let src_len: usize = src_frame.data.len();
    let dst_len: usize = dst_frame.data.len();
    let px_area: usize = src_len / 4;
    let mut i: usize = 0;
    while i < px_area
        invariant
            i <= px_area,
            src_width == src_frame.width,
            src_width >= 1,
            px_area == src_frame.data@.len() / 4,
            src_len == src_frame.data@.len(),
            dst_width == old(dst_frame).width,
            dst_frame.width == old(dst_frame).width,
            dst_frame.height == old(dst_frame).height,
            dst_frame.stride == old(dst_frame).stride,
            dst_len == dst_frame.data@.len(),
            dst_frame.data@ == rotate_upto(
                old(dst_frame).data@,
                src_frame.data@,
                *transform,
                src_frame.width as int,
                old(dst_frame).width as int,
                i as nat,
            ),
        decreases px_area - i,
    {
        let p: usize = i % src_width;
        let q: usize = i / src_width;
        proof {
            lemma_mod_bound(i as int, src_width as int);
            assert(q <= i) by (nonlinear_arith)
                requires
                    q == i as int / src_width as int,
                    src_width >= 1,
                    i >= 0,
            ;
            assert(4 * (i as int) + 4 <= src_len) by {
                lemma_fundamental_div_mod(src_len as int, 4);
                lemma_mod_bound(src_len as int, 4);
            }
            assert(px_area <= usize::MAX as int / 4);
        }
        match remap_index(transform, p, q, dst_width) {
            None => {
            },
            Some(di_i) => {
                let max_di: usize = (usize::MAX - 4) / 4;
                if 0 <= di_i && di_i <= max_di as i128 {
                    let di: usize = di_i as usize;
                    proof {
                        lemma_fundamental_div_mod(usize::MAX as int - 4, 4);
                        lemma_mod_bound(usize::MAX as int - 4, 4);
                    }
                    if 4 * di + 4 <= dst_len {
                        let b0 = src_frame.data[4 * i];
                        let b1 = src_frame.data[4 * i + 1];
                        let b2 = src_frame.data[4 * i + 2];
                        let b3 = src_frame.data[4 * i + 3];
                        dst_frame.data.set(4 * di, b0);
                        dst_frame.data.set(4 * di + 1, b1);
                        dst_frame.data.set(4 * di + 2, b2);
                        dst_frame.data.set(4 * di + 3, b3);
                    }
                } else {
                    proof {
                        if 0 <= di_i {
                            lemma_fundamental_div_mod(usize::MAX as int - 4, 4);
                            lemma_mod_bound(usize::MAX as int - 4, 4);
                            assert(4 * (di_i as int) + 4 > usize::MAX);
                        }
                    }
                }
            },
        }
        proof {
            assert(dst_frame.data@ == rotate_pixel(
                rotate_upto(
                    old(dst_frame).data@,
                    src_frame.data@,
                    *transform,
                    src_frame.width as int,
                    old(dst_frame).width as int,
                    i as nat,
                ),
                src_frame.data@,
                *transform,
                src_frame.width as int,
                old(dst_frame).width as int,
                i as int,
            ));
        }
        i = i + 1;
    }
}

} // verus!

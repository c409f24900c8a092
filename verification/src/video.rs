//! Per-frame transforms applied after decoding and scaling.
//!
//! Once the caller has decoded a frame and converted it to RGBA at the
//! planned size, the remaining geometry work is pure: repair the row
//! stride, refresh the display matrix's dimension cells, and remap the
//! pixels into a fresh canvas whose dimensions swap under a quarter turn.

use vstd::prelude::*;

use crate::frame::{repaired_data, zero_bytes, PixelFrame};
use crate::frame::fix_img_data;
use crate::math::{rotate_upto, DisplayMatrix};
use crate::math::rotate_frame;
use crate::math::lemma_rotate_upto_len;

verus! {

/// The query parameters of an atlas request.
#[derive(Clone, Copy, Debug, PartialEq, Eq, Structural)]
pub struct AtlasRequest {
    /// The requested sampling step in seconds, if any.
    pub seek: Option<u32>,
}

impl AtlasRequest {
    /// The sampling step to use: the requested one, or zero when the
    /// request carries none.
    pub fn step_seconds(&self) -> (s: u32)
        ensures
            s == (match self.seek {
                Some(v) => v,
                None => 0u32,
            }),
    {
        match self.seek {
            Some(v) => v,
            None => 0,
        }
    }
}

/// Whether a whole-degree rotation is a quarter turn, which swaps a
/// frame's display dimensions.
pub open spec fn is_quarter_turn(rotation: int) -> bool {
    rotation == 90 || rotation == -90
}

/// The destination canvas dimensions for a rotated frame: equal to the
/// source dimensions, with width and height swapped under a quarter turn.
pub fn rotated_dims(rotation: i32, width: u32, height: u32) -> (dims: (u32, u32))
    ensures
        is_quarter_turn(rotation as int) ==> dims == (height, width),
        !is_quarter_turn(rotation as int) ==> dims == (width, height),
{
    if rotation == 90 || rotation == -90 {
        (height, width)
    } else {
        (width, height)
    }
}

/// The display matrix with its dimension cells refreshed: cells 6 and 7
/// carry the frame's width and height from capture time and go stale after
/// scaling, so a nonzero cell is rewritten to the new dimension minus one.
pub open spec fn fixed_matrix(t: DisplayMatrix, dst_w: int, dst_h: int) -> DisplayMatrix
    recommends
        1 <= dst_w <= 0x7FFF_FFFF,
        1 <= dst_h <= 0x7FFF_FFFF,
{
    DisplayMatrix {
        m6: if t.m6 != 0 {
            (dst_w - 1) as i32
        } else {
            t.m6
        },
        m7: if t.m7 != 0 {
            (dst_h - 1) as i32
        } else {
            t.m7
        },
        ..t
    }
}

/// Rewrites the matrix's dimension cells for a destination canvas of
/// `dst_w x dst_h`, leaving zero cells and all other cells unchanged.
pub fn fix_matrix_dims(t: &mut DisplayMatrix, dst_w: u32, dst_h: u32)
    requires
        1 <= dst_w <= 0x7FFF_FFFF,
        1 <= dst_h <= 0x7FFF_FFFF,
    ensures
        *final(t) == fixed_matrix(*old(t), dst_w as int, dst_h as int),
{
    if t.m6 != 0 {
        t.m6 = (dst_w as i32) - 1;
    }
    if t.m7 != 0 {
        t.m7 = (dst_h as i32) - 1;
    }
}

/// Applies the post-decode geometry pipeline to a scaled RGBA frame:
/// stride repair always; then, when a display matrix is present, the
/// dimension-cell rewrite and the pixel remap into a fresh canvas whose
/// dimensions swap under a quarter turn.  Without a matrix the repaired
/// frame itself is the result.
pub fn transform_frame(frame: PixelFrame, matrix: Option<DisplayMatrix>, rotation: i32) -> (out:
    PixelFrame)
    requires
        frame.wf(),
        1 <= frame.width <= 0x7FFF_FFFF,
        1 <= frame.height <= 0x7FFF_FFFF,
        4 * frame.width * frame.height <= usize::MAX,
    ensures
        out.wf(),
        matrix is None ==> {
            &&& out.width == frame.width
            &&& out.height == frame.height
            &&& out.stride == 4 * frame.width
            &&& out.data@ == repaired_data(frame)
        },
        matrix matches Some(t) ==> {
            let dw = if is_quarter_turn(rotation as int) {
                frame.height as int
            } else {
                frame.width as int
            };
            let dh = if is_quarter_turn(rotation as int) {
                frame.width as int
            } else {
                frame.height as int
            };
            &&& out.width == dw
            &&& out.height == dh
            &&& out.stride == 4 * dw
            &&& out.data@.len() == 4 * dw * dh
            &&& out.data@ == rotate_upto(
                zero_bytes((4 * dw * dh) as nat),
                repaired_data(frame),
                fixed_matrix(t, dw, dh),
                frame.width as int,
                dw,
                (frame.data@.len() / 4) as nat,
            )
        },
{
    let mut work = frame;
    fix_img_data(&mut work);
    match matrix {
        None => work,
        Some(t0) => {
            proof {
                let w = frame.width as int;
                let h = frame.height as int;
                assert(4 * w <= 4 * w * h && 4 * h <= 4 * w * h && 4 * h * w == 4 * w * h)
                    by (nonlinear_arith)
                    requires
                        w >= 1,
                        h >= 1,
                ;
            }
            let mut t = t0;
            let (dw, dh) = rotated_dims(rotation, work.width, work.height);
            fix_matrix_dims(&mut t, dw, dh);
            let mut dst = PixelFrame::blank_rgba(dw, dh);
            rotate_frame(&work, &mut dst, &t);
            proof {
                lemma_rotate_upto_len(
                    zero_bytes((4 * dw * dh) as nat),
                    work.data@,
                    t,
                    work.width as int,
                    dw as int,
                    (work.data@.len() / 4) as nat,
                );
                let w = dw as int;
                let h = dh as int;
                assert((4 * w) * h <= 4 * w * h) by (nonlinear_arith);
            }
            dst
        },
    }
}

} // verus!

//! Scale planning: choosing the scaler's target dimensions.
//!
//! The planner preserves the source aspect ratio, anticipating that a
//! pending quarter-turn rotation will swap the frame's dimensions: for a
//! rotated frame the pre-rotation target must already have the inverted
//! aspect.  An optional maximum height clamps the result proportionally.

use vstd::prelude::*;
use vstd::arithmetic::div_mod::{lemma_div_nonincreasing, lemma_div_multiples_vanish};

verus! {

/// The width the caller asked for, with `0` meaning the source width.
pub open spec fn effective_width(frame_width: int, src_w: int) -> int {
    if frame_width == 0 {
        src_w
    } else {
        frame_width
    }
}

/// The planned scaler target `(width, height)`.
///
/// With a pending quarter turn and a width differing from the source, the
/// aspect is inverted (`width` derived from the requested width by the
/// source aspect, plus a rounding guard of one) so that the rotation will
/// swap the dimensions back.  Otherwise the height follows from the
/// requested width by the source aspect.  A supplied maximum height that
/// the planned height exceeds rescales both dimensions proportionally.
pub open spec fn spec_plan_scale(
    src_w: int,
    src_h: int,
    frame_width: int,
    rotation: int,
    max_height: Option<u32>,
) -> (int, int)
    recommends
        src_w >= 1,
        src_h >= 1,
{
    let fw = effective_width(frame_width, src_w);
    if fw != src_w && (rotation == 90 || rotation == -90) {
        let w0 = fw * src_w / src_h + 1;
        let h0 = fw;
        match max_height {
            Some(mh) => if h0 > mh {
                (mh as int, mh * h0 / w0)
            } else {
                (w0, h0)
            },
            None => (w0, h0),
        }
    } else {
        let w0 = fw;
        let h0 = fw * src_h / src_w;
        match max_height {
            Some(mh) => if h0 > mh {
                (mh * w0 / h0, mh as int)
            } else {
                (w0, h0)
            },
            None => (w0, h0),
        }
    }
}

/// Plans the scaler's target dimensions for a source of `src_w x src_h`,
/// a requested width (`0` meaning the source width), the rotation that
/// will follow, and an optional maximum height.
///
/// With a requested width of zero and no height cap, the source
/// dimensions come back unchanged.
pub fn plan_scale(
    src_w: u32,
    src_h: u32,
    frame_width: u32,
    rotation: i32,
    max_height: Option<u32>,
) -> (dims: (u32, u32))
    requires
        src_w >= 1,
        src_h >= 1,
        effective_width(frame_width as int, src_w as int) * src_w < u32::MAX,
        effective_width(frame_width as int, src_w as int) * src_h <= u32::MAX,
        max_height matches Some(mh) ==> mh * effective_width(frame_width as int, src_w as int)
            <= u32::MAX,
    ensures
        (dims.0 as int, dims.1 as int) == spec_plan_scale(
            src_w as int,
            src_h as int,
            frame_width as int,
            rotation as int,
            max_height,
        ),
        frame_width == 0 && max_height is None ==> dims == (src_w, src_h),
{
    let fw: u32 = if frame_width == 0 {
        src_w
    } else {
        frame_width
    };
    proof {
        lemma_div_nonincreasing((fw * src_w) as int, src_h as int);
        lemma_div_nonincreasing((fw * src_h) as int, src_w as int);
        lemma_div_multiples_vanish(src_h as int, src_w as int);
        assert(src_w as int * src_h as int == fw as int * src_h as int || fw != src_w);
    }
    if fw != src_w && (rotation == 90 || rotation == -90) {
        let w0: u32 = fw * src_w / src_h + 1;
        let h0: u32 = fw;
        match max_height {
            Some(mh) => {
                if h0 > mh {
                    let clamped_h: u32 = mh * h0 / w0;
                    proof {
                        lemma_div_nonincreasing((mh * h0) as int, w0 as int);
                    }
                    (mh, clamped_h)
                } else {
                    (w0, h0)
                }
            },
            None => (w0, h0),
        }
    } else {
        let w0: u32 = fw;
        let h0: u32 = fw * src_h / src_w;
        match max_height {
            Some(mh) => {
                if h0 > mh {
                    let clamped_w: u32 = mh * w0 / h0;
                    proof {
                        lemma_div_nonincreasing((mh * w0) as int, h0 as int);
                    }
                    (clamped_w, mh)
                } else {
                    (w0, h0)
                }
            },
            None => (w0, h0),
        }
    }
}

} // verus!

//! Raw pixel frames and stride repair.
//!
//! A decoded frame's rows may be padded to an aligned row stride larger
//! than the visible `width * 4` bytes.  Stride repair rewrites the buffer
//! so that the pixel rows sit tightly packed at its front, leaving any
//! bytes past the packed region untouched.

use vstd::prelude::*;
use vstd::arithmetic::div_mod::{
    lemma_fundamental_div_mod,
    lemma_multiply_divide_lt,
    lemma_mod_bound,
};

verus! {

/// A sequence of `n` zero bytes: the content of a freshly allocated frame.
pub open spec fn zero_bytes(n: nat) -> Seq<u8> {
    Seq::new(n, |i: int| 0u8)
}

/// The buffer of `f` after stride repair: the first `width * 4 * height`
/// bytes hold the visible rows tightly packed, the rest keep their old
/// values.
pub open spec fn repaired_data(f: PixelFrame) -> Seq<u8> {
    Seq::new(
        f.data@.len(),
        |j: int|
            if j < 4 * f.width * f.height {
                f.data@[(j / (4 * f.width as int)) * f.stride + j % (4 * f.width as int)]
            } else {
                f.data@[j]
            },
    )
}

/// A raw RGBA frame: dimensions, row stride in bytes, and the byte buffer.
pub struct PixelFrame {
    pub width: u32,
    pub height: u32,
    /// Bytes from the start of one row to the start of the next.
    pub stride: usize,
    pub data: Vec<u8>,
}

impl PixelFrame {
    /// The buffer holds every row: four bytes per visible pixel, rows
    /// `stride` bytes apart.
    pub open spec fn wf(self) -> bool {
        &&& 4 * self.width <= self.stride
        &&& self.stride * self.height <= self.data@.len()
    }

    /// A tightly packed all-zero RGBA frame.
    pub fn blank_rgba(width: u32, height: u32) -> (f: PixelFrame)
        requires
            4 * width <= usize::MAX,
            4 * width * height <= usize::MAX,
        ensures
            f.wf(),
            f.width == width,
            f.height == height,
            f.stride == 4 * width,
            f.data@ == zero_bytes((4 * width * height) as nat),
    {
        proof {
            let w = width as int;
            let h = height as int;
            assert(h >= 1 ==> 4 * w <= 4 * w * h) by (nonlinear_arith)
                requires
                    w >= 0,
                    h >= 0,
            ;
            assert((4 * w) * h == 4 * w * h) by (nonlinear_arith);
        }
        let byte_width: usize = 4 * (width as usize);
        let total: usize = byte_width * (height as usize);
        let mut data: Vec<u8> = Vec::new();
        let mut i: usize = 0;
        while i < total
            invariant
                i <= total,
                data@.len() == i,
                forall|j: int| 0 <= j < i ==> data@[j] == 0u8,
            decreases total - i,
        {
            data.push(0u8);
            i = i + 1;
        }
        proof {
            assert(data@ =~= zero_bytes((4 * width * height) as nat));
        }
        PixelFrame { width, height, stride: byte_width, data }
    }
}

/// Copies the first `width * 4` bytes of each of `height` rows, laid out
/// `stride` bytes apart in `data`, into a tightly packed buffer.
///
/// The output length is exactly `width * 4 * height`, whatever the input
/// stride was; byte `k` of the output comes from row `k / (4 * width)`,
/// column `k % (4 * width)` of the padded input.
pub fn pack_rows(data: &Vec<u8>, width: u32, height: u32, stride: usize) -> (out: Vec<u8>)
    requires
        4 * width <= stride,
        stride * height <= data@.len(),
    ensures
        out@.len() == 4 * width * height,
        forall|k: int|
            0 <= k < out@.len() ==> #[trigger] out@[k] == data@[(k / (4 * width as int)) * stride
                + k % (4 * width as int)],
{
    proof {
        let w = width as int;
        let h = height as int;
        let s = stride as int;
        assert((4 * w) * h == 4 * w * h) by (nonlinear_arith);
        assert(4 * w * h <= s * h) by (nonlinear_arith)
            requires
                4 * w <= s,
                0 <= h,
        ;
    }
    let data_len = data.len();
    let byte_width: usize = 4 * (width as usize);
    let total: usize = byte_width * (height as usize);
    let mut out: Vec<u8> = Vec::new();
    let mut i: usize = 0;
    while i < total
        invariant
            byte_width == 4 * width,
            total == 4 * width * height,
            4 * width <= stride,
            stride * height <= data@.len(),
            data@.len() == data_len,
            i <= total,
            out@.len() == i,
            forall|k: int|
                0 <= k < i ==> #[trigger] out@[k] == data@[(k / (4 * width as int)) * stride + k % (
                4 * width as int)],
        decreases total - i,
    {
        let r = i / byte_width;
        let c = i % byte_width;
        proof {
            let w4 = byte_width as int;
            let h = height as int;
            let s = stride as int;
            lemma_multiply_divide_lt(i as int, w4, h);
            lemma_mod_bound(i as int, w4);
            lemma_fundamental_div_mod(i as int, w4);
            assert((i as int) / w4 * s + (i as int) % w4 < s * h) by (nonlinear_arith)
                requires
                    (i as int) / w4 < h,
                    (i as int) % w4 < w4,
                    w4 <= s,
                    0 <= (i as int) / w4,
                    0 <= (i as int) % w4,
                    0 < s,
            ;
        }
        let b = data[r * stride + c];
        out.push(b);
        i = i + 1;
    }
    out
}

/// Repairs a frame whose rows are padded: afterwards the pixel rows sit
/// tightly packed at the front of the buffer (stride becomes `width * 4`),
/// and every byte at or past the packed region keeps its old value.
pub fn fix_img_data(frame: &mut PixelFrame)
    requires
        old(frame).wf(),
    ensures
        final(frame).wf(),
        final(frame).width == old(frame).width,
        final(frame).height == old(frame).height,
        final(frame).stride == 4 * old(frame).width,
        final(frame).data@.len() == old(frame).data@.len(),
        final(frame).data@ == repaired_data(*old(frame)),
{
    proof {
        let w = old(frame).width as int;
        let h = old(frame).height as int;
        let s = old(frame).stride as int;
        assert(4 * w * h <= s * h) by (nonlinear_arith)
            requires
                4 * w <= s,
                0 <= h,
        ;
    }
    let mut buf = pack_rows(&frame.data, frame.width, frame.height, frame.stride);
    let len = frame.data.len();
    let mut j: usize = buf.len();
    while j < len
        invariant
            buf@.len() == j,
            4 * old(frame).width * old(frame).height <= j <= len,
            len == frame.data@.len(),
            *frame == *old(frame),
            forall|k: int|
                0 <= k < 4 * old(frame).width * old(frame).height ==> #[trigger] buf@[k] == old(
                    frame,
                ).data@[(k / (4 * old(frame).width as int)) * old(frame).stride + k % (4 * old(
                    frame,
                ).width as int)],
            forall|k: int|
                4 * old(frame).width * old(frame).height <= k < j ==> #[trigger] buf@[k] == old(
                    frame,
                ).data@[k],
        decreases len - j,
    {
        let b = frame.data[j];
        buf.push(b);
        j = j + 1;
    }
    let byte_width: usize = 4 * (frame.width as usize);
    frame.data = buf;
    frame.stride = byte_width;
    proof {
        let w = frame.width as int;
        let h = frame.height as int;
        let s = frame.stride as int;
        let n = frame.data@.len() as int;
        assert(s * h <= n) by (nonlinear_arith)
            requires
                s == 4 * w,
                n >= 4 * w * h,
        ;
        assert(frame.data@ =~= repaired_data(*old(frame)));
    }
}

} // verus!

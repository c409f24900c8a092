//! Atlas composition: arranging sampled frames on a fixed tile grid.
//!
//! An atlas page holds up to 100 tiles of 80 x 45 pixels on a grid of at
//! most 10 columns and 10 rows.  Each sampled frame is copied into its
//! tile, centered when it is smaller than the tile, with a bounds check
//! on every pixel.

use vstd::prelude::*;
use vstd::arithmetic::div_mod::{
    lemma_div_is_ordered,
    lemma_div_plus_one,
    lemma_div_nonincreasing,
    lemma_div_pos_is_pos,
    lemma_fundamental_div_mod,
    lemma_mod_bound,
    lemma_multiply_divide_lt,
    lemma_small_mod,
};

use crate::frame::{zero_bytes, PixelFrame};

verus! {

/// Tile width in pixels.
pub const ATLAS_TILE_WIDTH: u32 = 80;

/// Tile height in pixels.
pub const ATLAS_TILE_HEIGHT: u32 = 45;

/// Greatest number of tile columns on a page.
pub const MAX_ATLAS_COLS: u32 = 10;

/// Greatest number of tile rows on a page.
pub const MAX_ATLAS_ROWS: u32 = 10;

/// Greatest number of tiles on a page.
pub const MAX_ATLAS_TILES: u32 = 100;

/// The clip length in whole seconds that tiles are drawn from, clamped to
/// zero for an empty or unknown duration.
pub open spec fn clamped_duration_secs(duration_ms: int) -> int {
    if duration_ms <= 0 {
        0
    } else if duration_ms > u32::MAX {
        (u32::MAX as int) / 1000
    } else {
        duration_ms / 1000
    }
}

/// The number of sampled frames the clip offers at the given step,
/// rounded up to a step boundary.
pub open spec fn frame_cap(duration_ms: int, step: int) -> int
    recommends
        step >= 1,
{
    let max_frames = clamped_duration_secs(duration_ms) / step;
    if max_frames % step == 0 {
        max_frames
    } else {
        max_frames + (step - max_frames % step)
    }
}

/// How many tiles page `page` holds: the part of the frame range
/// `[page * 100, (page + 1) * 100)` that the clip's frame cap covers.
pub open spec fn spec_tile_count(duration_ms: int, page: int, step: int) -> int
    recommends
        step >= 1,
{
    let start = page * 100;
    let cap = frame_cap(duration_ms, step);
    let end = if (page + 1) * 100 <= cap {
        (page + 1) * 100
    } else {
        cap
    };
    if end >= start {
        end - start
    } else {
        0
    }
}

/// Computes how many tiles the requested atlas page holds, given the
/// clip duration in milliseconds and the sampling step in seconds.
/// The result never exceeds one page's 100 tiles, and a clip whose
/// duration is not positive yields none.
pub fn atlas_tile_count(duration_ms: i64, page: u32, step_seconds: u32) -> (tc: u32)
    requires
        step_seconds >= 1,
    ensures
        tc == spec_tile_count(duration_ms as int, page as int, step_seconds as int),
        tc <= 100,
        duration_ms <= 0 ==> tc == 0,
{
    let dur_secs: u64 = if duration_ms <= 0 {
        0
    } else if duration_ms > u32::MAX as i64 {
        (u32::MAX / 1000) as u64
    } else {
        (duration_ms as u64) / 1000
    };
    let max_frames: u64 = dur_secs / (step_seconds as u64);
    let modulo: u64 = max_frames % (step_seconds as u64);
    let cap: u64 = if modulo == 0 {
        max_frames
    } else {
        max_frames + ((step_seconds as u64) - modulo)
    };
    let start: u64 = (page as u64) * 100;
    let page_end: u64 = start + 100;
    let end: u64 = if page_end <= cap {
        page_end
    } else {
        cap
    };
    if end >= start {
        (end - start) as u32
    } else {
        0
    }
}

/// The column count of an atlas canvas: the tile count, at most 10.
pub open spec fn atlas_cols(tile_count: int) -> int {
    if tile_count <= 10 {
        tile_count
    } else {
        10
    }
}

/// The row count of an atlas canvas: the tile count divided by 10 and
/// rounded up, at most 10.
pub open spec fn atlas_rows(tile_count: int) -> int {
    let rows = (tile_count + 9) / 10;
    if rows <= 10 {
        rows
    } else {
        10
    }
}

/// Computes the canvas dimensions in pixels for a page of `tile_count`
/// tiles: 80 pixels per column and 45 per row, with at most 10 columns
/// and the row count equal to `tile_count / 10` rounded up, capped at 10.
pub fn atlas_canvas_dims(tile_count: u32) -> (dims: (u32, u32))
    requires
        1 <= tile_count <= 100,
    ensures
        dims.0 == 80 * atlas_cols(tile_count as int),
        dims.1 == 45 * atlas_rows(tile_count as int),
        80 <= dims.0 <= 800,
        45 <= dims.1 <= 450,
{
    let cols: u32 = if tile_count <= 10 {
        tile_count
    } else {
        10
    };
    let rows_raw: u32 = (tile_count + 9) / 10;
    let rows: u32 = if rows_raw <= 10 {
        rows_raw
    } else {
        10
    };
    (80 * cols, 45 * rows)
}

/// The horizontal pixel offset of tile `pos`'s content: 80 pixels per
/// grid column, plus centering when the frame is narrower than a tile.
pub open spec fn tile_x_offset(fw: int, pos: int) -> int {
    (pos % 10) * 80 + if fw >= 80 {
        0
    } else {
        (80 - fw) / 2
    }
}

/// The vertical pixel offset of tile `pos`'s content: 45 pixels per grid
/// row, plus centering when the frame is shorter than a tile.
pub open spec fn tile_y_offset(fh: int, pos: int) -> int {
    (pos / 10) * 45 + if fh >= 45 {
        0
    } else {
        (45 - fh) / 2
    }
}

/// The canvas after copying pixel `i` of a frame (the pixel at
/// `(i % fw, i / fw)`): its four bytes land at canvas position
/// `(x_off + i % fw, y_off + i / fw)` when that lies inside the
/// `cw x ch` canvas, and are dropped otherwise.
pub open spec fn blit_pixel(
    canvas: Seq<u8>,
    fdata: Seq<u8>,
    fw: int,
    cw: int,
    ch: int,
    x_off: int,
    y_off: int,
    i: int,
) -> Seq<u8>
    recommends
        fw >= 1,
        0 <= i,
        4 * i + 4 <= fdata.len(),
        canvas.len() == 4 * cw * ch,
        x_off >= 0,
        y_off >= 0,
{
    let dx = x_off + i % fw;
    let dy = y_off + i / fw;
    let di = 4 * (dx + cw * dy);
    if 0 <= dx && dx < cw && 0 <= dy && dy < ch && 0 <= di && di + 4 <= canvas.len() {
        canvas.update(di, fdata[4 * i]).update(di + 1, fdata[4 * i + 1]).update(
            di + 2,
            fdata[4 * i + 2],
        ).update(di + 3, fdata[4 * i + 3])
    } else {
        canvas
    }
}

/// The canvas after copying the first `n` pixels of a frame in order.
pub open spec fn blit_upto(
    canvas0: Seq<u8>,
    fdata: Seq<u8>,
    fw: int,
    cw: int,
    ch: int,
    x_off: int,
    y_off: int,
    n: nat,
) -> Seq<u8>
    decreases n,
{
    if n == 0 {
        canvas0
    } else {
        blit_pixel(
            blit_upto(canvas0, fdata, fw, cw, ch, x_off, y_off, (n - 1) as nat),
            fdata,
            fw,
            cw,
            ch,
            x_off,
            y_off,
            n - 1,
        )
    }
}

/// Copying pixels never changes the canvas length.
pub proof fn lemma_blit_upto_len(
    canvas0: Seq<u8>,
    fdata: Seq<u8>,
    fw: int,
    cw: int,
    ch: int,
    x_off: int,
    y_off: int,
    n: nat,
)
    ensures
        blit_upto(canvas0, fdata, fw, cw, ch, x_off, y_off, n).len() == canvas0.len(),
    decreases n,
{
    if n > 0 {
        lemma_blit_upto_len(canvas0, fdata, fw, cw, ch, x_off, y_off, (n - 1) as nat);
    }
}

/// Copying pixels touches nothing outside the written positions, and
/// when the frame fits inside the canvas at its offset, every one of its
/// first `n` pixels is afterwards found at its own canvas position:
/// pixel `i` of the frame, at `(i % fw, i / fw)`, occupies the four
/// canvas bytes at `(x_off + i % fw, y_off + i / fw)`.
pub proof fn lemma_blit_places_pixels(
    canvas0: Seq<u8>,
    fdata: Seq<u8>,
    fw: int,
    fh: int,
    cw: int,
    ch: int,
    x_off: int,
    y_off: int,
    n: nat,
    i: int,
)
    requires
        fw >= 1,
        fh >= 0,
        canvas0.len() == 4 * cw * ch,
        0 <= x_off,
        0 <= y_off,
        x_off + fw <= cw,
        y_off + fh <= ch,
        n <= fw * fh,
        4 * n <= fdata.len(),
        0 <= i < n,
    ensures
        ({
            let di = 4 * ((x_off + i % fw) + cw * (y_off + i / fw));
            let out = blit_upto(canvas0, fdata, fw, cw, ch, x_off, y_off, n);
            &&& out[di] == fdata[4 * i]
            &&& out[di + 1] == fdata[4 * i + 1]
            &&& out[di + 2] == fdata[4 * i + 2]
            &&& out[di + 3] == fdata[4 * i + 3]
        }),
    decreases n,
{
    let prev = blit_upto(canvas0, fdata, fw, cw, ch, x_off, y_off, (n - 1) as nat);
    lemma_blit_upto_len(canvas0, fdata, fw, cw, ch, x_off, y_off, (n - 1) as nat);
    let j = n - 1;
    let xj = j % fw;
    let yj = j / fw;
    lemma_mod_bound(j, fw);
    lemma_multiply_divide_lt(j, fw, fh);
    lemma_fundamental_div_mod(j, fw);
    let dxj = x_off + xj;
    let dyj = y_off + yj;
    let dj = 4 * (dxj + cw * dyj);
    assert(dxj + cw * dyj < cw * ch && 0 <= dxj + cw * dyj && 4 * (dxj + cw * dyj) + 4 <= 4 * cw
        * ch) by (nonlinear_arith)
        requires
            0 <= dxj < cw,
            0 <= dyj < ch,
    ;
    assert(blit_upto(canvas0, fdata, fw, cw, ch, x_off, y_off, n) == blit_pixel(
        prev,
        fdata,
        fw,
        cw,
        ch,
        x_off,
        y_off,
        j,
    ));
    let out = blit_upto(canvas0, fdata, fw, cw, ch, x_off, y_off, n);
    assert(out == prev.update(dj, fdata[4 * j]).update(dj + 1, fdata[4 * j + 1]).update(
        dj + 2,
        fdata[4 * j + 2],
    ).update(dj + 3, fdata[4 * j + 3]));
    if i == j {
        assert(out[dj] == fdata[4 * j]);
        assert(out[dj + 1] == fdata[4 * j + 1]);
        assert(out[dj + 2] == fdata[4 * j + 2]);
        assert(out[dj + 3] == fdata[4 * j + 3]);
    } else {
        lemma_blit_places_pixels(canvas0, fdata, fw, fh, cw, ch, x_off, y_off, (n - 1) as nat, i);
        let xi = i % fw;
        let yi = i / fw;
        lemma_mod_bound(i, fw);
        lemma_multiply_divide_lt(i, fw, fh);
        lemma_fundamental_div_mod(i, fw);
        let dxi = x_off + xi;
        let dyi = y_off + yi;
        let di = 4 * (dxi + cw * dyi);
        assert(xi != xj || yi != yj) by (nonlinear_arith)
            requires
                i == fw * yi + xi,
                j == fw * yj + xj,
                i != j,
        ;
        assert(dxi + cw * dyi != dxj + cw * dyj) by (nonlinear_arith)
            requires
                0 <= dxi < cw,
                0 <= dxj < cw,
                dxi != dxj || dyi != dyj,
        ;
        assert(dxi + cw * dyi < cw * ch && 0 <= dxi + cw * dyi && 4 * (dxi + cw * dyi) + 4 <= 4
            * cw * ch) by (nonlinear_arith)
            requires
                0 <= dxi < cw,
                0 <= dyi < ch,
        ;
        assert(di + 3 < dj || dj + 3 < di);
        assert(out[di] == fdata[4 * i] && out[di + 1] == fdata[4 * i + 1] && out[di + 2] == fdata[4
            * i + 2] && out[di + 3] == fdata[4 * i + 3]);
    }
}

/// Copying the pixels of one frame leaves every canvas pixel outside the
/// frame's target rectangle untouched.
pub proof fn lemma_blit_preserves_outside(
    canvas0: Seq<u8>,
    fdata: Seq<u8>,
    fw: int,
    fh: int,
    cw: int,
    ch: int,
    x_off: int,
    y_off: int,
    n: nat,
    px: int,
    py: int,
)
    requires
        fw >= 1,
        canvas0.len() == 4 * cw * ch,
        n <= fw * fh,
        0 <= px < cw,
        0 <= py < ch,
        px < x_off || px >= x_off + fw || py < y_off || py >= y_off + fh,
    ensures
        ({
            let out = blit_upto(canvas0, fdata, fw, cw, ch, x_off, y_off, n);
            let base = 4 * (px + cw * py);
            &&& out[base] == canvas0[base]
            &&& out[base + 1] == canvas0[base + 1]
            &&& out[base + 2] == canvas0[base + 2]
            &&& out[base + 3] == canvas0[base + 3]
        }),
    decreases n,
{
    if n > 0 {
        lemma_blit_preserves_outside(
            canvas0,
            fdata,
            fw,
            fh,
            cw,
            ch,
            x_off,
            y_off,
            (n - 1) as nat,
            px,
            py,
        );
        let prev = blit_upto(canvas0, fdata, fw, cw, ch, x_off, y_off, (n - 1) as nat);
        lemma_blit_upto_len(canvas0, fdata, fw, cw, ch, x_off, y_off, (n - 1) as nat);
        let j = n - 1;
        let xj = j % fw;
        let yj = j / fw;
        lemma_mod_bound(j, fw);
        lemma_multiply_divide_lt(j, fw, fh);
        let dxj = x_off + xj;
        let dyj = y_off + yj;
        let dj = 4 * (dxj + cw * dyj);
        let base = 4 * (px + cw * py);
        assert(px + cw * py < cw * ch && 0 <= px + cw * py && 4 * (px + cw * py) + 4 <= 4 * cw
            * ch) by (nonlinear_arith)
            requires
                0 <= px < cw,
                0 <= py < ch,
        ;
        let out = blit_upto(canvas0, fdata, fw, cw, ch, x_off, y_off, n);
        assert(out == blit_pixel(prev, fdata, fw, cw, ch, x_off, y_off, j));
        if 0 <= dxj && dxj < cw && 0 <= dyj && dyj < ch && 0 <= dj && dj + 4 <= prev.len() {
            assert(px != dxj || py != dyj);
            assert(px + cw * py != dxj + cw * dyj) by (nonlinear_arith)
                requires
                    0 <= px < cw,
                    0 <= dxj < cw,
                    px != dxj || py != dyj,
            ;
            assert(base + 3 < dj || dj + 3 < base);
            let s1 = prev.update(dj, fdata[4 * j]);
            let s2 = s1.update(dj + 1, fdata[4 * j + 1]);
            let s3 = s2.update(dj + 2, fdata[4 * j + 2]);
            let s4 = s3.update(dj + 3, fdata[4 * j + 3]);
            assert(out == s4);
            assert(s1[base] == prev[base] && s1[base + 1] == prev[base + 1] && s1[base + 2]
                == prev[base + 2] && s1[base + 3] == prev[base + 3]);
            assert(s2[base] == s1[base] && s2[base + 1] == s1[base + 1] && s2[base + 2] == s1[base
                + 2] && s2[base + 3] == s1[base + 3]);
            assert(s3[base] == s2[base] && s3[base + 1] == s2[base + 1] && s3[base + 2] == s2[base
                + 2] && s3[base + 3] == s2[base + 3]);
            assert(s4[base] == s3[base] && s4[base + 1] == s3[base + 1] && s4[base + 2] == s3[base
                + 2] && s4[base + 3] == s3[base + 3]);
        } else {
            assert(out == prev);
        }
    }
}

/// Placing frames never changes the canvas length.
pub proof fn lemma_compose_upto_len(frames: Seq<PixelFrame>, cw: int, ch: int, n: nat)
    requires
        cw >= 0,
        ch >= 0,
    ensures
        compose_upto(frames, cw, ch, n).len() == 4 * cw * ch,
    decreases n,
{
    if n == 0 {
    } else {
        lemma_compose_upto_len(frames, cw, ch, (n - 1) as nat);
        let f = frames[n - 1];
        lemma_blit_upto_len(
            compose_upto(frames, cw, ch, (n - 1) as nat),
            f.data@,
            f.width as int,
            cw,
            ch,
            tile_x_offset(f.width as int, n - 1),
            tile_y_offset(f.height as int, n - 1),
            (f.width * f.height) as nat,
        );
    }
}

/// In a finished composition, every tile shows its own frame: when each
/// of the first `n` frames fits its 80 x 45 tile and the canvas covers
/// every tile rectangle, pixel `i` of frame `k` is found at its centered
/// position inside tile `k`.
pub proof fn lemma_compose_places_tiles(
    frames: Seq<PixelFrame>,
    cw: int,
    ch: int,
    n: nat,
    k: int,
    i: int,
)
    requires
        forall|j: int|
            0 <= j < n ==> {
                let f = #[trigger] frames[j];
                &&& 1 <= f.width <= 80
                &&& 1 <= f.height <= 45
                &&& 4 * f.width * f.height <= f.data@.len()
            },
        cw >= 80 * (if n <= 10 {
            n as int
        } else {
            10
        }),
        ch >= 45 * ((n - 1) / 10 + 1),
        0 <= k < n,
        0 <= i < frames[k].width * frames[k].height,
    ensures
        ({
            let f = frames[k];
            let fw = f.width as int;
            let x_off = tile_x_offset(fw, k);
            let y_off = tile_y_offset(f.height as int, k);
            let di = 4 * ((x_off + i % fw) + cw * (y_off + i / fw));
            let out = compose_upto(frames, cw, ch, n);
            &&& out[di] == f.data@[4 * i]
            &&& out[di + 1] == f.data@[4 * i + 1]
            &&& out[di + 2] == f.data@[4 * i + 2]
            &&& out[di + 3] == f.data@[4 * i + 3]
        }),
    decreases n,
{
    let j = n - 1;
    let fj = frames[j];
    let fwj = fj.width as int;
    let fhj = fj.height as int;
    let xoj = tile_x_offset(fwj, j);
    let yoj = tile_y_offset(fhj, j);
    let prev = compose_upto(frames, cw, ch, (n - 1) as nat);
    lemma_compose_upto_len(frames, cw, ch, (n - 1) as nat);
    lemma_tile_offset_bounds(fwj, fhj, j);
    lemma_tile_in_canvas(cw, ch, n as int, j);
    lemma_tile_in_canvas(cw, ch, n as int, k);
    let f = frames[k];
    let fw = f.width as int;
    let fh = f.height as int;
    let x_off = tile_x_offset(fw, k);
    let y_off = tile_y_offset(fh, k);
    lemma_tile_offset_bounds(fw, fh, k);
    let xi = i % fw;
    let yi = i / fw;
    lemma_mod_bound(i, fw);
    lemma_multiply_divide_lt(i, fw, fh);
    let px = x_off + xi;
    let py = y_off + yi;
    assert(4 * (fw * fh) == 4 * fw * fh) by (nonlinear_arith);
    assert(4 * (fwj * fhj) == 4 * fwj * fhj) by (nonlinear_arith);
    if k == j {
        lemma_blit_places_pixels(
            prev,
            f.data@,
            fw,
            fh,
            cw,
            ch,
            x_off,
            y_off,
            (fw * fh) as nat,
            i,
        );
    } else {
        lemma_canvas_covers_fewer(cw, ch, n as int);
        lemma_compose_places_tiles(frames, cw, ch, (n - 1) as nat, k, i);
        // The target pixel lies inside tile `k`, and tile `j` occupies a
        // different grid cell, so the final frame's writes stay clear.
        lemma_fundamental_div_mod(k, 10);
        lemma_fundamental_div_mod(j, 10);
        assert(k % 10 != j % 10 || k / 10 != j / 10);
        if k % 10 < j % 10 {
            assert(px < xoj);
        } else if k % 10 > j % 10 {
            assert(px >= xoj + fwj);
        } else if k / 10 < j / 10 {
            assert(py < yoj);
        } else {
            assert(py >= yoj + fhj);
        }
        lemma_blit_preserves_outside(
            prev,
            fj.data@,
            fwj,
            fhj,
            cw,
            ch,
            xoj,
            yoj,
            (fwj * fhj) as nat,
            px,
            py,
        );
    }
}

/// In a composed atlas page, every tile shows its own frame: with at
/// most `tile_count` frames, each fitting its 80 x 45 tile, pixel `i` of
/// frame `k` is found at its centered position inside tile `k` of the
/// canvas whose dimensions `atlas_canvas_dims` computes for `tile_count`.
pub proof fn lemma_atlas_tiles(frames: Seq<PixelFrame>, tile_count: int, k: int, i: int)
    requires
        1 <= tile_count <= 100,
        frames.len() <= tile_count,
        forall|j: int|
            0 <= j < frames.len() ==> {
                let f = #[trigger] frames[j];
                &&& 1 <= f.width <= 80
                &&& 1 <= f.height <= 45
                &&& 4 * f.width * f.height <= f.data@.len()
            },
        0 <= k < frames.len(),
        0 <= i < frames[k].width * frames[k].height,
    ensures
        ({
            let cw = 80 * atlas_cols(tile_count);
            let ch = 45 * atlas_rows(tile_count);
            let f = frames[k];
            let fw = f.width as int;
            let x_off = tile_x_offset(fw, k);
            let y_off = tile_y_offset(f.height as int, k);
            let di = 4 * ((x_off + i % fw) + cw * (y_off + i / fw));
            let out = compose_upto(frames, cw, ch, frames.len());
            &&& out[di] == f.data@[4 * i]
            &&& out[di + 1] == f.data@[4 * i + 1]
            &&& out[di + 2] == f.data@[4 * i + 2]
            &&& out[di + 3] == f.data@[4 * i + 3]
        }),
{
    let n = frames.len() as int;
    let cw = 80 * atlas_cols(tile_count);
    let ch = 45 * atlas_rows(tile_count);
    assert((tile_count + 9) / 10 <= 10) by {
        lemma_div_is_ordered(tile_count + 9, 109, 10);
    }
    assert(ch == 45 * ((tile_count + 9) / 10));
    lemma_div_plus_one(n - 1, 10);
    lemma_div_is_ordered(n + 9, tile_count + 9, 10);
    assert(ch >= 45 * ((n - 1) / 10 + 1));
    lemma_compose_places_tiles(frames, cw, ch, frames.len(), k, i);
}

/// A canvas that covers `n` tiles covers tile `j`'s grid rectangle for
/// every `j` below `n`.
proof fn lemma_tile_in_canvas(cw: int, ch: int, n: int, j: int)
    requires
        0 <= j < n,
        cw >= 80 * (if n <= 10 {
            n
        } else {
            10
        }),
        ch >= 45 * ((n - 1) / 10 + 1),
    ensures
        (j % 10) * 80 + 80 <= cw,
        (j / 10) * 45 + 45 <= ch,
{
    lemma_mod_bound(j, 10);
    if n <= 10 {
        lemma_small_mod(j as nat, 10);
    }
    lemma_div_is_ordered(j, n - 1, 10);
    lemma_div_pos_is_pos(j, 10);
}

/// A canvas that covers `n` tiles also covers `n - 1` of them.
proof fn lemma_canvas_covers_fewer(cw: int, ch: int, n: int)
    requires
        n >= 1,
        cw >= 80 * (if n <= 10 {
            n
        } else {
            10
        }),
        ch >= 45 * ((n - 1) / 10 + 1),
    ensures
        cw >= 80 * (if n - 1 <= 10 {
            n - 1
        } else {
            10
        }),
        ch >= 45 * ((n - 2) / 10 + 1),
    decreases n,
{
    lemma_div_is_ordered(n - 2, n - 1, 10);
}

/// A frame that fits a tile sits, with its centering offsets, inside the
/// tile's grid rectangle.
proof fn lemma_tile_offset_bounds(fw: int, fh: int, pos: int)
    requires
        1 <= fw <= 80,
        1 <= fh <= 45,
        0 <= pos,
    ensures
        (pos % 10) * 80 <= tile_x_offset(fw, pos),
        tile_x_offset(fw, pos) + fw <= (pos % 10) * 80 + 80,
        (pos / 10) * 45 <= tile_y_offset(fh, pos),
        tile_y_offset(fh, pos) + fh <= (pos / 10) * 45 + 45,
{
    lemma_mod_bound(pos, 10);
    lemma_div_pos_is_pos(pos, 10);
    if fw < 80 {
        assert((80 - fw) / 2 <= 80 - fw) by {
            lemma_div_nonincreasing(80 - fw, 2);
        }
        assert((80 - fw) / 2 >= 0) by {
            lemma_div_pos_is_pos(80 - fw, 2);
        }
    }
    if fh < 45 {
        assert((45 - fh) / 2 <= 45 - fh) by {
            lemma_div_nonincreasing(45 - fh, 2);
        }
        assert((45 - fh) / 2 >= 0) by {
            lemma_div_pos_is_pos(45 - fh, 2);
        }
    }
}

/// Copies every pixel of `frame` into the `cw x ch` canvas at tile
/// position `pos`, centering the frame inside its 80 x 45 tile and
/// dropping any pixel that would fall outside the canvas.
pub fn blit_frame(canvas: &mut Vec<u8>, frame: &PixelFrame, cw: u32, ch: u32, pos: usize)
    requires
        frame.wf(),
        frame.width >= 1,
        old(canvas)@.len() == 4 * cw * ch,
        cw <= 800,
        ch <= 450,
        pos < 100,
    ensures
        final(canvas)@ == blit_upto(
            old(canvas)@,
            frame.data@,
            frame.width as int,
            cw as int,
            ch as int,
            tile_x_offset(frame.width as int, pos as int),
            tile_y_offset(frame.height as int, pos as int),
            (frame.width * frame.height) as nat,
        ),
        final(canvas)@.len() == old(canvas)@.len(),
{
    let fw: u64 = frame.width as u64;
    let fh: u64 = frame.height as u64;
    let bw_off: u64 = if frame.width >= 80 {
        0
    } else {
        ((80 - frame.width) / 2) as u64
    };
    let bh_off: u64 = if frame.height >= 45 {
        0
    } else {
        ((45 - frame.height) / 2) as u64
    };
    let x_off: u64 = ((pos % 10) as u64) * 80 + bw_off;
    let y_off: u64 = ((pos / 10) as u64) * 45 + bh_off;
    let frame_len: usize = frame.data.len();
    proof {
        assert(4 * (fw * fh) <= frame_len) by (nonlinear_arith)
            requires
                4 * fw <= frame.stride,
                frame.stride * fh <= frame_len,
                fw >= 0,
                fh >= 0,
                frame.stride >= 0,
        ;
    }
    let area: u64 = fw * fh;
    let mut i: u64 = 0;
    while i < area
        invariant
            fw == frame.width,
            fh == frame.height,
            fw >= 1,
            area == fw * fh,
            4 * area <= frame_len,
            frame_len == frame.data@.len(),
            x_off == tile_x_offset(frame.width as int, pos as int),
            y_off == tile_y_offset(frame.height as int, pos as int),
            x_off <= 760,
            y_off <= 427,
            cw <= 800,
            ch <= 450,
            i <= area,
            canvas@.len() == 4 * cw * ch,
            canvas@ == blit_upto(
                old(canvas)@,
                frame.data@,
                frame.width as int,
                cw as int,
                ch as int,
                tile_x_offset(frame.width as int, pos as int),
                tile_y_offset(frame.height as int, pos as int),
                i as nat,
            ),
        decreases area - i,
    {
        let x: u64 = i % fw;
        let y: u64 = i / fw;
        proof {
            lemma_mod_bound(i as int, fw as int);
            lemma_multiply_divide_lt(i as int, fw as int, fh as int);
        }
        let dx: u64 = x_off + x;
        let dy: u64 = y_off + y;
        if dx < cw as u64 && dy < ch as u64 {
            proof {
                assert(dx + (cw as u64) * dy < (cw as u64) * (ch as u64) && (cw as u64) * (
                ch as u64) <= 360000) by (nonlinear_arith)
                    requires
                        dx < cw as u64,
                        dy < ch as u64,
                        0 <= dx,
                        0 <= dy,
                        0 < cw as u64,
                        cw as u64 <= 800,
                        ch as u64 <= 450,
                ;
                assert(4 * ((cw as u64) * (ch as u64)) == 4 * cw * ch) by (nonlinear_arith);
            }
            let di: u64 = 4 * (dx + (cw as u64) * dy);
            let di_us: usize = di as usize;
            let si: usize = (4 * i) as usize;
            let b0 = frame.data[si];
            let b1 = frame.data[si + 1];
            let b2 = frame.data[si + 2];
            let b3 = frame.data[si + 3];
            canvas.set(di_us, b0);
            canvas.set(di_us + 1, b1);
            canvas.set(di_us + 2, b2);
            canvas.set(di_us + 3, b3);
        }
        proof {
            assert(canvas@ == blit_pixel(
                blit_upto(
                    old(canvas)@,
                    frame.data@,
                    frame.width as int,
                    cw as int,
                    ch as int,
                    tile_x_offset(frame.width as int, pos as int),
                    tile_y_offset(frame.height as int, pos as int),
                    i as nat,
                ),
                frame.data@,
                frame.width as int,
                cw as int,
                ch as int,
                tile_x_offset(frame.width as int, pos as int),
                tile_y_offset(frame.height as int, pos as int),
                i as int,
            ));
        }
        i = i + 1;
    }
}

/// The canvas after placing the first `n` frames onto their tiles, in
/// order, starting from an all-zero canvas of `4 * cw * ch` bytes.
pub open spec fn compose_upto(frames: Seq<PixelFrame>, cw: int, ch: int, n: nat) -> Seq<u8>
    decreases n,
{
    if n == 0 {
        zero_bytes((4 * cw * ch) as nat)
    } else {
        let f = frames[n - 1];
        blit_upto(
            compose_upto(frames, cw, ch, (n - 1) as nat),
            f.data@,
            f.width as int,
            cw,
            ch,
            tile_x_offset(f.width as int, n - 1),
            tile_y_offset(f.height as int, n - 1),
            (f.width * f.height) as nat,
        )
    }
}

/// Arranges the sampled frames on the atlas grid for a page of
/// `tile_count` tiles.  A page with no tiles yields exactly one blank
/// 80 x 45 canvas; otherwise the canvas is 80 pixels wide per column and
/// 45 tall per row, and every frame is copied onto its tile in order.
pub fn compose_atlas(frames: &Vec<PixelFrame>, tile_count: u32) -> (canvas: PixelFrame)
    requires
        tile_count <= 100,
        frames@.len() <= 100,
        forall|k: int|
            0 <= k < frames@.len() ==> (#[trigger] frames@[k]).wf() && frames@[k].width >= 1,
    ensures
        canvas.wf(),
        canvas.stride == 4 * canvas.width,
        tile_count == 0 ==> canvas.width == 80 && canvas.height == 45 && canvas.data@ == zero_bytes(
            (4 * 80 * 45) as nat,
        ),
        tile_count >= 1 ==> {
            &&& canvas.width == 80 * atlas_cols(tile_count as int)
            &&& canvas.height == 45 * atlas_rows(tile_count as int)
            &&& canvas.data@ == compose_upto(
                frames@,
                canvas.width as int,
                canvas.height as int,
                frames@.len() as nat,
            )
        },
{
    if tile_count == 0 {
        return PixelFrame::blank_rgba(80, 45);
    }
    let (cw, ch) = atlas_canvas_dims(tile_count);
    proof {
        assert(4 * (cw as int) * (ch as int) <= 4 * 800 * 450) by (nonlinear_arith)
            requires
                cw <= 800,
                ch <= 450,
                0 <= cw,
                0 <= ch,
        ;
    }
    let mut canvas = PixelFrame::blank_rgba(cw, ch);
    let mut k: usize = 0;
    while k < frames.len()
        invariant
            frames@.len() <= 100,
            forall|j: int|
                0 <= j < frames@.len() ==> (#[trigger] frames@[j]).wf() && frames@[j].width >= 1,
            k <= frames@.len(),
            cw <= 800,
            ch <= 450,
            canvas.width == cw,
            canvas.height == ch,
            canvas.stride == 4 * cw,
            canvas.data@.len() == 4 * cw * ch,
            canvas.data@ == compose_upto(frames@, cw as int, ch as int, k as nat),
        decreases frames@.len() - k,
    {
        let f: &PixelFrame = &frames[k];
        blit_frame(&mut canvas.data, f, cw, ch, k);
        k = k + 1;
    }
    proof {
        assert(canvas.stride * canvas.height <= canvas.data@.len()) by (nonlinear_arith)
            requires
                canvas.stride == 4 * canvas.width,
                canvas.data@.len() == 4 * canvas.width * canvas.height,
        ;
    }
    canvas
}

} // verus!

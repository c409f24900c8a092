use vidthumb::atlas::{atlas_canvas_dims, atlas_tile_count, compose_atlas};
use vidthumb::frame::PixelFrame;

#[test]
fn tile_count_for_ten_second_clip() {
    // Ten seconds sampled every second: exactly ten tiles on page zero.
    assert_eq!(atlas_tile_count(10_000, 0, 1), 10);
}

#[test]
fn tile_count_zero_for_empty_or_negative_duration() {
    assert_eq!(atlas_tile_count(0, 0, 1), 0);
    assert_eq!(atlas_tile_count(-5_000, 0, 1), 0);
}

#[test]
fn tile_count_zero_past_the_last_page() {
    assert_eq!(atlas_tile_count(10_000, 1, 1), 0);
}

#[test]
fn tile_count_rounds_up_to_step_boundary() {
    // 1000 seconds at step 7: 142 frames, rounded up to 147, capped at 100.
    assert_eq!(atlas_tile_count(1_000_000, 0, 7), 100);
    // Page one gets the remaining 47.
    assert_eq!(atlas_tile_count(1_000_000, 1, 7), 47);
    // 35 seconds at step 7 gives 5 frames, rounded up to the boundary 7.
    assert_eq!(atlas_tile_count(35_000, 0, 7), 7);
    // 49 seconds at step 7 gives exactly 7 frames; nothing is added.
    assert_eq!(atlas_tile_count(49_000, 0, 7), 7);
}

#[test]
fn canvas_dims_follow_grid() {
    // One tile row of ten: 800 wide, 45 tall.
    assert_eq!(atlas_canvas_dims(10), (800, 45));
    // Eleven tiles need a second row.
    assert_eq!(atlas_canvas_dims(11), (800, 90));
    assert_eq!(atlas_canvas_dims(1), (80, 45));
    assert_eq!(atlas_canvas_dims(100), (800, 450));
}

#[test]
fn empty_atlas_is_one_blank_tile() {
    let frames: Vec<PixelFrame> = Vec::new();
    let canvas = compose_atlas(&frames, 0);
    assert_eq!(canvas.width, 80);
    assert_eq!(canvas.height, 45);
    assert_eq!(canvas.data.len(), 4 * 80 * 45);
    assert!(canvas.data.iter().all(|&b| b == 0));
}

#[test]
fn single_frame_is_centered_in_its_tile() {
    let data: Vec<u8> = (1u8..=16).collect();
    let frame = PixelFrame { width: 2, height: 2, stride: 8, data };
    let canvas = compose_atlas(&vec![frame], 1);
    assert_eq!(canvas.width, 80);
    assert_eq!(canvas.height, 45);
    // Letterbox offsets: (80 - 2) / 2 = 39 and (45 - 2) / 2 = 21.
    let di = 4 * (39 + 80 * 21);
    assert_eq!(&canvas.data[di..di + 8], &[1, 2, 3, 4, 5, 6, 7, 8]);
    let di2 = 4 * (39 + 80 * 22);
    assert_eq!(&canvas.data[di2..di2 + 8], &[9, 10, 11, 12, 13, 14, 15, 16]);
    // Away from the tile content the canvas stays blank.
    assert_eq!(&canvas.data[0..4], &[0, 0, 0, 0]);
}

#[test]
fn second_frame_lands_on_second_tile() {
    let a = PixelFrame { width: 1, height: 1, stride: 4, data: vec![1, 1, 1, 1] };
    let b = PixelFrame { width: 1, height: 1, stride: 4, data: vec![2, 2, 2, 2] };
    let canvas = compose_atlas(&vec![a, b], 2);
    assert_eq!(canvas.width, 160);
    assert_eq!(canvas.height, 45);
    // Tile 0 centers at (39, 22); tile 1 at (80 + 39, 22).
    let di_a = 4 * (39 + 160 * 22);
    let di_b = 4 * (80 + 39 + 160 * 22);
    assert_eq!(&canvas.data[di_a..di_a + 4], &[1, 1, 1, 1]);
    assert_eq!(&canvas.data[di_b..di_b + 4], &[2, 2, 2, 2]);
}

#[test]
fn oversized_frame_pixels_are_clipped() {
    // A frame wider than its tile: pixels falling outside the canvas are
    // dropped rather than wrapped or panicking.
    let frame = PixelFrame { width: 200, height: 1, stride: 800, data: vec![7u8; 800] };
    let canvas = compose_atlas(&vec![frame], 1);
    assert_eq!(canvas.width, 80);
    assert_eq!(canvas.height, 45);
    // Row 22 of the canvas is filled up to its width.
    let row = 4 * (80 * 22);
    assert!(canvas.data[row..row + 4 * 80].iter().all(|&v| v == 7));
    // The next row is untouched.
    let next = 4 * (80 * 23);
    assert!(canvas.data[next..next + 4 * 80].iter().all(|&v| v == 0));
}

use vidthumb::error::ErrorKind;
use vidthumb::frame::PixelFrame;
use vidthumb::math::{av_display_rotation_get, isqrt, parse_display_matrix, rotate_frame,
    to_fixed_point, DisplayMatrix};
use vidthumb::video::transform_frame;

fn matrix_bytes(cells: [i32; 9]) -> Vec<u8> {
    let mut bytes = Vec::new();
    for c in cells.iter() {
        bytes.extend_from_slice(&c.to_le_bytes());
    }
    bytes
}

fn plain_matrix(m0: i32, m1: i32, m3: i32, m4: i32) -> DisplayMatrix {
    DisplayMatrix { m0, m1, m2: 0, m3, m4, m5: 0, m6: 0, m7: 0, m8: 1 }
}

#[test]
fn parse_identity_matrix() {
    let bytes = matrix_bytes([65536, 0, 0, 0, 65536, 0, 0, 0, 1 << 30]);
    let m = parse_display_matrix(&bytes).unwrap();
    assert_eq!(m, DisplayMatrix { m0: 1, m1: 0, m2: 0, m3: 0, m4: 1, m5: 0, m6: 0, m7: 0, m8: 1 });
}

#[test]
fn parse_truncates_toward_zero() {
    // -65537 / 2^16 truncates to -1, -65535 / 2^16 truncates to 0.
    let bytes = matrix_bytes([-65537, -65535, 0, 65535, 131072, 0, 0, 0, -(1 << 30)]);
    let m = parse_display_matrix(&bytes).unwrap();
    assert_eq!(m.m0, -1);
    assert_eq!(m.m1, 0);
    assert_eq!(m.m3, 0);
    assert_eq!(m.m4, 2);
    assert_eq!(m.m8, -1);
}

#[test]
fn parse_rejects_short_input() {
    let bytes = vec![0u8; 35];
    let err = parse_display_matrix(&bytes).unwrap_err();
    assert_eq!(err.kind, ErrorKind::ConversionError);
    assert!(err.message().contains("32..36"));
}

#[test]
fn parse_rejects_empty_input() {
    let err = parse_display_matrix(&[]).unwrap_err();
    assert_eq!(err.kind, ErrorKind::ConversionError);
    assert!(err.message().contains("0..4"));
}

#[test]
fn fixed_point_conversions() {
    assert_eq!(to_fixed_point(65536, 16), 1);
    assert_eq!(to_fixed_point(-65537, 16), -1);
    assert_eq!(to_fixed_point(-1, 16), 0);
    assert_eq!(to_fixed_point(100, 0), 100);
    assert_eq!(to_fixed_point(i32::MIN, 16), -32768);
    assert_eq!(to_fixed_point(1 << 30, 30), 1);
}

#[test]
fn rotation_zero_for_orthogonal_diagonal() {
    // Scaled unit columns on the diagonal encode no rotation.
    assert_eq!(av_display_rotation_get(&plain_matrix(1, 0, 0, 1)), Some(0));
    assert_eq!(av_display_rotation_get(&plain_matrix(3, 0, 0, 7)), Some(0));
}

#[test]
fn rotation_quarter_turn_for_column_swap() {
    // The column-swap pattern of a quarter turn.
    assert_eq!(av_display_rotation_get(&plain_matrix(0, 1, -1, 0)), Some(-90));
    assert_eq!(av_display_rotation_get(&plain_matrix(0, -1, 1, 0)), Some(90));
}

#[test]
fn rotation_half_turn() {
    assert_eq!(av_display_rotation_get(&plain_matrix(-1, 0, 0, -1)), Some(-180));
}

#[test]
fn rotation_none_for_singular_matrix() {
    assert_eq!(av_display_rotation_get(&plain_matrix(0, 0, 0, 0)), None);
    assert_eq!(av_display_rotation_get(&plain_matrix(0, 1, 0, 1)), None);
    assert_eq!(av_display_rotation_get(&plain_matrix(1, 0, 1, 0)), None);
}

#[test]
fn rotation_diagonal_angles() {
    assert_eq!(av_display_rotation_get(&plain_matrix(1, 1, -1, 1)), Some(-45));
    assert_eq!(av_display_rotation_get(&plain_matrix(1, -1, 1, 1)), Some(45));
    assert_eq!(av_display_rotation_get(&plain_matrix(-1, 1, -1, -1)), Some(-135));
    assert_eq!(av_display_rotation_get(&plain_matrix(-1, -1, 1, -1)), Some(135));
}

#[test]
fn isqrt_values() {
    assert_eq!(isqrt(0), 0);
    assert_eq!(isqrt(15), 3);
    assert_eq!(isqrt(16), 4);
    assert_eq!(isqrt(u64::MAX), 0xFFFF_FFFF);
}

#[test]
fn rotate_identity_copies_pixels() {
    // 2x2 RGBA frame, tightly packed.
    let data: Vec<u8> = (0u8..16).collect();
    let src = PixelFrame { width: 2, height: 2, stride: 8, data: data.clone() };
    let mut dst = PixelFrame { width: 2, height: 2, stride: 8, data: vec![0u8; 16] };
    let identity = DisplayMatrix { m0: 1, m1: 0, m2: 0, m3: 0, m4: 1, m5: 0, m6: 0, m7: 0, m8: 1 };
    rotate_frame(&src, &mut dst, &identity);
    assert_eq!(dst.data, data);
}

#[test]
fn rotate_horizontal_flip() {
    // dp = (-p + 1) / 1 mirrors a two-pixel row.
    let data: Vec<u8> = (0u8..8).collect();
    let src = PixelFrame { width: 2, height: 1, stride: 8, data };
    let mut dst = PixelFrame { width: 2, height: 1, stride: 8, data: vec![0u8; 8] };
    let flip = DisplayMatrix { m0: -1, m1: 0, m2: 0, m3: 0, m4: 1, m5: 0, m6: 1, m7: 0, m8: 1 };
    rotate_frame(&src, &mut dst, &flip);
    assert_eq!(dst.data, vec![4, 5, 6, 7, 0, 1, 2, 3]);
}

#[test]
fn rotate_drops_out_of_bounds_pixels() {
    // Every pixel maps far outside the destination and is dropped.
    let src = PixelFrame { width: 1, height: 1, stride: 4, data: vec![9, 9, 9, 9] };
    let mut dst = PixelFrame { width: 1, height: 1, stride: 4, data: vec![1, 2, 3, 4] };
    let away = DisplayMatrix { m0: 1, m1: 0, m2: 0, m3: 0, m4: 1, m5: 0, m6: 1000, m7: 0, m8: 1 };
    rotate_frame(&src, &mut dst, &away);
    assert_eq!(dst.data, vec![1, 2, 3, 4]);
}

#[test]
fn transform_without_matrix_repairs_stride() {
    // Rows padded to stride 12; repair packs them and keeps the tail.
    let data: Vec<u8> = (0u8..24).collect();
    let frame = PixelFrame { width: 2, height: 2, stride: 12, data };
    let out = transform_frame(frame, None, 0);
    assert_eq!(out.width, 2);
    assert_eq!(out.height, 2);
    assert_eq!(out.stride, 8);
    let expected: Vec<u8> = vec![
        0, 1, 2, 3, 4, 5, 6, 7, 12, 13, 14, 15, 16, 17, 18, 19, 16, 17, 18, 19, 20, 21, 22, 23,
    ];
    assert_eq!(out.data, expected);
}

#[test]
fn transform_with_identity_matrix_keeps_pixels() {
    let data: Vec<u8> = (0u8..16).collect();
    let frame = PixelFrame { width: 2, height: 2, stride: 8, data: data.clone() };
    let identity = DisplayMatrix { m0: 1, m1: 0, m2: 0, m3: 0, m4: 1, m5: 0, m6: 0, m7: 0, m8: 1 };
    let out = transform_frame(frame, Some(identity), 0);
    assert_eq!(out.width, 2);
    assert_eq!(out.height, 2);
    assert_eq!(out.data, data);
}

#[test]
fn transform_quarter_turn_swaps_dimensions() {
    let frame = PixelFrame { width: 4, height: 2, stride: 16, data: vec![0u8; 32] };
    let identity = DisplayMatrix { m0: 1, m1: 0, m2: 0, m3: 0, m4: 1, m5: 0, m6: 0, m7: 0, m8: 1 };
    let out = transform_frame(frame, Some(identity), 90);
    assert_eq!(out.width, 2);
    assert_eq!(out.height, 4);
    assert_eq!(out.data.len(), 32);
}

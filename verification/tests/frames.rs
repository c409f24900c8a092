use vidthumb::frame::{fix_img_data, pack_rows, PixelFrame};

#[test]
fn pack_rows_output_length_is_packed_size() {
    // Whatever the stride, the packed buffer is width * 4 * height bytes.
    let data: Vec<u8> = (0u8..48).collect();
    let out = pack_rows(&data, 2, 2, 12);
    assert_eq!(out.len(), 16);
    let out = pack_rows(&data, 2, 2, 8);
    assert_eq!(out.len(), 16);
    let out = pack_rows(&data, 1, 3, 16);
    assert_eq!(out.len(), 12);
}

#[test]
fn pack_rows_copies_row_prefixes() {
    let data: Vec<u8> = (0u8..24).collect();
    let out = pack_rows(&data, 2, 2, 12);
    assert_eq!(out, vec![0, 1, 2, 3, 4, 5, 6, 7, 12, 13, 14, 15, 16, 17, 18, 19]);
}

#[test]
fn pack_rows_identity_on_tight_stride() {
    let data: Vec<u8> = (0u8..16).collect();
    let out = pack_rows(&data, 2, 2, 8);
    assert_eq!(out, data);
}

#[test]
fn fix_img_data_packs_and_preserves_tail() {
    let data: Vec<u8> = (0u8..24).collect();
    let mut frame = PixelFrame { width: 2, height: 2, stride: 12, data };
    fix_img_data(&mut frame);
    assert_eq!(frame.stride, 8);
    assert_eq!(frame.data.len(), 24);
    assert_eq!(
        frame.data,
        vec![0, 1, 2, 3, 4, 5, 6, 7, 12, 13, 14, 15, 16, 17, 18, 19, 16, 17, 18, 19, 20, 21, 22, 23]
    );
}

#[test]
fn fix_img_data_keeps_tight_frames() {
    let data: Vec<u8> = (0u8..16).collect();
    let mut frame = PixelFrame { width: 2, height: 2, stride: 8, data: data.clone() };
    fix_img_data(&mut frame);
    assert_eq!(frame.data, data);
    assert_eq!(frame.stride, 8);
}

#[test]
fn blank_frame_is_zeroed() {
    let f = PixelFrame::blank_rgba(80, 45);
    assert_eq!(f.width, 80);
    assert_eq!(f.height, 45);
    assert_eq!(f.stride, 320);
    assert_eq!(f.data.len(), 14400);
    assert!(f.data.iter().all(|&b| b == 0));
}

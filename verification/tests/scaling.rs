use vidthumb::scale::plan_scale;
use vidthumb::video::rotated_dims;

#[test]
fn plan_scale_preserves_aspect() {
    // A 1920x1080 source at width 320 scales to 320x180.
    assert_eq!(plan_scale(1920, 1080, 320, 0, None), (320, 180));
}

#[test]
fn plan_scale_zero_width_uses_native_size() {
    assert_eq!(plan_scale(1920, 1080, 0, 0, None), (1920, 1080));
    assert_eq!(plan_scale(640, 480, 0, 90, None), (640, 480));
}

#[test]
fn plan_scale_inverts_aspect_before_quarter_turn() {
    // 320 * 1080 / 1920 + 1 = 181.
    assert_eq!(plan_scale(1080, 1920, 320, 90, None), (181, 320));
    assert_eq!(plan_scale(1080, 1920, 320, -90, None), (181, 320));
}

#[test]
fn plan_scale_clamps_to_max_height() {
    // Tile-sized target: 80 * 1080 / 1920 = 45 fits the cap exactly.
    assert_eq!(plan_scale(1920, 1080, 80, 0, Some(45)), (80, 45));
    // A tall source exceeds the cap: height 80 * 1920 / 1080 = 142,
    // clamped to width 45 * 80 / 142 = 25 at height 45.
    assert_eq!(plan_scale(1080, 1920, 80, 0, Some(45)), (25, 45));
}

#[test]
fn plan_scale_quarter_turn_with_cap() {
    // Rotated branch: width 80 * 1080 / 1920 + 1 = 46, height 80 > 45,
    // so height becomes 45 * 80 / 46 = 78 and width the cap.
    assert_eq!(plan_scale(1080, 1920, 80, 90, Some(45)), (45, 78));
}

#[test]
fn rotated_dims_swap_on_quarter_turn() {
    assert_eq!(rotated_dims(90, 320, 180), (180, 320));
    assert_eq!(rotated_dims(-90, 320, 180), (180, 320));
    assert_eq!(rotated_dims(0, 320, 180), (320, 180));
    assert_eq!(rotated_dims(180, 320, 180), (320, 180));
    assert_eq!(rotated_dims(-180, 320, 180), (320, 180));
}

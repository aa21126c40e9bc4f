use figma_agent::fonts::fixed::{coord_weight, quantize_width, rounded_coord};

fn fixed(v: f64) -> i32 {
    (v * 65536.0).round() as i32
}

#[test]
fn small_coordinates_are_exact() {
    assert_eq!(rounded_coord(0), 0);
    assert_eq!(rounded_coord(12345), 12345);
    assert_eq!(rounded_coord(-0x100_0000), -0x100_0000);
}

#[test]
fn large_coordinates_round_like_binary32() {
    for x in [0x100_0001i32, 0x1FF_FFFF, 0x2000_0001, 65535999, -65535999, i32::MAX, i32::MIN] {
        let expected = (x as f32) as i64;
        assert_eq!(rounded_coord(x), expected, "x = {x}");
    }
}

#[test]
fn weight_truncates_towards_zero() {
    // Skia-Bold's wght = 1.949997 reports weight 1.
    assert_eq!(coord_weight(fixed(1.949997)), 1);
    assert_eq!(coord_weight(fixed(400.0)), 400);
    assert_eq!(coord_weight(fixed(-5.0)), 0);
    assert_eq!(coord_weight(0), 0);
    for x in [65535999i32, fixed(999.7), fixed(100.25), i32::MAX] {
        assert_eq!(coord_weight(x), (x as f32 / 65536.0) as u16, "x = {x}");
    }
}

#[test]
fn width_classes() {
    assert_eq!(quantize_width(fixed(100.0)), 5);
    assert_eq!(quantize_width(fixed(50.0)), 1);
    assert_eq!(quantize_width(fixed(10.0)), 1);
    assert_eq!(quantize_width(fixed(75.0)), 3);
    assert_eq!(quantize_width(fixed(112.5)), 6);
    assert_eq!(quantize_width(fixed(151.0)), 8);
    assert_eq!(quantize_width(fixed(500.0)), 9);
    // A tie goes to the narrower class.
    assert_eq!(quantize_width(fixed(56.25)), 1);
    assert_eq!(quantize_width(fixed(175.0)), 8);
}

#[test]
fn width_class_never_decreases() {
    let mut prev = quantize_width(i32::MIN);
    let mut c: i64 = i32::MIN as i64;
    while c <= i32::MAX as i64 {
        let class = quantize_width(c as i32);
        assert!(class >= prev, "{c}");
        prev = class;
        c += 65_536 * 3 + 17;
    }
    assert_eq!(quantize_width(i32::MIN), 1);
    assert_eq!(quantize_width(i32::MAX), 9);
}

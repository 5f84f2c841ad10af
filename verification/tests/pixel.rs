use image_editor::pixel::blend;
use image_editor::Pixel;

#[test]
fn blend_is_the_weighted_mean_rounded_down() {
    assert_eq!(blend(100, 200, 128), 150);
    assert_eq!(blend(50, 150, 128), 100);
    assert_eq!(blend(0, 255, 128), 128);
    assert_eq!(blend(255, 0, 128), 127);
    assert_eq!(blend(100, 200, 1), 100);
    assert_eq!(blend(100, 200, 254), 199);
    assert_eq!(blend(0, 255, 1), 1);
    assert_eq!(blend(255, 255, 77), 255);
    assert_eq!(blend(0, 0, 77), 0);
}

#[test]
fn blend_of_a_color_with_itself_is_that_color() {
    for alpha in 0..=255u8 {
        for value in 0..=255u8 {
            assert_eq!(blend(value, value, alpha), value);
        }
    }
}

#[test]
fn blend_stays_between_its_two_colors() {
    for alpha in (0..=255u8).step_by(3) {
        for base in (0..=255u8).step_by(5) {
            for top in (0..=255u8).step_by(7) {
                let mixed = blend(base, top, alpha);
                assert!(base.min(top) <= mixed && mixed <= base.max(top));
            }
        }
    }
    for base in 0..=255u8 {
        for top in 0..=255u8 {
            assert_eq!(blend(base, top, 0), base);
            assert_eq!(blend(base, top, 255), top);
        }
    }
}

#[test]
fn cover_with_goes_by_the_alpha_of_the_top_pixel() {
    let base = Pixel { r: 100, g: 50, b: 0, a: 10 };
    let clear = Pixel { r: 1, g: 2, b: 3, a: 0 };
    let solid = Pixel { r: 1, g: 2, b: 3, a: 255 };
    let half = Pixel { r: 200, g: 150, b: 255, a: 128 };
    assert_eq!(base.cover_with(clear), base);
    assert_eq!(base.cover_with(solid), solid);
    assert_eq!(base.cover_with(half), Pixel { r: 150, g: 100, b: 128, a: 255 });
}

#[test]
fn invert_of_one_pixel() {
    let pixel = Pixel { r: 0, g: 1, b: 254, a: 33 };
    assert_eq!(pixel.invert(), Pixel { r: 255, g: 254, b: 1, a: 33 });
    assert_eq!(pixel.invert().invert(), pixel);
}

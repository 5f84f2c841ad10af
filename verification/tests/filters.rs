use image::{Rgba, RgbaImage};
use image_editor::{ImageProcessor, RasterImage};
use imageproc::filter::gaussian_blur_f32;
use imageproc::geometric_transformations::{rotate_about_center, Border, Interpolation};

fn sample() -> ImageProcessor {
    let mut data = Vec::new();
    for y in 0..9u32 {
        for x in 0..12u32 {
            data.extend_from_slice(&[(20 * x) as u8, (25 * y) as u8, (x * y) as u8, 255]);
        }
    }
    ImageProcessor::new(12, 9, data).expect("a well-sized buffer")
}

fn buffer(image: &RasterImage) -> RgbaImage {
    RgbaImage::from_raw(image.width(), image.height(), image.to_raw())
        .expect("four bytes for every pixel")
}

fn rotate(editor: &mut ImageProcessor, degrees: f32) {
    let rotated = rotate_about_center(
        &buffer(editor.get_image()),
        degrees.to_radians(),
        Interpolation::Bilinear,
        Border::Constant(Rgba([0, 0, 0, 0])),
    );
    editor.replace_pixels(rotated.into_raw()).expect("a rotation keeps the canvas");
}

#[test]
fn rotation_by_nothing_keeps_size_and_content() {
    let mut editor = sample();
    let before = editor.get_image().to_raw();
    rotate(&mut editor, 0.0);
    assert_eq!(editor.get_image().width(), 12);
    assert_eq!(editor.get_image().height(), 9);
    let after = editor.get_image().to_raw();
    for (a, b) in before.iter().zip(after.iter()) {
        assert!((*a as i32 - *b as i32).abs() <= 1);
    }
}

#[test]
fn rotation_by_a_full_turn_comes_round_again() {
    let mut editor = sample();
    let before = editor.get_image().to_raw();
    rotate(&mut editor, 360.0);
    assert_eq!(editor.get_image().width(), 12);
    assert_eq!(editor.get_image().height(), 9);
    let after = editor.get_image().to_raw();
    // Away from the rim, where the turn may reach past the image, every
    // channel comes back to within the error of the interpolation.
    for y in 1..8usize {
        for x in 1..11usize {
            for c in 0..4usize {
                let at = 4 * (y * 12 + x) + c;
                let error = (before[at] as i32 - after[at] as i32).abs();
                assert!(error <= 2, "({x}, {y}) channel {c}");
            }
        }
    }
}

#[test]
fn rotation_by_a_quarter_turn_keeps_the_canvas_and_fills_with_transparency() {
    let mut editor = sample();
    rotate(&mut editor, 90.0);
    assert_eq!(editor.get_image().width(), 12);
    assert_eq!(editor.get_image().height(), 9);
    // A 12 by 9 image turned on its side no longer reaches the left edge.
    assert_eq!(editor.get_image().pixel(0, 4).map(|p| p.a), Some(0));
    assert_eq!(editor.get_image().pixel(6, 4).map(|p| p.a), Some(255));
}

#[test]
fn blur_keeps_the_canvas() {
    let mut editor = sample();
    let blurred = gaussian_blur_f32(&buffer(editor.get_image()), 1.9);
    editor.replace_pixels(blurred.into_raw()).expect("a blur keeps the canvas");
    assert_eq!(editor.get_image().width(), 12);
    assert_eq!(editor.get_image().height(), 9);
}

#[test]
fn blur_of_a_flat_image_stays_flat() {
    let mut editor = ImageProcessor::new(8, 8, [100, 150, 200, 250].repeat(64)).expect("64 pixels");
    let blurred = gaussian_blur_f32(&buffer(editor.get_image()), 1.9);
    editor.replace_pixels(blurred.into_raw()).expect("a blur keeps the canvas");
    for pixel in editor.get_image().to_raw().chunks(4) {
        for (channel, flat) in pixel.iter().zip([100i32, 150, 200, 250]) {
            assert!((*channel as i32 - flat).abs() <= 3);
        }
    }
}

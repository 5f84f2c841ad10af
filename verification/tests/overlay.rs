use image_editor::{ImageError, ImageProcessor, Pixel, RasterImage};

fn solid(width: u32, height: u32, pixel: [u8; 4]) -> RasterImage {
    let mut data = Vec::new();
    for _ in 0..width * height {
        data.extend_from_slice(&pixel);
    }
    RasterImage::from_raw(width, height, data).expect("a well-sized buffer")
}

fn patterned(width: u32, height: u32) -> ImageProcessor {
    let mut data = Vec::new();
    for y in 0..height {
        for x in 0..width {
            data.extend_from_slice(&[(10 * x) as u8, (10 * y) as u8, 3, (x + y) as u8]);
        }
    }
    ImageProcessor::new(width, height, data).expect("a well-sized buffer")
}

#[test]
fn opaque_overlay_replaces_exactly_its_footprint() {
    let mut editor = patterned(4, 3);
    let before = editor.get_image().to_raw();
    let top = solid(2, 2, [9, 8, 7, 255]);
    editor.overlay_image(&top, 0, 0).expect("the overlay lies inside");
    let image = editor.get_image();
    assert_eq!(image.width(), 4);
    assert_eq!(image.height(), 3);
    for y in 0..3u32 {
        for x in 0..4u32 {
            let at = 4 * (y * 4 + x) as usize;
            let expected = if x < 2 && y < 2 {
                Pixel { r: 9, g: 8, b: 7, a: 255 }
            } else {
                Pixel { r: before[at], g: before[at + 1], b: before[at + 2], a: before[at + 3] }
            };
            assert_eq!(image.pixel(x, y), Some(expected));
        }
    }
}

#[test]
fn opaque_overlay_away_from_the_corner() {
    let mut editor = patterned(4, 3);
    let top = solid(2, 1, [9, 8, 7, 255]);
    editor.overlay_image(&top, 2, 2).expect("the overlay lies inside");
    let image = editor.get_image();
    assert_eq!(image.pixel(1, 2), Some(Pixel { r: 10, g: 20, b: 3, a: 3 }));
    assert_eq!(image.pixel(2, 2), Some(Pixel { r: 9, g: 8, b: 7, a: 255 }));
    assert_eq!(image.pixel(3, 2), Some(Pixel { r: 9, g: 8, b: 7, a: 255 }));
    assert_eq!(image.pixel(2, 1), Some(Pixel { r: 20, g: 10, b: 3, a: 3 }));
}

#[test]
fn transparent_overlay_leaves_the_base_unchanged() {
    let mut editor = patterned(4, 3);
    let before = editor.get_image().to_raw();
    let top = solid(3, 2, [200, 100, 50, 0]);
    editor.overlay_image(&top, 1, 1).expect("the overlay lies inside");
    assert_eq!(editor.get_image().to_raw(), before);
}

#[test]
fn overlay_beyond_the_base_fails_and_leaves_it_unchanged() {
    let mut editor = patterned(4, 3);
    let before = editor.get_image().to_raw();
    let top = solid(2, 2, [9, 8, 7, 255]);
    match editor.overlay_image(&top, 3, 0) {
        Err(ImageError::OperationError(message)) => {
            assert_eq!(message, "Overlay image exceeds base image bounds")
        }
        _ => panic!("an overlay reaching over the right edge must be refused"),
    }
    assert!(matches!(editor.overlay_image(&top, 0, 2), Err(ImageError::OperationError(_))));
    assert!(matches!(editor.overlay_image(&top, u32::MAX, 0), Err(ImageError::OperationError(_))));
    assert!(matches!(editor.overlay_image(&top, 0, u32::MAX), Err(ImageError::OperationError(_))));
    assert_eq!(editor.get_image().to_raw(), before);
}

#[test]
fn half_transparent_overlay_blends_and_makes_opaque() {
    let mut editor = ImageProcessor::new(1, 1, vec![100, 50, 0, 10]).expect("one pixel");
    let top = solid(1, 1, [200, 150, 255, 128]);
    editor.overlay_image(&top, 0, 0).expect("the overlay lies inside");
    assert_eq!(editor.get_image().pixel(0, 0), Some(Pixel { r: 150, g: 100, b: 128, a: 255 }));
}

#[test]
fn nearly_transparent_and_nearly_opaque_overlays() {
    let mut editor = ImageProcessor::new(1, 1, vec![100, 100, 100, 0]).expect("one pixel");
    editor.overlay_image(&solid(1, 1, [200, 0, 100, 1]), 0, 0).expect("the overlay lies inside");
    assert_eq!(editor.get_image().pixel(0, 0), Some(Pixel { r: 100, g: 99, b: 100, a: 255 }));

    let mut editor = ImageProcessor::new(1, 1, vec![100, 100, 100, 0]).expect("one pixel");
    editor.overlay_image(&solid(1, 1, [200, 0, 100, 254]), 0, 0).expect("the overlay lies inside");
    assert_eq!(editor.get_image().pixel(0, 0), Some(Pixel { r: 199, g: 0, b: 100, a: 255 }));
}

#[test]
fn overlay_takes_each_pixel_by_its_own_alpha() {
    let mut editor = ImageProcessor::new(3, 1, vec![10, 20, 30, 40, 10, 20, 30, 40, 10, 20, 30, 40])
        .expect("three pixels");
    let top = RasterImage::from_raw(3, 1, vec![1, 2, 3, 0, 1, 2, 3, 255, 110, 120, 130, 51])
        .expect("three pixels");
    editor.overlay_image(&top, 0, 0).expect("the overlay lies inside");
    assert_eq!(editor.get_image().to_raw(), vec![10, 20, 30, 40, 1, 2, 3, 255, 30, 40, 50, 255]);
}

#[test]
fn overlay_from_another_editor() {
    let mut stamp = patterned(4, 3);
    stamp.crop(1, 1, 2, 2).expect("the rectangle lies inside");
    stamp.adjust_brightness(image_editor::Factor { negative: false, mantissa: 2, exponent: 0 })
        .expect("brightness never fails");
    let mut editor = ImageProcessor::from_dynamic_image(solid(3, 3, [0, 0, 0, 255]));
    editor.overlay_image(stamp.get_image(), 1, 1).expect("the overlay lies inside");
    // The stamp has alpha 2, 3, 3 and 4: it shows through only faintly.
    assert_eq!(editor.get_image().pixel(0, 0), Some(Pixel { r: 0, g: 0, b: 0, a: 255 }));
    assert_eq!(editor.get_image().pixel(1, 1), Some(Pixel { r: 0, g: 0, b: 0, a: 255 }));
    assert_eq!(editor.get_image().pixel(2, 2), Some(Pixel { r: 0, g: 0, b: 0, a: 255 }));
}

#[test]
fn overlay_without_pixels_changes_nothing() {
    let mut editor = patterned(4, 3);
    let before = editor.get_image().to_raw();
    let top = RasterImage::from_raw(0, 0, Vec::new()).expect("no pixels");
    editor.overlay_image(&top, 4, 3).expect("an empty overlay at the far corner");
    assert_eq!(editor.get_image().to_raw(), before);
    assert!(matches!(editor.overlay_image(&top, 5, 0), Err(ImageError::OperationError(_))));
}

use image_editor::{ImageError, ImageProcessor, Pixel};

/// A `width` by `height` image whose pixel in column `x` of row `y` is
/// `(x, y, x + y, 255 - x)`.
fn gradient(width: u32, height: u32) -> ImageProcessor {
    let mut data = Vec::new();
    for y in 0..height {
        for x in 0..width {
            data.extend_from_slice(&[x as u8, y as u8, (x + y) as u8, 255 - x as u8]);
        }
    }
    ImageProcessor::new(width, height, data).expect("a well-sized buffer")
}

fn cell(x: u32, y: u32) -> Pixel {
    Pixel { r: x as u8, g: y as u8, b: (x + y) as u8, a: 255 - x as u8 }
}

#[test]
fn crop_gives_the_rectangle_asked_for() {
    let mut editor = gradient(7, 5);
    editor.crop(2, 1, 4, 3).expect("the rectangle lies inside");
    let image = editor.get_image();
    assert_eq!(image.width(), 4);
    assert_eq!(image.height(), 3);
    assert_eq!(image.pixel(0, 0), Some(cell(2, 1)));
    for j in 0..3 {
        for i in 0..4 {
            assert_eq!(image.pixel(i, j), Some(cell(2 + i, 1 + j)));
        }
    }
    assert_eq!(image.pixel(4, 0), None);
    assert_eq!(image.pixel(0, 3), None);
}

#[test]
fn crop_up_to_the_far_corner() {
    let mut editor = gradient(7, 5);
    editor.crop(6, 4, 1, 1).expect("the last pixel lies inside");
    assert_eq!(editor.get_image().to_raw(), vec![6, 4, 10, 249]);
}

#[test]
fn crop_of_the_whole_image_changes_nothing() {
    let mut editor = gradient(6, 4);
    let before = editor.get_image().to_raw();
    editor.crop(0, 0, 6, 4).expect("the whole image lies inside");
    assert_eq!(editor.get_image().width(), 6);
    assert_eq!(editor.get_image().height(), 4);
    assert_eq!(editor.get_image().to_raw(), before);
}

#[test]
fn crop_too_wide_fails_and_keeps_the_image() {
    let mut editor = gradient(7, 5);
    let before = editor.get_image().to_raw();
    match editor.crop(4, 0, 4, 1) {
        Err(ImageError::OperationError(message)) => {
            assert_eq!(message, "Crop dimensions exceed image bounds")
        }
        _ => panic!("a crop wider than the image must be refused"),
    }
    assert_eq!(editor.get_image().width(), 7);
    assert_eq!(editor.get_image().height(), 5);
    assert_eq!(editor.get_image().to_raw(), before);
}

#[test]
fn crop_too_tall_fails_and_keeps_the_image() {
    let mut editor = gradient(7, 5);
    let before = editor.get_image().to_raw();
    assert!(matches!(editor.crop(0, 3, 1, 3), Err(ImageError::OperationError(_))));
    assert_eq!(editor.get_image().width(), 7);
    assert_eq!(editor.get_image().height(), 5);
    assert_eq!(editor.get_image().to_raw(), before);
}

#[test]
fn crop_does_not_wrap_around_on_large_coordinates() {
    let mut editor = gradient(3, 3);
    assert!(matches!(editor.crop(u32::MAX, 0, 2, 1), Err(ImageError::OperationError(_))));
    assert!(matches!(editor.crop(0, u32::MAX, 1, 2), Err(ImageError::OperationError(_))));
    assert!(matches!(editor.crop(1, 1, u32::MAX, u32::MAX), Err(ImageError::OperationError(_))));
    assert_eq!(editor.get_image().width(), 3);
    assert_eq!(editor.get_image().height(), 3);
}

#[test]
fn crop_without_pixels_leaves_an_empty_image() {
    let mut editor = gradient(4, 4);
    editor.crop(1, 1, 0, 2).expect("an empty rectangle inside the image");
    assert_eq!(editor.get_image().width(), 0);
    assert_eq!(editor.get_image().height(), 2);
    assert_eq!(editor.get_image().to_raw(), Vec::<u8>::new());
    assert_eq!(editor.get_image().pixel(0, 0), None);

    let mut editor = gradient(4, 4);
    editor.crop(4, 4, 0, 0).expect("an empty rectangle at the far corner");
    assert_eq!(editor.get_image().width(), 0);
    assert_eq!(editor.get_image().height(), 0);

    let mut editor = gradient(4, 4);
    assert!(matches!(editor.crop(5, 0, 0, 0), Err(ImageError::OperationError(_))));
}

#[test]
fn operations_chain_until_the_first_failure() {
    fn pipeline(editor: &mut ImageProcessor) -> Result<(), ImageError> {
        editor.crop(1, 1, 3, 3)?.invert()?.crop(2, 2, 2, 2)?.invert()?;
        Ok(())
    }
    let mut editor = gradient(5, 5);
    assert!(matches!(pipeline(&mut editor), Err(ImageError::OperationError(_))));
    // The first crop and the inversion took place, the second crop did not.
    assert_eq!(editor.get_image().width(), 3);
    assert_eq!(editor.get_image().height(), 3);
    assert_eq!(editor.get_image().pixel(0, 0), Some(Pixel { r: 254, g: 254, b: 253, a: 254 }));
}

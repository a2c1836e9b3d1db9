use lutdinho::raster::Image;
use lutdinho::utils::{can_stack, horizontal_stack, stack, vertical_stack, Axis, StackError};

fn solid(width: u32, height: u32, shade: u8) -> Image {
    assert!(Image::can_hold(width, height));
    let mut img = Image::new(width, height);
    for y in 0..height {
        for x in 0..width {
            assert!(img.set_pixel(x, y, (shade, x as u8, y as u8)));
        }
    }
    img
}

#[test]
fn horizontal_stack_places_blocks_left_to_right() {
    let images = vec![solid(2, 3, 10), solid(2, 3, 20), solid(2, 3, 30)];
    let atlas = horizontal_stack(&images).unwrap();
    assert_eq!((atlas.width(), atlas.height()), (6, 3));
    for i in 0..3u32 {
        for y in 0..3u32 {
            for x in 0..2u32 {
                assert_eq!(atlas.pixel(i * 2 + x, y), images[i as usize].pixel(x, y));
            }
        }
    }
    assert_eq!(atlas.pixel(5, 2), Some((30, 1, 2)));
}

#[test]
fn vertical_stack_places_blocks_top_to_bottom() {
    let images = vec![solid(2, 3, 10), solid(2, 3, 20)];
    let atlas = vertical_stack(&images).unwrap();
    assert_eq!((atlas.width(), atlas.height()), (2, 6));
    assert_eq!(atlas.pixel(1, 4), Some((20, 1, 1)));
    assert_eq!(atlas.pixel(1, 2), Some((10, 1, 2)));
}

#[test]
fn stack_of_nothing_is_empty_input() {
    let images: Vec<Image> = Vec::new();
    assert_eq!(horizontal_stack(&images).unwrap_err(), StackError::EmptyInput);
    assert_eq!(vertical_stack(&images).unwrap_err(), StackError::EmptyInput);
}

#[test]
fn stack_of_unequal_sizes_is_shape_mismatch() {
    let images = vec![solid(2, 3, 1), solid(3, 2, 2)];
    assert_eq!(horizontal_stack(&images).unwrap_err(), StackError::ShapeMismatch);
    assert_eq!(vertical_stack(&images).unwrap_err(), StackError::ShapeMismatch);
}

#[test]
fn stack_follows_the_axis() {
    let images = vec![solid(2, 3, 10), solid(2, 3, 20)];
    let row = stack(&images, Axis::Horizontal).unwrap();
    assert_eq!((row.width(), row.height()), (4, 3));
    assert_eq!(row.pixel(3, 1), Some((20, 1, 1)));
    let column = stack(&images, Axis::Vertical).unwrap();
    assert_eq!((column.width(), column.height()), (2, 6));
    assert_eq!(column.pixel(0, 5), Some((20, 0, 2)));
}

#[test]
fn stack_of_one_image_is_that_image() {
    let images = vec![solid(3, 2, 7)];
    let row = horizontal_stack(&images).unwrap();
    let column = vertical_stack(&images).unwrap();
    for y in 0..2 {
        for x in 0..3 {
            assert_eq!(row.pixel(x, y), images[0].pixel(x, y));
            assert_eq!(column.pixel(x, y), images[0].pixel(x, y));
        }
    }
    assert_eq!((row.width(), row.height()), (3, 2));
    assert_eq!((column.width(), column.height()), (3, 2));
}

#[test]
fn stack_of_empty_images_is_empty() {
    let images = vec![solid(0, 3, 0), solid(0, 3, 0)];
    let row = horizontal_stack(&images).unwrap();
    assert_eq!((row.width(), row.height()), (0, 3));
    let column = vertical_stack(&images).unwrap();
    assert_eq!((column.width(), column.height()), (0, 6));
}

#[test]
fn shape_mismatch_is_found_in_a_later_image() {
    let images = vec![solid(2, 2, 1), solid(2, 2, 2), solid(2, 3, 3)];
    assert_eq!(horizontal_stack(&images).unwrap_err(), StackError::ShapeMismatch);
}

#[test]
fn can_stack_goes_by_the_size_of_the_atlas() {
    let images = vec![solid(2, 3, 10), solid(2, 3, 20)];
    assert!(can_stack(&images, Axis::Horizontal));
    assert!(can_stack(&images, Axis::Vertical));
    let none: Vec<Image> = Vec::new();
    assert!(can_stack(&none, Axis::Horizontal));
}

#[test]
fn new_image_is_black_and_takes_pixels() {
    assert!(Image::can_hold(3, 2));
    assert!(!Image::can_hold(u32::MAX, u32::MAX));
    let mut img = Image::new(3, 2);
    assert_eq!((img.width(), img.height()), (3, 2));
    assert_eq!(img.pixel(2, 1), Some((0, 0, 0)));
    assert_eq!(img.pixel(3, 1), None);
    assert_eq!(img.pixel(2, 2), None);
    assert!(img.set_pixel(2, 1, (1, 2, 3)));
    assert!(!img.set_pixel(3, 0, (9, 9, 9)));
    assert_eq!(img.pixel(2, 1), Some((1, 2, 3)));
    assert_eq!(img.pixel(1, 1), Some((0, 0, 0)));
    assert_eq!(img.pixel(2, 0), Some((0, 0, 0)));
}

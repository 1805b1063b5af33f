use tinyrenderer::{Color, Error, Image};

fn make_image() -> Image {
    let mut image = Image::new(255, 255).unwrap();

    for y in 0..255 {
        for x in 0..255 {
            image.set(
                x,
                y,
                Color::from_rgba((x) as u8, (255 - x) as u8, (y) as u8, (255 - y) as u8),
            );
        }
    }

    image
}

#[test]
fn test_flip_vertically() {
    let mut image = make_image();
    let mut data: Vec<Vec<_>> = image.data().clone().chunks(255).map(|s| s.to_vec()).collect();

    image.flip_vertically();
    data.reverse();

    assert_eq!(
        image.data().clone(),
        data.clone()
            .into_iter()
            .flat_map(IntoIterator::into_iter)
            .collect::<Vec<_>>(),
    );
}

#[test]
fn test_flip_horizontally() {
    let mut image = make_image();
    let mut data: Vec<Vec<_>> = image.data().clone().chunks(255).map(|s| s.to_vec()).collect();

    image.flip_horizontally();
    for row in data.iter_mut() {
        row.reverse();
    }

    assert_eq!(
        image.data().clone(),
        data.into_iter().flat_map(IntoIterator::into_iter).collect::<Vec<_>>(),
    );
}

#[test]
fn new_image_is_transparent_black() {
    let image = Image::new(3, 2).unwrap();
    assert_eq!(image.width(), 3);
    assert_eq!(image.height(), 2);
    assert_eq!(image.data().len(), 6);
    assert!(image.data().iter().all(|c| *c == Color::from_rgba(0, 0, 0, 0)));
}

#[test]
fn with_background_fills_every_pixel() {
    let teal = Color::from_rgba(0, 128, 128, 255);
    let image = Image::with_background(4, 5, teal).unwrap();
    assert_eq!(image.data().len(), 20);
    assert!(image.data().iter().all(|c| *c == teal));
    assert_eq!(image.get(3, 4), Ok(teal));
}

#[test]
fn zero_dimensions_are_refused() {
    assert_eq!(Image::new(0, 5).err(), Some(Error::InvalidDimension));
    assert_eq!(Image::new(5, 0).err(), Some(Error::InvalidDimension));
    assert_eq!(Image::new(0, 0).err(), Some(Error::InvalidDimension));
    let red = Color::from_rgba(255, 0, 0, 255);
    assert_eq!(Image::with_background(0, 1, red).err(), Some(Error::InvalidDimension));
    assert!(Image::new(1, 1).is_ok());
}

#[test]
fn from_pixels_checks_the_length() {
    let red = Color::from_rgba(255, 0, 0, 255);
    let blue = Color::from_rgba(0, 0, 255, 255);
    let image = Image::from_pixels(2, 1, vec![red, blue]).unwrap();
    assert_eq!(image.get(0, 0), Ok(red));
    assert_eq!(image.get(1, 0), Ok(blue));
    assert_eq!(Image::from_pixels(2, 2, vec![red, blue]).err(), Some(Error::InvalidDimension));
    assert_eq!(Image::from_pixels(0, 2, vec![]).err(), Some(Error::InvalidDimension));
    assert_eq!(Image::from_pixels(2, 0, vec![]).err(), Some(Error::InvalidDimension));
}

#[test]
fn set_then_get_gives_the_color_back() {
    let mut image = Image::new(7, 5).unwrap();
    for y in 0..5u32 {
        for x in 0..7u32 {
            let c = Color::from_rgba(x as u8, y as u8, (x + y) as u8, 255);
            image.set(x, y, c);
            assert_eq!(image.get(x, y), Ok(c));
        }
    }
    // Writing one pixel leaves the others alone.
    image.set(3, 2, Color::from_rgba(9, 9, 9, 9));
    assert_eq!(image.get(2, 2), Ok(Color::from_rgba(2, 2, 4, 255)));
    assert_eq!(image.get(3, 1), Ok(Color::from_rgba(3, 1, 4, 255)));
    assert_eq!(image.get(3, 2), Ok(Color::from_rgba(9, 9, 9, 9)));
}

#[test]
fn pixels_are_stored_row_by_row() {
    let mut image = Image::new(3, 2).unwrap();
    let red = Color::from_rgba(255, 0, 0, 255);
    image.set(1, 1, red);
    assert_eq!(image.data()[1 * 3 + 1], red);
    assert_eq!(image.data().iter().filter(|c| **c == red).count(), 1);
}

#[test]
fn set_outside_the_buffer_writes_nothing() {
    let mut image = Image::new(4, 3).unwrap();
    let before = image.data().clone();
    let red = Color::from_rgba(255, 0, 0, 255);
    image.set(4, 0, red);
    image.set(0, 3, red);
    image.set(4, 3, red);
    image.set(u32::MAX, u32::MAX, red);
    assert_eq!(image.data().clone(), before);
}

#[test]
fn set_returns_the_image_for_chaining() {
    let mut image = Image::new(2, 2).unwrap();
    let red = Color::from_rgba(255, 0, 0, 255);
    let blue = Color::from_rgba(0, 0, 255, 255);
    image.set(0, 0, red).set(1, 1, blue).flip_vertically().flip_horizontally();
    assert_eq!(image.get(1, 1), Ok(red));
    assert_eq!(image.get(0, 0), Ok(blue));
}

#[test]
fn strict_access_reports_positions_outside() {
    let mut image = Image::new(4, 3).unwrap();
    let red = Color::from_rgba(255, 0, 0, 255);
    assert_eq!(image.get(4, 0), Err(Error::IndexOutOfRange));
    assert_eq!(image.get(0, 3), Err(Error::IndexOutOfRange));
    assert_eq!(image.set_strict(4, 2, red), Err(Error::IndexOutOfRange));
    assert_eq!(image.set_strict(0, 3, red), Err(Error::IndexOutOfRange));
    assert!(image.data().iter().all(|c| *c == Color::new()));
    assert_eq!(image.set_strict(3, 2, red), Ok(()));
    assert_eq!(image.get(3, 2), Ok(red));
}

#[test]
fn flipping_twice_gives_the_image_back() {
    let mut image = make_image();
    let before = image.data().clone();
    image.flip_vertically();
    assert_ne!(image.data().clone(), before);
    image.flip_vertically();
    assert_eq!(image.data().clone(), before);
    image.flip_horizontally();
    assert_ne!(image.data().clone(), before);
    image.flip_horizontally();
    assert_eq!(image.data().clone(), before);
}

#[test]
fn flips_of_odd_and_single_sizes() {
    let a = Color::from_rgba(1, 0, 0, 0);
    let b = Color::from_rgba(2, 0, 0, 0);
    let c = Color::from_rgba(3, 0, 0, 0);
    let mut column = Image::from_pixels(1, 3, vec![a, b, c]).unwrap();
    column.flip_vertically();
    assert_eq!(column.data().clone(), vec![c, b, a]);
    column.flip_horizontally();
    assert_eq!(column.data().clone(), vec![c, b, a]);
    let mut row = Image::from_pixels(3, 1, vec![a, b, c]).unwrap();
    row.flip_horizontally();
    assert_eq!(row.data().clone(), vec![c, b, a]);
    row.flip_vertically();
    assert_eq!(row.data().clone(), vec![c, b, a]);
    let mut single = Image::from_pixels(1, 1, vec![a]).unwrap();
    single.flip_vertically();
    single.flip_horizontally();
    assert_eq!(single.data().clone(), vec![a]);
}

#[test]
fn flip_vertically_moves_rows() {
    let a = Color::from_rgba(1, 0, 0, 0);
    let b = Color::from_rgba(2, 0, 0, 0);
    let c = Color::from_rgba(3, 0, 0, 0);
    let d = Color::from_rgba(4, 0, 0, 0);
    let mut image = Image::from_pixels(2, 2, vec![a, b, c, d]).unwrap();
    image.flip_vertically();
    assert_eq!(image.data().clone(), vec![c, d, a, b]);
    image.flip_horizontally();
    assert_eq!(image.data().clone(), vec![d, c, b, a]);
}

#[test]
fn rows_and_bytes_are_rgba() {
    let a = Color::from_rgba(1, 2, 3, 4);
    let b = Color::from_rgba(5, 6, 7, 8);
    let c = Color::from_rgba(9, 10, 11, 12);
    let d = Color::from_rgba(13, 14, 15, 16);
    let image = Image::from_pixels(2, 2, vec![a, b, c, d]).unwrap();
    assert_eq!(image.to_rows(), vec![vec![1, 2, 3, 4, 5, 6, 7, 8], vec![9, 10, 11, 12, 13, 14, 15, 16]]);
    assert_eq!(image.to_bytes(), (1..=16).collect::<Vec<u8>>());
    // The rows are a read view: asking again gives them again.
    assert_eq!(image.to_rows(), image.to_rows());
}

#[test]
fn clone_is_independent() {
    let mut image = Image::new(2, 2).unwrap();
    let copy = image.clone();
    image.set(0, 0, Color::from_rgba(1, 1, 1, 1));
    assert_eq!(copy.get(0, 0), Ok(Color::new()));
    assert_eq!(image.get(0, 0), Ok(Color::from_rgba(1, 1, 1, 1)));
}

#[test]
fn from_bytes_reads_rgba() {
    let bytes: Vec<u8> = (1..=16).collect();
    let image = Image::from_bytes(2, 2, &bytes).unwrap();
    assert_eq!(image.get(0, 0), Ok(Color::from_rgba(1, 2, 3, 4)));
    assert_eq!(image.get(1, 0), Ok(Color::from_rgba(5, 6, 7, 8)));
    assert_eq!(image.get(0, 1), Ok(Color::from_rgba(9, 10, 11, 12)));
    assert_eq!(image.get(1, 1), Ok(Color::from_rgba(13, 14, 15, 16)));
    assert_eq!(image.to_bytes(), bytes);
}

#[test]
fn from_bytes_checks_the_length() {
    let bytes = vec![0u8; 16];
    assert_eq!(Image::from_bytes(2, 2, &bytes[..15]).err(), Some(Error::InvalidDimension));
    assert_eq!(Image::from_bytes(4, 2, &bytes).err(), Some(Error::InvalidDimension));
    assert_eq!(Image::from_bytes(0, 2, &bytes).err(), Some(Error::InvalidDimension));
    assert_eq!(Image::from_bytes(2, 0, &bytes).err(), Some(Error::InvalidDimension));
    assert_eq!(Image::from_bytes(0, 0, &[]).err(), Some(Error::InvalidDimension));
    assert!(Image::from_bytes(4, 1, &bytes).is_ok());
    assert!(Image::from_bytes(1, 4, &bytes).is_ok());
}

#[test]
fn bytes_round_trip() {
    let image = make_image();
    let back = Image::from_bytes(255, 255, &image.to_bytes()).unwrap();
    assert_eq!(back.data().clone(), image.data().clone());
}

#[test]
fn from_rgb_bytes_makes_opaque_pixels() {
    let bytes: Vec<u8> = (1..=12).collect();
    let image = Image::from_rgb_bytes(2, 2, &bytes).unwrap();
    assert_eq!(image.get(0, 0), Ok(Color::from_rgba(1, 2, 3, 255)));
    assert_eq!(image.get(1, 0), Ok(Color::from_rgba(4, 5, 6, 255)));
    assert_eq!(image.get(0, 1), Ok(Color::from_rgba(7, 8, 9, 255)));
    assert_eq!(image.get(1, 1), Ok(Color::from_rgba(10, 11, 12, 255)));
    assert_eq!(Image::from_rgb_bytes(2, 2, &bytes[..11]).err(), Some(Error::InvalidDimension));
    assert_eq!(Image::from_rgb_bytes(0, 2, &bytes).err(), Some(Error::InvalidDimension));
    assert_eq!(Image::from_rgb_bytes(2, 0, &bytes).err(), Some(Error::InvalidDimension));
    assert_eq!(Image::from_rgb_bytes(3, 2, &bytes).err(), Some(Error::InvalidDimension));
}

use tinyrenderer::{Color, Image, Vec2};

const WHITE: Color = Color([255, 255, 255, 255]);
const RED: Color = Color([255, 0, 0, 255]);

fn lit(image: &Image, color: Color) -> Vec<(u32, u32)> {
    let mut found = Vec::new();
    for y in 0..image.height() {
        for x in 0..image.width() {
            if image.get(x, y) == Ok(color) {
                found.push((x, y));
            }
        }
    }
    found
}

#[test]
fn line_touches_both_ends_and_has_one_pixel_per_column() {
    let mut image = Image::new(100, 100).unwrap();
    tinyrenderer::line(Vec2(13, 20), Vec2(80, 40), &mut image, WHITE);
    assert_eq!(image.get(13, 20), Ok(WHITE));
    assert_eq!(image.get(80, 40), Ok(WHITE));
    let pixels = lit(&image, WHITE);
    assert_eq!(pixels.len(), 68);
    for x in 13..=80u32 {
        let column: Vec<_> = pixels.iter().filter(|p| p.0 == x).collect();
        assert_eq!(column.len(), 1);
    }
    assert!(pixels.iter().all(|p| 13 <= p.0 && p.0 <= 80 && 20 <= p.1 && p.1 <= 40));
    // From one column to the next the line stays or rises by one.
    let mut sorted = pixels.clone();
    sorted.sort();
    for pair in sorted.windows(2) {
        assert!(pair[1].1 == pair[0].1 || pair[1].1 == pair[0].1 + 1);
    }
}

#[test]
fn line_follows_the_nearest_pixels() {
    let mut image = Image::new(100, 100).unwrap();
    tinyrenderer::line(Vec2(13, 20), Vec2(80, 40), &mut image, WHITE);
    for (x, y) in [(13, 20), (14, 20), (15, 21), (16, 21), (17, 21), (46, 30), (47, 30), (78, 39), (79, 40), (80, 40)] {
        assert_eq!(image.get(x, y), Ok(WHITE));
    }
    assert_eq!(image.get(15, 20), Ok(Color::new()));
    assert_eq!(image.get(14, 21), Ok(Color::new()));
}

#[test]
fn line_is_the_same_in_both_directions() {
    for (a, b) in [
        (Vec2(13, 20), Vec2(80, 40)),
        (Vec2(20, 13), Vec2(40, 80)),
        (Vec2(80, 40), Vec2(13, 20)),
        (Vec2(0, 99), Vec2(99, 0)),
        (Vec2(5, 90), Vec2(70, 7)),
        (Vec2(50, 50), Vec2(50, 10)),
        (Vec2(10, 50), Vec2(90, 50)),
        (Vec2(3, 3), Vec2(4, 97)),
    ] {
        let mut forth = Image::new(100, 100).unwrap();
        let mut back = Image::new(100, 100).unwrap();
        tinyrenderer::line(a, b, &mut forth, WHITE);
        tinyrenderer::line(b, a, &mut back, WHITE);
        assert_eq!(forth.data().clone(), back.data().clone());
        assert!(!lit(&forth, WHITE).is_empty());
    }
}

#[test]
fn steep_line_has_one_pixel_per_row() {
    let mut image = Image::new(100, 100).unwrap();
    tinyrenderer::line(Vec2(20, 13), Vec2(40, 80), &mut image, RED);
    let pixels = lit(&image, RED);
    assert_eq!(pixels.len(), 68);
    for y in 13..=80u32 {
        assert_eq!(pixels.iter().filter(|p| p.1 == y).count(), 1);
    }
    assert_eq!(image.get(20, 13), Ok(RED));
    assert_eq!(image.get(40, 80), Ok(RED));
    assert_eq!(image.get(21, 15), Ok(RED));
}

#[test]
fn falling_line() {
    let mut image = Image::new(10, 10).unwrap();
    tinyrenderer::line(Vec2(0, 4), Vec2(8, 0), &mut image, RED);
    assert_eq!(
        lit(&image, RED),
        vec![(8, 0), (6, 1), (7, 1), (4, 2), (5, 2), (2, 3), (3, 3), (0, 4), (1, 4)]
    );
}

#[test]
fn a_point_is_a_single_pixel() {
    let mut image = Image::new(10, 10).unwrap();
    tinyrenderer::line(Vec2(4, 7), Vec2(4, 7), &mut image, RED);
    assert_eq!(lit(&image, RED), vec![(4, 7)]);
}

#[test]
fn horizontal_vertical_and_diagonal_lines() {
    let mut image = Image::new(6, 6).unwrap();
    tinyrenderer::line(Vec2(1, 2), Vec2(4, 2), &mut image, RED);
    assert_eq!(lit(&image, RED), vec![(1, 2), (2, 2), (3, 2), (4, 2)]);
    let mut image = Image::new(6, 6).unwrap();
    tinyrenderer::line(Vec2(3, 5), Vec2(3, 1), &mut image, RED);
    assert_eq!(lit(&image, RED), vec![(3, 1), (3, 2), (3, 3), (3, 4), (3, 5)]);
    let mut image = Image::new(6, 6).unwrap();
    tinyrenderer::line(Vec2(0, 0), Vec2(5, 5), &mut image, RED);
    assert_eq!(lit(&image, RED), vec![(0, 0), (1, 1), (2, 2), (3, 3), (4, 4), (5, 5)]);
}

#[test]
fn line_pixels_off_the_buffer_are_passed_over() {
    let mut image = Image::new(5, 5).unwrap();
    tinyrenderer::line(Vec2(-3, 2), Vec2(8, 2), &mut image, RED);
    assert_eq!(lit(&image, RED), vec![(0, 2), (1, 2), (2, 2), (3, 2), (4, 2)]);
    let mut image = Image::new(5, 5).unwrap();
    tinyrenderer::line(Vec2(-10, -10), Vec2(-1, -4), &mut image, RED);
    assert!(lit(&image, RED).is_empty());
    let mut image = Image::new(5, 5).unwrap();
    tinyrenderer::line(Vec2(-2, -2), Vec2(2, 2), &mut image, RED);
    assert_eq!(lit(&image, RED), vec![(0, 0), (1, 1), (2, 2)]);
}

#[test]
fn a_line_keeps_the_other_pixels() {
    let mut image = Image::with_background(8, 8, WHITE).unwrap();
    tinyrenderer::line(Vec2(0, 0), Vec2(7, 3), &mut image, RED);
    assert_eq!(lit(&image, RED).len(), 8);
    assert_eq!(lit(&image, WHITE).len(), 56);
}

use tinyrenderer::{
    triangle, triangle_with_zbuffer, triangle_with_zbuffer_with_texture, Color, DepthBuffer,
    Error, Image, Intensity, Vec2, Vec3,
};

const RED: Color = Color([255, 0, 0, 255]);
const BLUE: Color = Color([0, 0, 255, 255]);
const GREEN: Color = Color([0, 255, 0, 255]);

fn picture(image: &Image) -> Vec<String> {
    let mut rows = Vec::new();
    for y in 0..image.height() {
        let mut row = String::new();
        for x in 0..image.width() {
            let c = image.get(x, y).unwrap();
            row.push(if c == RED {
                'R'
            } else if c == BLUE {
                'B'
            } else if c == GREEN {
                'G'
            } else {
                '.'
            });
        }
        rows.push(row);
    }
    rows
}

fn depths(zbuffer: &DepthBuffer) -> Vec<Vec<i64>> {
    let mut rows = Vec::new();
    for y in 0..zbuffer.height() {
        let mut row = Vec::new();
        for x in 0..zbuffer.width() {
            row.push(zbuffer.get(x, y).unwrap());
        }
        rows.push(row);
    }
    rows
}

fn flat() -> [Vec3<i32>; 3] {
    [Vec3(0, 0, 10), Vec3(10, 0, 10), Vec3(0, 10, 10)]
}

fn sloped() -> [Vec3<i32>; 3] {
    [Vec3(2, 2, 0), Vec3(11, 2, 40), Vec3(2, 11, 40)]
}

#[test]
fn fresh_depth_buffer_is_empty() {
    let zbuffer = DepthBuffer::new(3, 2).unwrap();
    assert_eq!(zbuffer.width(), 3);
    assert_eq!(zbuffer.height(), 2);
    assert_eq!(depths(&zbuffer), vec![vec![DepthBuffer::EMPTY; 3]; 2]);
    assert_eq!(DepthBuffer::EMPTY, i64::MIN);
    assert_eq!(zbuffer.get(3, 0), Err(Error::IndexOutOfRange));
    assert_eq!(zbuffer.get(0, 2), Err(Error::IndexOutOfRange));
}

#[test]
fn depth_buffer_refuses_zero_dimensions() {
    assert_eq!(DepthBuffer::new(0, 2).err(), Some(Error::InvalidDimension));
    assert_eq!(DepthBuffer::new(2, 0).err(), Some(Error::InvalidDimension));
}

#[test]
fn depth_buffer_for_image_has_its_size() {
    let image = Image::new(5, 3).unwrap();
    let zbuffer = DepthBuffer::for_image(&image);
    assert_eq!((zbuffer.width(), zbuffer.height()), (5, 3));
    assert_eq!(depths(&zbuffer), vec![vec![i64::MIN; 5]; 3]);
}

#[test]
fn depth_buffer_set_and_get() {
    let mut zbuffer = DepthBuffer::new(3, 2).unwrap();
    zbuffer.set(2, 1, -7);
    zbuffer.set(3, 1, 5);
    zbuffer.set(0, 2, 5);
    assert_eq!(zbuffer.get(2, 1), Ok(-7));
    assert_eq!(
        depths(&zbuffer),
        vec![vec![i64::MIN, i64::MIN, i64::MIN], vec![i64::MIN, i64::MIN, -7]]
    );
}

#[test]
fn nearer_triangle_wins_whatever_the_order() {
    let expected = vec![
        "RRRRRRRRRRR.",
        "RRRRRRRRRR..",
        "RRRRRBBBBBBB",
        "RRRRBBBBBBB.",
        "RRRBBBBBBB..",
        "RRBBBBBBB...",
        "RRBBBBBB....",
        "RRBBBBB.....",
        "RRBBBB......",
        "RRBBB.......",
        "R.BB........",
        "..B.........",
    ];
    let mut first = Image::new(12, 12).unwrap();
    let mut first_depths = DepthBuffer::new(12, 12).unwrap();
    triangle_with_zbuffer(flat(), &mut first_depths, &mut first, RED);
    triangle_with_zbuffer(sloped(), &mut first_depths, &mut first, BLUE);
    assert_eq!(picture(&first), expected);

    let mut second = Image::new(12, 12).unwrap();
    let mut second_depths = DepthBuffer::new(12, 12).unwrap();
    triangle_with_zbuffer(sloped(), &mut second_depths, &mut second, BLUE);
    triangle_with_zbuffer(flat(), &mut second_depths, &mut second, RED);
    assert_eq!(picture(&second), expected);
    assert_eq!(first.data().clone(), second.data().clone());
    assert_eq!(depths(&first_depths), depths(&second_depths));
}

#[test]
fn depths_are_interpolated_and_rounded_down() {
    let mut image = Image::new(12, 12).unwrap();
    let mut zbuffer = DepthBuffer::new(12, 12).unwrap();
    triangle_with_zbuffer(sloped(), &mut zbuffer, &mut image, BLUE);
    let e = i64::MIN;
    assert_eq!(depths(&zbuffer)[2], vec![e, e, 0, 4, 8, 13, 17, 22, 26, 31, 35, 40]);
    assert_eq!(depths(&zbuffer)[3], vec![e, e, 4, 8, 13, 17, 22, 26, 31, 35, 40, e]);
    assert_eq!(depths(&zbuffer)[11], vec![e, e, 40, e, e, e, e, e, e, e, e, e]);
}

#[test]
fn every_vertex_has_its_own_depth() {
    let mut image = Image::new(9, 9).unwrap();
    let mut zbuffer = DepthBuffer::new(9, 9).unwrap();
    triangle_with_zbuffer(
        [Vec3(0, 0, 10), Vec3(8, 0, 90), Vec3(0, 8, 50)],
        &mut zbuffer,
        &mut image,
        RED,
    );
    assert_eq!(zbuffer.get(0, 0), Ok(10));
    assert_eq!(zbuffer.get(8, 0), Ok(90));
    assert_eq!(zbuffer.get(0, 8), Ok(50));
    assert_eq!(zbuffer.get(2, 2), Ok(40));
    assert_eq!(zbuffer.get(4, 4), Ok(70));
    assert_eq!(zbuffer.get(1, 5), Ok(45));
    assert_eq!(zbuffer.get(3, 1), Ok(45));
    assert_eq!(zbuffer.get(5, 5), Ok(DepthBuffer::EMPTY));
}

#[test]
fn depth_is_interpolated_with_the_weight_of_each_vertex() {
    // Only the second vertex is near. At (2, 1) the weights are 1/4, 1/2 and
    // 1/4, at (1, 2) they are 1/4, 1/4 and 1/2.
    let mut image = Image::new(8, 8).unwrap();
    let mut zbuffer = DepthBuffer::new(8, 8).unwrap();
    for y in 0..8 {
        for x in 0..8 {
            zbuffer.set(x, y, 3);
        }
    }
    triangle_with_zbuffer(
        [Vec3(0, 0, 0), Vec3(4, 0, 8), Vec3(0, 4, 0)],
        &mut zbuffer,
        &mut image,
        RED,
    );
    assert_eq!(image.get(2, 1), Ok(RED));
    assert_eq!(zbuffer.get(2, 1), Ok(4));
    assert_eq!(image.get(1, 2), Ok(Color::new()));
    assert_eq!(zbuffer.get(1, 2), Ok(3));
    assert_eq!(zbuffer.get(4, 0), Ok(8));
    assert_eq!(zbuffer.get(0, 4), Ok(3));
}

#[test]
fn an_equal_depth_does_not_win() {
    let mut image = Image::new(12, 12).unwrap();
    let mut zbuffer = DepthBuffer::new(12, 12).unwrap();
    triangle_with_zbuffer(flat(), &mut zbuffer, &mut image, RED);
    let drawn = image.data().clone();
    triangle_with_zbuffer(flat(), &mut zbuffer, &mut image, BLUE);
    assert_eq!(image.data().clone(), drawn);
    triangle_with_zbuffer(
        [Vec3(0, 0, 9), Vec3(10, 0, 9), Vec3(0, 10, 9)],
        &mut zbuffer,
        &mut image,
        GREEN,
    );
    assert_eq!(image.data().clone(), drawn);
    triangle_with_zbuffer(
        [Vec3(0, 0, 11), Vec3(10, 0, 11), Vec3(0, 10, 11)],
        &mut zbuffer,
        &mut image,
        GREEN,
    );
    assert_eq!(picture(&image)[0], "GGGGGGGGGGG.");
}

#[test]
fn the_lowest_depth_is_still_above_empty() {
    let mut image = Image::new(4, 4).unwrap();
    let mut zbuffer = DepthBuffer::new(4, 4).unwrap();
    triangle_with_zbuffer(
        [Vec3(0, 0, i32::MIN), Vec3(3, 0, i32::MIN), Vec3(0, 3, i32::MIN)],
        &mut zbuffer,
        &mut image,
        RED,
    );
    assert_eq!(image.get(1, 1), Ok(RED));
    assert_eq!(zbuffer.get(1, 1), Ok(i32::MIN as i64));
    assert_eq!(zbuffer.get(3, 3), Ok(DepthBuffer::EMPTY));
}

#[test]
fn depth_fill_covers_what_the_plain_fill_covers() {
    let mut plain = Image::new(30, 30).unwrap();
    let mut tested = Image::new(30, 30).unwrap();
    let mut zbuffer = DepthBuffer::new(30, 30).unwrap();
    triangle([Vec2(3, 4), Vec2(25, 9), Vec2(12, 28)], &mut plain, RED);
    triangle_with_zbuffer(
        [Vec3(3, 4, 5), Vec3(25, 9, -3), Vec3(12, 28, 100)],
        &mut zbuffer,
        &mut tested,
        RED,
    );
    assert_eq!(plain.data().clone(), tested.data().clone());
    assert!(plain.data().iter().any(|c| *c == RED));
}

#[test]
fn buffers_of_different_sizes_share_their_overlap() {
    let mut image = Image::new(6, 6).unwrap();
    let mut zbuffer = DepthBuffer::new(3, 4).unwrap();
    triangle_with_zbuffer(
        [Vec3(-5, -5, 1), Vec3(20, -5, 1), Vec3(-5, 20, 1)],
        &mut zbuffer,
        &mut image,
        RED,
    );
    assert_eq!(
        picture(&image),
        vec!["RRR...", "RRR...", "RRR...", "RRR...", "......", "......"]
    );
    assert_eq!(depths(&zbuffer), vec![vec![1; 3]; 4]);
}

#[test]
fn a_flat_triangle_leaves_both_buffers() {
    let mut image = Image::new(6, 6).unwrap();
    let mut zbuffer = DepthBuffer::new(6, 6).unwrap();
    triangle_with_zbuffer(
        [Vec3(0, 0, 1), Vec3(2, 2, 1), Vec3(5, 5, 1)],
        &mut zbuffer,
        &mut image,
        RED,
    );
    assert_eq!(picture(&image), vec!["......"; 6]);
    assert_eq!(depths(&zbuffer), vec![vec![i64::MIN; 6]; 6]);
}

fn pattern() -> Image {
    let mut pixels = Vec::new();
    for y in 0..4u8 {
        for x in 0..4u8 {
            pixels.push(Color::from_rgba(x * 60, y * 60, 200, 255));
        }
    }
    Image::from_pixels(4, 4, pixels).unwrap()
}

#[test]
fn texels_follow_the_vertices() {
    let texture = pattern();
    let mut image = Image::new(9, 9).unwrap();
    let mut zbuffer = DepthBuffer::new(9, 9).unwrap();
    triangle_with_zbuffer_with_texture(
        [Vec3(0, 0, 1), Vec3(8, 0, 1), Vec3(0, 8, 1)],
        &mut zbuffer,
        &mut image,
        &texture,
        [Vec2(0, 0), Vec2(65535, 0), Vec2(0, 65535)],
        Intensity(Intensity::ONE),
    );
    let texel = |x: u32, y: u32| texture.get(x, y).unwrap();
    assert_eq!(image.get(0, 0), Ok(texel(0, 0)));
    assert_eq!(image.get(8, 0), Ok(texel(3, 0)));
    assert_eq!(image.get(0, 8), Ok(texel(0, 3)));
    assert_eq!(image.get(1, 1), Ok(texel(0, 0)));
    assert_eq!(image.get(2, 2), Ok(texel(1, 1)));
    assert_eq!(image.get(4, 4), Ok(texel(2, 2)));
    assert_eq!(image.get(1, 5), Ok(texel(0, 2)));
    assert_eq!(image.get(3, 1), Ok(texel(1, 0)));
    assert_eq!(image.get(7, 1), Ok(texel(3, 0)));
    assert_eq!(image.get(1, 7), Ok(texel(0, 3)));
    assert_eq!(image.get(5, 5), Ok(Color::new()));
    assert_eq!(zbuffer.get(4, 4), Ok(1));
    assert_eq!(zbuffer.get(5, 5), Ok(DepthBuffer::EMPTY));
}

#[test]
fn texels_are_lit() {
    let texture = pattern();
    let mut image = Image::new(9, 9).unwrap();
    let mut zbuffer = DepthBuffer::new(9, 9).unwrap();
    triangle_with_zbuffer_with_texture(
        [Vec3(0, 0, 1), Vec3(8, 0, 1), Vec3(0, 8, 1)],
        &mut zbuffer,
        &mut image,
        &texture,
        [Vec2(0, 0), Vec2(65535, 0), Vec2(0, 65535)],
        Intensity(Intensity::ONE / 2),
    );
    assert_eq!(image.get(8, 0), Ok(Color::from_rgba(90, 0, 100, 255)));
    assert_eq!(image.get(4, 4), Ok(Color::from_rgba(60, 60, 100, 255)));
}

#[test]
fn textured_fill_passes_the_depth_test() {
    let texture = pattern();
    let mut image = Image::new(9, 9).unwrap();
    let mut zbuffer = DepthBuffer::new(9, 9).unwrap();
    triangle_with_zbuffer(
        [Vec3(0, 0, 5), Vec3(8, 0, 5), Vec3(0, 8, 5)],
        &mut zbuffer,
        &mut image,
        RED,
    );
    let drawn = image.data().clone();
    triangle_with_zbuffer_with_texture(
        [Vec3(0, 0, 5), Vec3(8, 0, 5), Vec3(0, 8, 5)],
        &mut zbuffer,
        &mut image,
        &texture,
        [Vec2(0, 0), Vec2(65535, 0), Vec2(0, 65535)],
        Intensity(Intensity::ONE),
    );
    assert_eq!(image.data().clone(), drawn);
    triangle_with_zbuffer_with_texture(
        [Vec3(0, 0, 6), Vec3(8, 0, 6), Vec3(0, 8, 6)],
        &mut zbuffer,
        &mut image,
        &texture,
        [Vec2(0, 0), Vec2(65535, 0), Vec2(0, 65535)],
        Intensity(Intensity::ONE),
    );
    assert_eq!(image.get(8, 0), Ok(texture.get(3, 0).unwrap()));
    assert_eq!(zbuffer.get(8, 0), Ok(6));
}

#[test]
fn the_texel_is_the_nearest_to_the_sample_point() {
    let mut texels = Vec::new();
    for j in 0..8u8 {
        for i in 0..8u8 {
            texels.push(Color::from_rgba(10 * i, 10 * j, 0, 255));
        }
    }
    let texture = Image::from_pixels(8, 8, texels).unwrap();
    let mut image = Image::new(8, 8).unwrap();
    let mut zbuffer = DepthBuffer::new(8, 8).unwrap();
    // The texture coordinates are (0, 0), (0.875, 0) and (0, 0.375).
    triangle_with_zbuffer_with_texture(
        [Vec3(0, 0, 1), Vec3(4, 0, 1), Vec3(0, 4, 1)],
        &mut zbuffer,
        &mut image,
        &texture,
        [Vec2(0, 0), Vec2(57344, 0), Vec2(0, 24576)],
        Intensity(Intensity::ONE),
    );
    // Pixel (1, 1) has the weights 1/2, 1/4 and 1/4: its sample point is
    // (1.75, 0.75), and the nearest texel is (2, 1).
    assert_eq!(image.get(1, 1), Ok(Color::from_rgba(20, 10, 0, 255)));
    // The second vertex samples at (7, 0), the third at (0, 3).
    assert_eq!(image.get(4, 0), Ok(Color::from_rgba(70, 0, 0, 255)));
    assert_eq!(image.get(0, 4), Ok(Color::from_rgba(0, 30, 0, 255)));
    // Half way between two texels goes to the higher one: (2, 0) samples at
    // (3.5, 0).
    assert_eq!(image.get(2, 0), Ok(Color::from_rgba(40, 0, 0, 255)));
}

#[test]
fn a_sample_point_at_the_far_edge_shows_the_last_texel() {
    let texture = pattern();
    let mut image = Image::new(9, 9).unwrap();
    let mut zbuffer = DepthBuffer::new(9, 9).unwrap();
    triangle_with_zbuffer_with_texture(
        [Vec3(0, 0, 1), Vec3(8, 0, 1), Vec3(0, 8, 1)],
        &mut zbuffer,
        &mut image,
        &texture,
        [Vec2(65535, 65535), Vec2(65535, 65535), Vec2(65535, 65535)],
        Intensity(Intensity::ONE),
    );
    // The sample point is just under (4, 4) everywhere: nearer to the edge
    // than to the last texel, which is shown.
    assert_eq!(image.get(0, 0), Ok(texture.get(3, 3).unwrap()));
    assert_eq!(image.get(3, 3), Ok(texture.get(3, 3).unwrap()));
    assert_eq!(image.get(8, 0), Ok(texture.get(3, 3).unwrap()));
}

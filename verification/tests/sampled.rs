//! The drawing functions held against plain re-statements of their rules, on
//! inputs drawn from a fixed pseudo-random sequence.

use tinyrenderer::{
    fill_triangle, triangle_with_zbuffer, triangle_with_zbuffer_with_texture, Color, DepthBuffer,
    FillStrategy, Image, Intensity, Vec2, Vec3,
};

const INK: Color = Color([255, 255, 255, 255]);
const PAPER: Color = Color([0, 0, 0, 0]);

struct Sequence(u64);

impl Sequence {
    fn next(&mut self) -> u64 {
        self.0 = self.0.wrapping_mul(6364136223846793005).wrapping_add(1442695040888963407);
        self.0 >> 33
    }

    fn between(&mut self, low: i64, high: i64) -> i64 {
        low + (self.next() % (high - low + 1) as u64) as i64
    }
}

/// The classic error-accumulating line walk.
fn walk(x0: i64, y0: i64, x1: i64, y1: i64) -> Vec<(i64, i64)> {
    let steep = (x0 - x1).abs() < (y0 - y1).abs();
    let (x0, x1, y0, y1) = if steep { (y0, y1, x0, x1) } else { (x0, x1, y0, y1) };
    let (x0, x1, y0, y1) = if x0 > x1 { (x1, x0, y1, y0) } else { (x0, x1, y0, y1) };
    let dx = x1 - x0;
    let derror2 = (y1 - y0).abs() * 2;
    let mut error2 = 0;
    let mut y = y0;
    let mut pixels = Vec::new();
    for x in x0..=x1 {
        pixels.push(if steep { (y, x) } else { (x, y) });
        error2 += derror2;
        if error2 > dx {
            y = if y1 > y0 { y + 1 } else { y - 1 };
            error2 -= dx * 2;
        }
    }
    pixels
}

fn edge(a: (i64, i64), b: (i64, i64), p: (i64, i64)) -> i64 {
    (b.0 - a.0) * (p.1 - a.1) - (b.1 - a.1) * (p.0 - a.0)
}

/// The weights of the three vertices of `t` at `p`, each the edge function
/// of the edge across from its vertex, and their sum.
fn weights(t: [(i64, i64); 3], p: (i64, i64)) -> (i64, i64, i64, i64) {
    let w0 = edge(t[1], t[2], p);
    let w1 = edge(t[2], t[0], p);
    let w2 = edge(t[0], t[1], p);
    (w0, w1, w2, w0 + w1 + w2)
}

fn closed(t: [(i64, i64); 3], p: (i64, i64)) -> bool {
    let (w0, w1, w2, den) = weights(t, p);
    (den > 0 && w0 >= 0 && w1 >= 0 && w2 >= 0) || (den < 0 && w0 <= 0 && w1 <= 0 && w2 <= 0)
}

fn open(t: [(i64, i64); 3], p: (i64, i64)) -> bool {
    let (w0, w1, w2, _) = weights(t, p);
    (w0 > 0 && w1 > 0 && w2 > 0) || (w0 < 0 && w1 < 0 && w2 < 0)
}

/// The values `a` of the three vertices interpolated at `p`, rounded down.
fn interpolate(t: [(i64, i64); 3], p: (i64, i64), a: [i64; 3]) -> i64 {
    let (w0, w1, w2, den) = weights(t, p);
    let sum = w0 * a[0] + w1 * a[1] + w2 * a[2];
    if den > 0 {
        sum.div_euclid(den)
    } else {
        (-sum).div_euclid(-den)
    }
}

#[test]
fn lines_follow_the_classic_walk() {
    let mut seq = Sequence(1);
    for _ in 0..400 {
        let (x0, y0) = (seq.between(-8, 40), seq.between(-8, 40));
        let (x1, y1) = (seq.between(-8, 40), seq.between(-8, 40));
        let mut image = Image::new(32, 32).unwrap();
        tinyrenderer::line(
            Vec2(x0 as isize, y0 as isize),
            Vec2(x1 as isize, y1 as isize),
            &mut image,
            INK,
        );
        let walked = walk(x0, y0, x1, y1);
        for y in 0..32 {
            for x in 0..32 {
                let expected = if walked.contains(&(x as i64, y as i64)) { INK } else { PAPER };
                assert_eq!(image.get(x, y), Ok(expected));
            }
        }
    }
}

#[test]
fn fills_follow_the_edge_functions() {
    let mut seq = Sequence(2);
    for _ in 0..300 {
        let t = [
            (seq.between(-6, 30), seq.between(-6, 30)),
            (seq.between(-6, 30), seq.between(-6, 30)),
            (seq.between(-6, 30), seq.between(-6, 30)),
        ];
        let pts = [
            Vec2(t[0].0 as i32, t[0].1 as i32),
            Vec2(t[1].0 as i32, t[1].1 as i32),
            Vec2(t[2].0 as i32, t[2].1 as i32),
        ];
        let mut boxed = Image::new(24, 24).unwrap();
        let mut halved = Image::new(24, 24).unwrap();
        let mut swept = Image::new(24, 24).unwrap();
        fill_triangle(FillStrategy::BoundingBoxBarycentric, pts, &mut boxed, INK);
        fill_triangle(FillStrategy::HalfPlaneSign, pts, &mut halved, INK);
        fill_triangle(FillStrategy::ScanlineSweep, pts, &mut swept, INK);
        for y in 0..24 {
            for x in 0..24 {
                let p = (x as i64, y as i64);
                let in_closed = if closed(t, p) { INK } else { PAPER };
                let in_open = if open(t, p) { INK } else { PAPER };
                assert_eq!(boxed.get(x, y), Ok(in_closed));
                assert_eq!(halved.get(x, y), Ok(in_open));
                assert_eq!(swept.get(x, y), Ok(in_closed));
            }
        }
    }
}

#[test]
fn depth_fills_follow_the_interpolated_depths() {
    let mut seq = Sequence(3);
    for _ in 0..60 {
        let mut image = Image::new(20, 20).unwrap();
        let mut zbuffer = DepthBuffer::new(20, 20).unwrap();
        let mut colors = vec![PAPER; 400];
        let mut depths = vec![i64::MIN; 400];
        for layer in 0..4u8 {
            let t = [
                (seq.between(-4, 24), seq.between(-4, 24)),
                (seq.between(-4, 24), seq.between(-4, 24)),
                (seq.between(-4, 24), seq.between(-4, 24)),
            ];
            let z = [seq.between(-50, 50), seq.between(-50, 50), seq.between(-50, 50)];
            let color = Color::from_rgba(layer + 1, 0, 0, 255);
            triangle_with_zbuffer(
                [
                    Vec3(t[0].0 as i32, t[0].1 as i32, z[0] as i32),
                    Vec3(t[1].0 as i32, t[1].1 as i32, z[1] as i32),
                    Vec3(t[2].0 as i32, t[2].1 as i32, z[2] as i32),
                ],
                &mut zbuffer,
                &mut image,
                color,
            );
            for y in 0..20i64 {
                for x in 0..20i64 {
                    let at = (y * 20 + x) as usize;
                    if closed(t, (x, y)) && interpolate(t, (x, y), z) > depths[at] {
                        depths[at] = interpolate(t, (x, y), z);
                        colors[at] = color;
                    }
                }
            }
        }
        assert_eq!(image.data().clone(), colors);
        for y in 0..20u32 {
            for x in 0..20u32 {
                assert_eq!(zbuffer.get(x, y), Ok(depths[(y * 20 + x) as usize]));
            }
        }
    }
}

#[test]
fn textured_fills_follow_the_interpolated_coordinates() {
    let mut seq = Sequence(4);
    let mut texels = Vec::new();
    for y in 0..5u8 {
        for x in 0..7u8 {
            texels.push(Color::from_rgba(x * 30, y * 50, x + y, 255));
        }
    }
    let texture = Image::from_pixels(7, 5, texels).unwrap();
    for _ in 0..100 {
        let t = [
            (seq.between(-4, 24), seq.between(-4, 24)),
            (seq.between(-4, 24), seq.between(-4, 24)),
            (seq.between(-4, 24), seq.between(-4, 24)),
        ];
        let uv = [
            (seq.between(0, 65535), seq.between(0, 65535)),
            (seq.between(0, 65535), seq.between(0, 65535)),
            (seq.between(0, 65535), seq.between(0, 65535)),
        ];
        let intensity = Intensity(seq.between(-20000, 90000) as i32);
        let mut image = Image::new(20, 20).unwrap();
        let mut zbuffer = DepthBuffer::new(20, 20).unwrap();
        triangle_with_zbuffer_with_texture(
            [
                Vec3(t[0].0 as i32, t[0].1 as i32, 7),
                Vec3(t[1].0 as i32, t[1].1 as i32, 7),
                Vec3(t[2].0 as i32, t[2].1 as i32, 7),
            ],
            &mut zbuffer,
            &mut image,
            &texture,
            [
                Vec2(uv[0].0 as u16, uv[0].1 as u16),
                Vec2(uv[1].0 as u16, uv[1].1 as u16),
                Vec2(uv[2].0 as u16, uv[2].1 as u16),
            ],
            intensity,
        );
        for y in 0..20i64 {
            for x in 0..20i64 {
                let expected = if closed(t, (x, y)) {
                    let sx = interpolate(t, (x, y), [uv[0].0 * 7, uv[1].0 * 7, uv[2].0 * 7]);
                    let sy = interpolate(t, (x, y), [uv[0].1 * 5, uv[1].1 * 5, uv[2].1 * 5]);
                    let tx = ((sx + 32768) / 65536).min(6);
                    let ty = ((sy + 32768) / 65536).min(4);
                    texture.get(tx as u32, ty as u32).unwrap() * intensity
                } else {
                    PAPER
                };
                assert_eq!(image.get(x as u32, y as u32), Ok(expected));
            }
        }
    }
}

//! Triangles drawn through the depth test, in one color or from a texture.

use crate::color::{Color, Intensity};
use crate::depth::DepthBuffer;
use crate::grid::{lemma_grid_ext, lemma_overlay_at, lemma_overlay_same, lemma_set_at, Grid};
use crate::image::Image;
use crate::triangle::{
    lemma_interpolate_at_vertices, lemma_mean_is_between, lemma_negate, lemma_triangle_in_box,
    lemma_weights_locate, max3, min3, Bary, Corners, Triangle, Weights, Window,
};
use crate::vec::{Vec2, Vec3};
use crate::arith::floor_div;
use vstd::arithmetic::div_mod::{lemma_div_is_ordered, lemma_div_multiples_vanish};
use vstd::prelude::*;

verus! {

/// The depth of the triangle `pts` at the pixel `(x, y)`: the depths of the
/// three vertices interpolated, the depth of each vertex with the barycentric
/// weight that the vertex has at the pixel, and rounded down.
pub open spec fn depth_at(pts: [Vec3<i32>; 3], x: int, y: int) -> int {
    Triangle::flat(pts).interpolate(x, y, pts[0].2 as int, pts[1].2 as int, pts[2].2 as int)
}

/// Whether the triangle `pts` is drawn at the pixel `(x, y)`: the pixel lies
/// in both buffers and in the closed triangle, and the triangle is nearer
/// there than what the depth buffer holds.
pub open spec fn nearer(
    pts: [Vec3<i32>; 3],
    depths: Grid<i64>,
    image: Grid<Color>,
    x: int,
    y: int,
) -> bool {
    &&& image.contains(x, y)
    &&& depths.contains(x, y)
    &&& Triangle::flat(pts).holds(x, y)
    &&& depth_at(pts, x, y) > depths.at(x, y)
}

/// The texel nearest to a sample point, along one axis of a texture `size`
/// texels long. The sample point is given in 65536ths of a texel; a point
/// half way between two texels goes to the higher one, and a point nearer to
/// the far edge of the texture than to its last texel goes to the last texel.
pub open spec fn nearest_texel(sample: int, size: int) -> int {
    let nearest = (sample + 32768) / 65536;
    if nearest >= size {
        size - 1
    } else {
        nearest
    }
}

/// The texel that the pixel `(x, y)` of the triangle `pts` shows, in a
/// texture of the given size. A texture coordinate counts in 65536ths of the
/// width or height of the texture. The coordinates of the three vertices,
/// scaled to the size of the texture, are interpolated, the coordinate of
/// each vertex with the barycentric weight that the vertex has at the pixel;
/// that is the sample point, and the texel is the one nearest to it.
pub open spec fn texel_at(
    pts: [Vec3<i32>; 3],
    coords: [Vec2<u16>; 3],
    width: int,
    height: int,
    x: int,
    y: int,
) -> (int, int) {
    let t = Triangle::flat(pts);
    (
        nearest_texel(
            t.interpolate(x, y, coords[0].0 * width, coords[1].0 * width, coords[2].0 * width),
            width,
        ),
        nearest_texel(
            t.interpolate(x, y, coords[0].1 * height, coords[1].1 * height, coords[2].1 * height),
            height,
        ),
    )
}

/// The color that the pixel `(x, y)` of the textured triangle `pts` gets:
/// that of its texel, lit with `intensity`.
pub open spec fn textured_color(
    pts: [Vec3<i32>; 3],
    coords: [Vec2<u16>; 3],
    texture: Grid<Color>,
    intensity: Intensity,
    x: int,
    y: int,
) -> Color {
    let texel = texel_at(pts, coords, texture.width as int, texture.height as int, x, y);
    texture.at(texel.0, texel.1).shaded(intensity)
}

/// A pixel buffer together with the depth buffer that goes with it.
pub struct Frame {
    pub image: Grid<Color>,
    pub depths: Grid<i64>,
}

impl Frame {
    /// The frame after the triangle `pts` was drawn in `color`: where the
    /// triangle is nearer, the image holds `color` and the depth buffer the
    /// depth of the triangle; everything else is kept.
    pub open spec fn drawn(self, pts: [Vec3<i32>; 3], color: Color) -> Frame {
        Frame {
            image: self.image.paint(
                |x: int, y: int| nearer(pts, self.depths, self.image, x, y),
                color,
            ),
            depths: self.depths.overlay(
                |x: int, y: int| nearer(pts, self.depths, self.image, x, y),
                |x: int, y: int| depth_at(pts, x, y) as i64,
            ),
        }
    }

    /// The frame after the triangle `pts` was drawn from `texture`: where the
    /// triangle is nearer, the image holds the lit color of the texel and the
    /// depth buffer the depth of the triangle; everything else is kept.
    pub open spec fn drawn_textured(
        self,
        pts: [Vec3<i32>; 3],
        texture: Grid<Color>,
        coords: [Vec2<u16>; 3],
        intensity: Intensity,
    ) -> Frame {
        Frame {
            image: self.image.overlay(
                |x: int, y: int| nearer(pts, self.depths, self.image, x, y),
                |x: int, y: int| textured_color(pts, coords, texture, intensity, x, y),
            ),
            depths: self.depths.overlay(
                |x: int, y: int| nearer(pts, self.depths, self.image, x, y),
                |x: int, y: int| depth_at(pts, x, y) as i64,
            ),
        }
    }

    /// Both buffers are well formed.
    pub open spec fn wf(self) -> bool {
        self.image.wf() && self.depths.wf()
    }
}

/// A value interpolated at a point of the triangle lies between the
/// smallest and the largest of the values of the vertices.
proof fn lemma_interpolate_is_between(w: Weights, a0: int, a1: int, a2: int)
    requires
        w.inside(),
        w.w0 + w.w1 + w.w2 == w.den,
    ensures
        min3(a0, a1, a2) <= w.interpolate(a0, a1, a2) <= max3(a0, a1, a2),
{
    let lo = min3(a0, a1, a2);
    let hi = max3(a0, a1, a2);
    let sum = w.w0 * a0 + w.w2 * a1 + w.w1 * a2;
    if w.den > 0 {
        lemma_mean_is_between(w.w0, w.w2, w.w1, a0, a1, a2);
        lemma_div_is_ordered(w.den * lo, sum, w.den);
        lemma_div_is_ordered(sum, w.den * hi, w.den);
        lemma_div_multiples_vanish(lo, w.den);
        lemma_div_multiples_vanish(hi, w.den);
    } else {
        let d = -w.den;
        lemma_mean_is_between(-w.w0, -w.w2, -w.w1, a0, a1, a2);
        lemma_negate(w.w0, a0);
        lemma_negate(w.w2, a1);
        lemma_negate(w.w1, a2);
        lemma_div_is_ordered(d * lo, -sum, d);
        lemma_div_is_ordered(-sum, d * hi, d);
        lemma_div_multiples_vanish(lo, d);
        lemma_div_multiples_vanish(hi, d);
    }
}

impl Bary {
    /// Three values, one for each vertex, interpolated by the weights of a
    /// point of the triangle.
    fn interpolate(&self, a0: i64, a1: i64, a2: i64) -> (r: i64)
        requires
            self.bounded(),
            self.model().inside(),
            self.w0 + self.w1 + self.w2 == self.den,
            -0x1_0000_0000_0000 <= a0 <= 0x1_0000_0000_0000,
            -0x1_0000_0000_0000 <= a1 <= 0x1_0000_0000_0000,
            -0x1_0000_0000_0000 <= a2 <= 0x1_0000_0000_0000,
        ensures
            r == self.model().interpolate(a0 as int, a1 as int, a2 as int),
            min3(a0 as int, a1 as int, a2 as int) <= r <= max3(a0 as int, a1 as int, a2 as int),
    {
        proof {
            lemma_interpolate_is_between(self.model(), a0 as int, a1 as int, a2 as int);
        }
        let p0 = scaled(self.w0, a0);
        let p1 = scaled(self.w2, a1);
        let p2 = scaled(self.w1, a2);
        let sum = p0 + p1 + p2;
        let q = if self.den > 0 {
            floor_div(sum, self.den)
        } else {
            floor_div(-sum, -self.den)
        };
        q as i64
    }
}

/// A weight times a value.
fn scaled(w: i128, a: i64) -> (p: i128)
    requires
        -0x8_0000_0000_0000_0000 <= w <= 0x8_0000_0000_0000_0000,
        -0x1_0000_0000_0000 <= a <= 0x1_0000_0000_0000,
    ensures
        p == w * a,
        -0x8_0000_0000_0000_0000_0000_0000_0000 <= p <= 0x8_0000_0000_0000_0000_0000_0000_0000,
{
    assert(-0x8_0000_0000_0000_0000_0000_0000_0000 <= w * a <= 0x8_0000_0000_0000_0000_0000_0000_0000)
        by (nonlinear_arith)
        requires
            -0x8_0000_0000_0000_0000 <= w <= 0x8_0000_0000_0000_0000,
            -0x1_0000_0000_0000 <= a <= 0x1_0000_0000_0000,
    ;
    w * a as i128
}

/// Where the color of a pixel comes from.
enum Source<'a> {
    /// One color for the whole triangle.
    Flat(Color),
    /// The texel that the pixel shows, lit.
    Texture { texture: &'a Image, coords: [Vec2<u16>; 3], intensity: Intensity },
}

impl<'a> Source<'a> {
    /// The color of the pixel with the weights `w`.
    spec fn color_of(self, w: Weights) -> Color {
        match self {
            Source::Flat(color) => color,
            Source::Texture { texture, coords, intensity } => {
                let width = texture@.width as int;
                let height = texture@.height as int;
                texture@.at(
                    nearest_texel(
                        w.interpolate(coords[0].0 * width, coords[1].0 * width, coords[2].0 * width),
                        width,
                    ),
                    nearest_texel(
                        w.interpolate(
                            coords[0].1 * height,
                            coords[1].1 * height,
                            coords[2].1 * height,
                        ),
                        height,
                    ),
                ).shaded(intensity)
            },
        }
    }

    fn color(&self, w: &Bary) -> (color: Color)
        requires
            w.bounded(),
            w.model().inside(),
            w.w0 + w.w1 + w.w2 == w.den,
        ensures
            color == self.color_of(w.model()),
    {
        match self {
            Source::Flat(color) => *color,
            Source::Texture { texture, coords, intensity } => {
                let tx = texel(w, coords[0].0, coords[1].0, coords[2].0, texture.width());
                let ty = texel(w, coords[0].1, coords[1].1, coords[2].1, texture.height());
                texture.peek(tx, ty) * *intensity
            },
        }
    }
}

/// The texel, along one axis of a texture `size` texels long, that a point
/// of the triangle with the weights `w` shows, for the texture coordinates
/// `c0`, `c1` and `c2` of the three vertices.
fn texel(w: &Bary, c0: u16, c1: u16, c2: u16, size: u32) -> (t: u32)
    requires
        w.bounded(),
        w.model().inside(),
        w.w0 + w.w1 + w.w2 == w.den,
        size > 0,
    ensures
        t == nearest_texel(w.model().interpolate(c0 * size, c1 * size, c2 * size), size as int),
        t < size,
{
    assert(0 <= c0 * size <= 65535 * size && 0 <= c1 * size <= 65535 * size && 0 <= c2 * size
        <= 65535 * size) by (nonlinear_arith)
        requires
            0 <= c0 <= 65535,
            0 <= c1 <= 65535,
            0 <= c2 <= 65535,
            0 < size,
    ;
    let a0 = c0 as i64 * size as i64;
    let a1 = c1 as i64 * size as i64;
    let a2 = c2 as i64 * size as i64;
    let sample = w.interpolate(a0, a1, a2);
    let nearest = (sample + 32768) / 65536;
    if nearest >= size as i64 {
        size - 1
    } else {
        nearest as u32
    }
}

/// Whether the pixel with the weights `w` and the depth `stored` under it is
/// drawn: the pixel belongs to the closed triangle and the depths `z0`, `z1`
/// and `z2` of the three vertices, interpolated, lie above `stored`.
spec fn wins(w: Weights, z0: int, z1: int, z2: int, stored: int) -> bool {
    w.inside() && w.interpolate(z0, z1, z2) > stored
}

/// Draws the triangle `c` with the vertex depths `z` through the depth test.
fn fill(
    c: &Corners,
    z: [i32; 3],
    zbuffer: &mut DepthBuffer,
    image: &mut Image,
    source: &Source<'_>,
)
    requires
        c.wf(),
    ensures
        final(image)@ == old(image)@.overlay(
            |x: int, y: int|
                old(image)@.contains(x, y) && old(zbuffer)@.contains(x, y) && wins(
                    c.model().weights(x, y),
                    z[0] as int,
                    z[1] as int,
                    z[2] as int,
                    old(zbuffer)@.at(x, y) as int,
                ),
            |x: int, y: int| source.color_of(c.model().weights(x, y)),
        ),
        final(zbuffer)@ == old(zbuffer)@.overlay(
            |x: int, y: int|
                old(image)@.contains(x, y) && old(zbuffer)@.contains(x, y) && wins(
                    c.model().weights(x, y),
                    z[0] as int,
                    z[1] as int,
                    z[2] as int,
                    old(zbuffer)@.at(x, y) as int,
                ),
            |x: int, y: int|
                c.model().weights(x, y).interpolate(z[0] as int, z[1] as int, z[2] as int) as i64,
        ),
{
    let ghost before = image@;
    let ghost before_depths = zbuffer@;
    let ghost t = c.model();
    let ghost z0 = z[0] as int;
    let ghost z1 = z[1] as int;
    let ghost z2 = z[2] as int;
    let width = if image.width() < zbuffer.width() {
        image.width()
    } else {
        zbuffer.width()
    };
    let height = if image.height() < zbuffer.height() {
        image.height()
    } else {
        zbuffer.height()
    };
    let window = Window::of(c, width, height);
    proof {
        image.lemma_view();
        zbuffer.lemma_view();
    }
    let mut x = window.x_lo;
    while x <= window.x_hi
        invariant
            c.wf(),
            t == c.model(),
            z0 == z[0],
            z1 == z[1],
            z2 == z[2],
            window.fits(),
            window.x_lo <= x,
            window.x_lo <= window.x_hi ==> x <= window.x_hi + 1,
            forall|px: int, py: int|
                window.holds(px, py) <==> t.in_box(px, py) && 0 <= px < width && 0 <= py < height,
            forall|px: int, py: int|
                0 <= px < width && 0 <= py < height <==> before.contains(px, py)
                    && before_depths.contains(px, py),
            before.wf(),
            before_depths.wf(),
            image@.wf(),
            zbuffer@.wf(),
            image@.width == before.width,
            image@.height == before.height,
            zbuffer@.width == before_depths.width,
            zbuffer@.height == before_depths.height,
            forall|px: int, py: int|
                before.contains(px, py) ==> #[trigger] image@.at(px, py) == if
                    before_depths.contains(px, py) && wins(
                    t.weights(px, py),
                    z0,
                    z1,
                    z2,
                    before_depths.at(px, py) as int,
                ) && window.passed(x as int, window.y_lo as int, px, py) {
                    source.color_of(t.weights(px, py))
                } else {
                    before.at(px, py)
                },
            forall|px: int, py: int|
                before_depths.contains(px, py) ==> #[trigger] zbuffer@.at(px, py) == if
                    before.contains(px, py) && wins(
                    t.weights(px, py),
                    z0,
                    z1,
                    z2,
                    before_depths.at(px, py) as int,
                ) && window.passed(x as int, window.y_lo as int, px, py) {
                    t.weights(px, py).interpolate(z0, z1, z2) as i64
                } else {
                    before_depths.at(px, py)
                },
        decreases window.x_hi + 1 - x,
    {
        let mut y = window.y_lo;
        while y <= window.y_hi
            invariant
                c.wf(),
                t == c.model(),
                z0 == z[0],
                z1 == z[1],
                z2 == z[2],
                window.fits(),
                window.x_lo <= x <= window.x_hi,
                window.y_lo <= y,
                window.y_lo <= window.y_hi ==> y <= window.y_hi + 1,
                forall|px: int, py: int|
                    window.holds(px, py) <==> t.in_box(px, py) && 0 <= px < width && 0 <= py
                        < height,
                forall|px: int, py: int|
                    0 <= px < width && 0 <= py < height <==> before.contains(px, py)
                        && before_depths.contains(px, py),
                before.wf(),
                before_depths.wf(),
                image@.wf(),
                zbuffer@.wf(),
                image@.width == before.width,
                image@.height == before.height,
                zbuffer@.width == before_depths.width,
                zbuffer@.height == before_depths.height,
                forall|px: int, py: int|
                    before.contains(px, py) ==> #[trigger] image@.at(px, py) == if
                        before_depths.contains(px, py) && wins(
                        t.weights(px, py),
                        z0,
                        z1,
                        z2,
                        before_depths.at(px, py) as int,
                    ) && window.passed(x as int, y as int, px, py) {
                        source.color_of(t.weights(px, py))
                    } else {
                        before.at(px, py)
                    },
                forall|px: int, py: int|
                    before_depths.contains(px, py) ==> #[trigger] zbuffer@.at(px, py) == if
                        before.contains(px, py) && wins(
                        t.weights(px, py),
                        z0,
                        z1,
                        z2,
                        before_depths.at(px, py) as int,
                    ) && window.passed(x as int, y as int, px, py) {
                        t.weights(px, py).interpolate(z0, z1, z2) as i64
                    } else {
                        before_depths.at(px, py)
                    },
            decreases window.y_hi + 1 - y,
        {
            assert(window.holds(x as int, y as int));
            let ghost painted = image@;
            let ghost measured = zbuffer@;
            assert(zbuffer@.at(x as int, y as int) == before_depths.at(x as int, y as int));
            let w = c.barycentric(x, y);
            if w.inside() {
                proof {
                    lemma_weights_locate(t, x as int, y as int);
                }
                let depth = w.interpolate(z[0] as i64, z[1] as i64, z[2] as i64);
                let stored = zbuffer.get(x as u32, y as u32);
                let above = match stored {
                    Ok(d) => depth > d,
                    Err(_) => false,
                };
                if above {
                    let color = source.color(&w);
                    zbuffer.set(x as u32, y as u32, depth);
                    image.set(x as u32, y as u32, color);
                }
            }
            proof {
                image.lemma_view();
                zbuffer.lemma_view();
                assert forall|px: int, py: int| before.contains(px, py) implies #[trigger] image@.at(
                    px,
                    py,
                ) == if before_depths.contains(px, py) && wins(
                    t.weights(px, py),
                    z0,
                    z1,
                    z2,
                    before_depths.at(px, py) as int,
                ) && window.passed(x as int, y + 1, px, py) {
                    source.color_of(t.weights(px, py))
                } else {
                    before.at(px, py)
                } by {
                    lemma_set_at(
                        painted,
                        x as int,
                        y as int,
                        source.color_of(t.weights(x as int, y as int)),
                        px,
                        py,
                    );
                }
                assert forall|px: int, py: int|
                    before_depths.contains(px, py) implies #[trigger] zbuffer@.at(px, py) == if
                    before.contains(px, py) && wins(
                    t.weights(px, py),
                    z0,
                    z1,
                    z2,
                    before_depths.at(px, py) as int,
                ) && window.passed(x as int, y + 1, px, py) {
                    t.weights(px, py).interpolate(z0, z1, z2) as i64
                } else {
                    before_depths.at(px, py)
                } by {
                    lemma_set_at(
                        measured,
                        x as int,
                        y as int,
                        t.weights(x as int, y as int).interpolate(z0, z1, z2) as i64,
                        px,
                        py,
                    );
                }
            }
            y += 1;
        }
        x += 1;
    }
    proof {
        let mask = |px: int, py: int|
            before.contains(px, py) && before_depths.contains(px, py) && wins(
                c.model().weights(px, py),
                z[0] as int,
                z[1] as int,
                z[2] as int,
                before_depths.at(px, py) as int,
            );
        let colors = |px: int, py: int| source.color_of(c.model().weights(px, py));
        let depths = |px: int, py: int|
            c.model().weights(px, py).interpolate(z[0] as int, z[1] as int, z[2] as int) as i64;
        let target = before.overlay(mask, colors);
        let target_depths = before_depths.overlay(mask, depths);
        assert forall|px: int, py: int| image@.contains(px, py) implies image@.at(px, py)
            == target.at(px, py) by {
            lemma_overlay_at(before, mask, colors, px, py);
            if mask(px, py) {
                lemma_triangle_in_box(t, px, py);
                assert(window.holds(px, py));
            }
        }
        lemma_grid_ext(image@, target);
        assert forall|px: int, py: int| zbuffer@.contains(px, py) implies zbuffer@.at(px, py)
            == target_depths.at(px, py) by {
            lemma_overlay_at(before_depths, mask, depths, px, py);
            if mask(px, py) {
                lemma_triangle_in_box(t, px, py);
                assert(window.holds(px, py));
            }
        }
        lemma_grid_ext(zbuffer@, target_depths);
    }
}

/// Draws the closed triangle `pts` in `color` through the depth test: a
/// pixel of the triangle is written, and its depth recorded, where the depth
/// of the triangle lies above the depth recorded so far. Pixels outside
/// either buffer are passed over, and a triangle without area has no pixels.
pub fn triangle_with_zbuffer(
    pts: [Vec3<i32>; 3],
    zbuffer: &mut DepthBuffer,
    image: &mut Image,
    color: Color,
)
    ensures
        (Frame { image: final(image)@, depths: final(zbuffer)@ }) == (Frame {
            image: old(image)@,
            depths: old(zbuffer)@,
        }).drawn(pts, color),
{
    let c = Corners::flat(&pts);
    let z = [pts[0].2, pts[1].2, pts[2].2];
    let source = Source::Flat(color);
    proof {
        image.lemma_view();
        zbuffer.lemma_view();
        let mask = |x: int, y: int|
            image@.contains(x, y) && zbuffer@.contains(x, y) && wins(
                c.model().weights(x, y),
                z[0] as int,
                z[1] as int,
                z[2] as int,
                zbuffer@.at(x, y) as int,
            );
        let stated = |x: int, y: int| nearer(pts, zbuffer@, image@, x, y);
        lemma_overlay_same(
            image@,
            mask,
            |x: int, y: int| source.color_of(c.model().weights(x, y)),
            stated,
            |x: int, y: int| color,
        );
        lemma_overlay_same(
            zbuffer@,
            mask,
            |x: int, y: int|
                c.model().weights(x, y).interpolate(z[0] as int, z[1] as int, z[2] as int) as i64,
            stated,
            |x: int, y: int| depth_at(pts, x, y) as i64,
        );
    }
    fill(&c, z, zbuffer, image, &source);
}

/// Draws the closed triangle `pts` from `texture` through the depth test: a
/// pixel of the triangle gets the color of its texel, lit with `intensity`,
/// and its depth is recorded, where the depth of the triangle lies above the
/// depth recorded so far. The texture coordinates of the three vertices
/// count in 65536ths of the size of the texture. Pixels outside either buffer
/// are passed over, and a triangle without area has no pixels.
pub fn triangle_with_zbuffer_with_texture(
    pts: [Vec3<i32>; 3],
    zbuffer: &mut DepthBuffer,
    image: &mut Image,
    texture: &Image,
    texture_coords: [Vec2<u16>; 3],
    intensity: Intensity,
)
    ensures
        (Frame { image: final(image)@, depths: final(zbuffer)@ }) == (Frame {
            image: old(image)@,
            depths: old(zbuffer)@,
        }).drawn_textured(pts, texture@, texture_coords, intensity),
{
    let c = Corners::flat(&pts);
    let z = [pts[0].2, pts[1].2, pts[2].2];
    let source = Source::Texture { texture, coords: texture_coords, intensity };
    proof {
        image.lemma_view();
        zbuffer.lemma_view();
        let mask = |x: int, y: int|
            image@.contains(x, y) && zbuffer@.contains(x, y) && wins(
                c.model().weights(x, y),
                z[0] as int,
                z[1] as int,
                z[2] as int,
                zbuffer@.at(x, y) as int,
            );
        let stated = |x: int, y: int| nearer(pts, zbuffer@, image@, x, y);
        lemma_overlay_same(
            image@,
            mask,
            |x: int, y: int| source.color_of(c.model().weights(x, y)),
            stated,
            |x: int, y: int| textured_color(pts, texture_coords, texture@, intensity, x, y),
        );
        lemma_overlay_same(
            zbuffer@,
            mask,
            |x: int, y: int|
                c.model().weights(x, y).interpolate(z[0] as int, z[1] as int, z[2] as int) as i64,
            stated,
            |x: int, y: int| depth_at(pts, x, y) as i64,
        );
    }
    fill(&c, z, zbuffer, image, &source);
}

/// Whether the triangles `a` and `b` both hold the pixel `(x, y)` at one
/// depth.
pub open spec fn tied(a: [Vec3<i32>; 3], b: [Vec3<i32>; 3], x: int, y: int) -> bool {
    &&& Triangle::flat(a).holds(x, y)
    &&& Triangle::flat(b).holds(x, y)
    &&& depth_at(a, x, y) == depth_at(b, x, y)
}

/// The depth of a triangle at one of its pixels lies between the depths of
/// its vertices, so it is a depth that the buffer can hold.
pub proof fn lemma_depth_is_between(pts: [Vec3<i32>; 3], x: int, y: int)
    requires
        Triangle::flat(pts).holds(x, y),
    ensures
        min3(pts[0].2 as int, pts[1].2 as int, pts[2].2 as int) <= depth_at(pts, x, y) <= max3(
            pts[0].2 as int,
            pts[1].2 as int,
            pts[2].2 as int,
        ),
        depth_at(pts, x, y) as i64 == depth_at(pts, x, y),
        depth_at(pts, x, y) > i64::MIN,
{
    lemma_weights_locate(Triangle::flat(pts), x, y);
    lemma_interpolate_is_between(
        Triangle::flat(pts).weights(x, y),
        pts[0].2 as int,
        pts[1].2 as int,
        pts[2].2 as int,
    );
}

/// At each vertex of a triangle with an area, the depth of the triangle is
/// the depth of that vertex.
pub proof fn lemma_depth_at_vertices(pts: [Vec3<i32>; 3])
    requires
        Triangle::flat(pts).area2() != 0,
    ensures
        depth_at(pts, pts[0].0 as int, pts[0].1 as int) == pts[0].2,
        depth_at(pts, pts[1].0 as int, pts[1].1 as int) == pts[1].2,
        depth_at(pts, pts[2].0 as int, pts[2].1 as int) == pts[2].2,
{
    lemma_interpolate_at_vertices(
        Triangle::flat(pts),
        pts[0].2 as int,
        pts[1].2 as int,
        pts[2].2 as int,
    );
}

/// The depth test does not depend on the order of drawing: two triangles
/// drawn in either order leave the same depths, and the same color at every
/// pixel at which they do not lie at one depth.
pub proof fn lemma_draw_order(
    f: Frame,
    a: [Vec3<i32>; 3],
    color_a: Color,
    b: [Vec3<i32>; 3],
    color_b: Color,
)
    requires
        f.wf(),
    ensures
        f.drawn(a, color_a).drawn(b, color_b).depths == f.drawn(b, color_b).drawn(
            a,
            color_a,
        ).depths,
        forall|x: int, y: int|
            f.image.contains(x, y) && !tied(a, b, x, y) ==> f.drawn(a, color_a).drawn(
                b,
                color_b,
            ).image.at(x, y) == f.drawn(b, color_b).drawn(a, color_a).image.at(x, y),
{
    let fa = f.drawn(a, color_a);
    let fb = f.drawn(b, color_b);
    let fab = fa.drawn(b, color_b);
    let fba = fb.drawn(a, color_a);
    let near_a = |x: int, y: int| nearer(a, f.depths, f.image, x, y);
    let near_b = |x: int, y: int| nearer(b, f.depths, f.image, x, y);
    let near_ab = |x: int, y: int| nearer(b, fa.depths, fa.image, x, y);
    let near_ba = |x: int, y: int| nearer(a, fb.depths, fb.image, x, y);
    let depth_a = |x: int, y: int| depth_at(a, x, y) as i64;
    let depth_b = |x: int, y: int| depth_at(b, x, y) as i64;
    assert forall|x: int, y: int| f.depths.contains(x, y) implies fab.depths.at(x, y)
        == fba.depths.at(x, y) by {
        lemma_overlay_at(f.depths, near_a, depth_a, x, y);
        lemma_overlay_at(f.depths, near_b, depth_b, x, y);
        lemma_overlay_at(fa.depths, near_ab, depth_b, x, y);
        lemma_overlay_at(fb.depths, near_ba, depth_a, x, y);
        if Triangle::flat(a).holds(x, y) {
            lemma_depth_is_between(a, x, y);
        }
        if Triangle::flat(b).holds(x, y) {
            lemma_depth_is_between(b, x, y);
        }
    }
    assert(fab.depths.wf() && fba.depths.wf()) by {
        assert(fa.depths.cells.len() == f.depths.cells.len());
        assert(fb.depths.cells.len() == f.depths.cells.len());
    }
    lemma_grid_ext(fab.depths, fba.depths);
    assert forall|x: int, y: int| f.image.contains(x, y) && !tied(a, b, x, y) implies fab.image.at(
        x,
        y,
    ) == fba.image.at(x, y) by {
        let paint_a = |x: int, y: int| color_a;
        let paint_b = |x: int, y: int| color_b;
        lemma_overlay_at(f.image, near_a, paint_a, x, y);
        lemma_overlay_at(f.image, near_b, paint_b, x, y);
        lemma_overlay_at(fa.image, near_ab, paint_b, x, y);
        lemma_overlay_at(fb.image, near_ba, paint_a, x, y);
        if f.depths.contains(x, y) {
            lemma_overlay_at(f.depths, near_a, depth_a, x, y);
            lemma_overlay_at(f.depths, near_b, depth_b, x, y);
        }
        if Triangle::flat(a).holds(x, y) {
            lemma_depth_is_between(a, x, y);
        }
        if Triangle::flat(b).holds(x, y) {
            lemma_depth_is_between(b, x, y);
        }
    }
}

/// A depth buffer holds the largest depth drawn so far: drawing a triangle
/// lowers no depth, and where the triangle lies in both buffers, the depth
/// afterwards is the larger of the depth before and the depth of the
/// triangle.
pub proof fn lemma_depths_only_rise(f: Frame, pts: [Vec3<i32>; 3], color: Color, x: int, y: int)
    requires
        f.wf(),
        f.depths.contains(x, y),
    ensures
        f.drawn(pts, color).depths.at(x, y) >= f.depths.at(x, y),
        f.image.contains(x, y) && Triangle::flat(pts).holds(x, y) ==> f.drawn(
            pts,
            color,
        ).depths.at(x, y) == if depth_at(pts, x, y) > f.depths.at(x, y) {
            depth_at(pts, x, y)
        } else {
            f.depths.at(x, y) as int
        },
{
    lemma_overlay_at(
        f.depths,
        |x: int, y: int| nearer(pts, f.depths, f.image, x, y),
        |x: int, y: int| depth_at(pts, x, y) as i64,
        x,
        y,
    );
    if Triangle::flat(pts).holds(x, y) {
        lemma_depth_is_between(pts, x, y);
    }
}

/// Every pixel of a textured triangle shows a texel of the texture: the
/// texel never lies outside it.
pub proof fn lemma_texel_is_in_texture(
    pts: [Vec3<i32>; 3],
    coords: [Vec2<u16>; 3],
    width: int,
    height: int,
    x: int,
    y: int,
)
    requires
        Triangle::flat(pts).holds(x, y),
        width > 0,
        height > 0,
    ensures
        0 <= texel_at(pts, coords, width, height, x, y).0 < width,
        0 <= texel_at(pts, coords, width, height, x, y).1 < height,
{
    let w = Triangle::flat(pts).weights(x, y);
    lemma_weights_locate(Triangle::flat(pts), x, y);
    lemma_interpolate_is_between(
        w,
        coords[0].0 * width,
        coords[1].0 * width,
        coords[2].0 * width,
    );
    lemma_interpolate_is_between(
        w,
        coords[0].1 * height,
        coords[1].1 * height,
        coords[2].1 * height,
    );
    lemma_scaled_coordinate(coords[0].0 as int, width);
    lemma_scaled_coordinate(coords[1].0 as int, width);
    lemma_scaled_coordinate(coords[2].0 as int, width);
    lemma_scaled_coordinate(coords[0].1 as int, height);
    lemma_scaled_coordinate(coords[1].1 as int, height);
    lemma_scaled_coordinate(coords[2].1 as int, height);
}

/// A texture coordinate scaled by the size of the texture stays under the
/// size, counted in 65536ths.
proof fn lemma_scaled_coordinate(c: int, size: int)
    requires
        0 <= c <= 65535,
        size > 0,
    ensures
        0 <= c * size <= 65535 * size,
{
    assert(0 <= c * size <= 65535 * size) by (nonlinear_arith)
        requires
            0 <= c <= 65535,
            size > 0,
    ;
}

} // verus!

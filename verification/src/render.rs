//! Whole meshes drawn face by face.

use crate::color::{Color, Intensity};
use crate::depth::DepthBuffer;
use crate::grid::{lemma_grid_ext, lemma_paint_at, Grid};
use crate::image::Image;
use crate::line::{line, on_line};
use crate::shade::{
    faces_light, intensity, intensity_of, is_lit, to_screen, world_to_screen_coords,
};
use crate::vec::{Vec2, Vec3};
use crate::zbuffer::{triangle_with_zbuffer, triangle_with_zbuffer_with_texture, Frame};
use vstd::prelude::*;

verus! {

/// A vertex of a mesh.
#[derive(Debug, Clone, Copy, PartialEq, Eq, Structural)]
pub struct Vertex {
    /// Where the vertex lies in model space, in fixed point: `16384` stands
    /// for one. What is drawn lies between minus one and one; a larger `z` is
    /// nearer to the viewer.
    pub position: Vec3<i16>,
    /// Where in the texture the vertex lies, in 65536ths of its width and
    /// height.
    pub texture: Vec2<u16>,
}

/// A mesh of triangles. Every three indices make one face; indices left over
/// at the end make none. A face that names a vertex the mesh does not have
/// is passed over wherever the mesh is drawn.
#[derive(Debug, Clone)]
pub struct Mesh {
    /// The vertices.
    pub vertices: Vec<Vertex>,
    /// The faces, three indices into `vertices` each.
    pub indices: Vec<u16>,
}

impl Mesh {
    /// The number of faces.
    pub open spec fn faces(self) -> int {
        self.indices@.len() as int / 3
    }

    /// Whether face `k` exists and names three vertices of the mesh.
    pub open spec fn has_face(self, k: int) -> bool {
        &&& 0 <= k < self.faces()
        &&& self.indices@[3 * k] < self.vertices@.len()
        &&& self.indices@[3 * k + 1] < self.vertices@.len()
        &&& self.indices@[3 * k + 2] < self.vertices@.len()
    }

    /// Corner `i` of face `k`.
    pub open spec fn corner(self, k: int, i: int) -> Vertex {
        self.vertices@[self.indices@[3 * k + i] as int]
    }

    /// The three corners of face `k` in model space.
    pub open spec fn world(self, k: int) -> [Vec3<i16>; 3] {
        [self.corner(k, 0).position, self.corner(k, 1).position, self.corner(k, 2).position]
    }

    /// The three corners of face `k` on a screen of `width` by `height`
    /// pixels.
    pub open spec fn points(self, k: int, width: int, height: int) -> [Vec3<i32>; 3] {
        [
            to_screen(self.corner(k, 0).position, width, height),
            to_screen(self.corner(k, 1).position, width, height),
            to_screen(self.corner(k, 2).position, width, height),
        ]
    }

    /// The texture coordinates of the three corners of face `k`.
    pub open spec fn texture_points(self, k: int) -> [Vec2<u16>; 3] {
        [self.corner(k, 0).texture, self.corner(k, 1).texture, self.corner(k, 2).texture]
    }

    /// The light that falls on face `k` from the direction `light`.
    pub open spec fn light_on(self, k: int, light: Vec3<i16>) -> Intensity {
        intensity_of(self.world(k), light)
    }

    /// Whether face `k` is drawn by the shading renderers: it exists, names
    /// three vertices, and is turned towards the light.
    pub open spec fn is_lit(self, k: int, light: Vec3<i16>) -> bool {
        self.has_face(k) && faces_light(self.world(k), light)
    }
}

/// The pixel column and row of a vertex on a screen of `width` by `height`
/// pixels.
pub open spec fn pixel_of(v: Vertex, width: int, height: int) -> Vec2<isize> {
    Vec2(
        to_screen(v.position, width, height).0 as isize,
        to_screen(v.position, width, height).1 as isize,
    )
}

/// Whether the pixel `(x, y)` lies on the outline of face `k` of `mesh` on a
/// screen of `width` by `height` pixels: on the line between two of its
/// corners.
pub open spec fn on_outline(mesh: Mesh, k: int, width: int, height: int, x: int, y: int) -> bool {
    let p0 = pixel_of(mesh.corner(k, 0), width, height);
    let p1 = pixel_of(mesh.corner(k, 1), width, height);
    let p2 = pixel_of(mesh.corner(k, 2), width, height);
    &&& mesh.has_face(k)
    &&& (on_line(p0, p1, x, y) || on_line(p1, p2, x, y) || on_line(p2, p0, x, y))
}

/// Whether the pixel `(x, y)` lies on the outline of one of the first `n`
/// faces of `mesh`, on a screen of `width` by `height` pixels.
pub open spec fn on_wireframe(mesh: Mesh, n: int, width: int, height: int, x: int, y: int) -> bool {
    exists|k: int| 0 <= k < n && on_outline(mesh, k, width, height, x, y)
}

/// The frame after the first `n` faces of `mesh` were drawn in `color` under
/// the light `light`, each lit face through the depth test in the color lit
/// with the intensity of the face. The faces are brought to the screen of
/// the size of the image of `start`.
pub open spec fn flat_shaded(
    mesh: Mesh,
    n: int,
    start: Frame,
    color: Color,
    light: Vec3<i16>,
) -> Frame
    decreases n,
{
    if n <= 0 {
        start
    } else {
        let before = flat_shaded(mesh, n - 1, start, color, light);
        if mesh.is_lit(n - 1, light) {
            before.drawn(
                mesh.points(n - 1, start.image.width as int, start.image.height as int),
                color.shaded(mesh.light_on(n - 1, light)),
            )
        } else {
            before
        }
    }
}

/// The frame after the first `n` faces of `mesh` were drawn from `texture`
/// under the light `light`, each lit face through the depth test with the
/// intensity of the face. The faces are brought to the screen of the size of
/// the image of `start`.
pub open spec fn texture_shaded(
    mesh: Mesh,
    n: int,
    start: Frame,
    texture: Grid<Color>,
    light: Vec3<i16>,
) -> Frame
    decreases n,
{
    if n <= 0 {
        start
    } else {
        let before = texture_shaded(mesh, n - 1, start, texture, light);
        if mesh.is_lit(n - 1, light) {
            before.drawn_textured(
                mesh.points(n - 1, start.image.width as int, start.image.height as int),
                texture,
                mesh.texture_points(n - 1),
                mesh.light_on(n - 1, light),
            )
        } else {
            before
        }
    }
}

/// The corners of face `k`, if the face names three vertices of the mesh.
fn corners(model: &Mesh, k: usize) -> (found: Option<[Vertex; 3]>)
    requires
        0 <= k < model.faces(),
    ensures
        found is Some <==> model.has_face(k as int),
        found matches Some(c) ==> c[0] == model.corner(k as int, 0) && c[1] == model.corner(
            k as int,
            1,
        ) && c[2] == model.corner(k as int, 2),
{
    let ghost len = model.indices.len();
    let i0 = model.indices[3 * k] as usize;
    let i1 = model.indices[3 * k + 1] as usize;
    let i2 = model.indices[3 * k + 2] as usize;
    let n = model.vertices.len();
    if i0 < n && i1 < n && i2 < n {
        Some([model.vertices[i0], model.vertices[i1], model.vertices[i2]])
    } else {
        None
    }
}

fn pixel(v: &Vertex, width: u32, height: u32) -> (p: Vec2<isize>)
    ensures
        p == pixel_of(*v, width as int, height as int),
{
    let screen = world_to_screen_coords(v.position, width, height);
    Vec2(screen.0 as isize, screen.1 as isize)
}

/// Draws the outline of every face of `model` in `color`: the three lines
/// between its corners, brought to the screen of the size of the image.
pub fn render_wireframe(model: &Mesh, image: &mut Image, color: Color)
    ensures
        final(image)@ == old(image)@.paint(
            |x: int, y: int|
                on_wireframe(
                    *model,
                    model.faces(),
                    old(image)@.width as int,
                    old(image)@.height as int,
                    x,
                    y,
                ),
            color,
        ),
{
    let ghost before = image@;
    let width = image.width();
    let height = image.height();
    let faces = model.indices.len() / 3;
    proof {
        image.lemma_view();
    }
    let mut k: usize = 0;
    while k < faces
        invariant
            k <= faces,
            faces == model.faces(),
            before.wf(),
            image@.wf(),
            image@.width == before.width == width,
            image@.height == before.height == height,
            forall|x: int, y: int|
                before.contains(x, y) ==> #[trigger] image@.at(x, y) == if on_wireframe(
                    *model,
                    k as int,
                    width as int,
                    height as int,
                    x,
                    y,
                ) {
                    color
                } else {
                    before.at(x, y)
                },
        decreases faces - k,
    {
        let ghost start = image@;
        if let Some(c) = corners(model, k) {
            let p0 = pixel(&c[0], width, height);
            let p1 = pixel(&c[1], width, height);
            let p2 = pixel(&c[2], width, height);
            line(p0, p1, image, color);
            let ghost first = image@;
            line(p1, p2, image, color);
            let ghost second = image@;
            line(p2, p0, image, color);
            proof {
                assert forall|x: int, y: int| before.contains(x, y) implies #[trigger] image@.at(
                    x,
                    y,
                ) == if on_wireframe(*model, k + 1, width as int, height as int, x, y) {
                    color
                } else {
                    before.at(x, y)
                } by {
                    lemma_paint_at(start, |x: int, y: int| on_line(p0, p1, x, y), color, x, y);
                    lemma_paint_at(first, |x: int, y: int| on_line(p1, p2, x, y), color, x, y);
                    lemma_paint_at(second, |x: int, y: int| on_line(p2, p0, x, y), color, x, y);
                    lemma_wireframe_grows(*model, k as int, width as int, height as int, x, y);
                }
                lemma_paint_wf(start, |x: int, y: int| on_line(p0, p1, x, y), color);
                lemma_paint_wf(first, |x: int, y: int| on_line(p1, p2, x, y), color);
                lemma_paint_wf(second, |x: int, y: int| on_line(p2, p0, x, y), color);
            }
        } else {
            proof {
                assert forall|x: int, y: int| before.contains(x, y) implies #[trigger] image@.at(
                    x,
                    y,
                ) == if on_wireframe(*model, k + 1, width as int, height as int, x, y) {
                    color
                } else {
                    before.at(x, y)
                } by {
                    lemma_wireframe_grows(*model, k as int, width as int, height as int, x, y);
                }
            }
        }
        k += 1;
    }
    proof {
        let mask = |x: int, y: int|
            on_wireframe(*model, model.faces(), before.width as int, before.height as int, x, y);
        let target = before.paint(mask, color);
        assert forall|x: int, y: int| image@.contains(x, y) implies image@.at(x, y) == target.at(
            x,
            y,
        ) by {
            lemma_paint_at(before, mask, color, x, y);
        }
        lemma_paint_wf(before, mask, color);
        lemma_grid_ext(image@, target);
    }
}

/// Painting keeps the size of a grid.
proof fn lemma_paint_wf<T>(g: Grid<T>, mask: spec_fn(int, int) -> bool, value: T)
    requires
        g.wf(),
    ensures
        g.paint(mask, value).wf(),
        g.paint(mask, value).width == g.width,
        g.paint(mask, value).height == g.height,
{
}

/// The wireframe of one more face is the wireframe so far and the outline of
/// that face.
proof fn lemma_wireframe_grows(mesh: Mesh, n: int, width: int, height: int, x: int, y: int)
    requires
        0 <= n,
    ensures
        on_wireframe(mesh, n + 1, width, height, x, y) <==> on_wireframe(
            mesh,
            n,
            width,
            height,
            x,
            y,
        ) || on_outline(mesh, n, width, height, x, y),
{
    if on_wireframe(mesh, n + 1, width, height, x, y) {
        let k = choose|k: int| 0 <= k < n + 1 && on_outline(mesh, k, width, height, x, y);
        if k < n {
            assert(on_wireframe(mesh, n, width, height, x, y));
        }
    }
    if on_wireframe(mesh, n, width, height, x, y) {
        let k = choose|k: int| 0 <= k < n && on_outline(mesh, k, width, height, x, y);
        assert(0 <= k < n + 1 && on_outline(mesh, k, width, height, x, y));
    }
    if on_outline(mesh, n, width, height, x, y) {
        assert(0 <= n < n + 1 && on_outline(mesh, n, width, height, x, y));
    }
}

/// A mesh without a lit face leaves the frame as it was.
pub proof fn lemma_unlit_mesh_is_not_drawn(
    mesh: Mesh,
    n: int,
    start: Frame,
    color: Color,
    texture: Grid<Color>,
    light: Vec3<i16>,
)
    requires
        forall|k: int| 0 <= k < n ==> !mesh.is_lit(k, light),
    ensures
        flat_shaded(mesh, n, start, color, light) == start,
        texture_shaded(mesh, n, start, texture, light) == start,
    decreases n,
{
    if n > 0 {
        lemma_unlit_mesh_is_not_drawn(mesh, n - 1, start, color, texture, light);
    }
}

/// The corners of a face in model space.
fn world_of(c: &[Vertex; 3]) -> (world: [Vec3<i16>; 3])
    ensures
        world[0] == c[0].position,
        world[1] == c[1].position,
        world[2] == c[2].position,
{
    [c[0].position, c[1].position, c[2].position]
}

/// The corners of a face on a screen of `width` by `height` pixels.
fn screen_of(c: &[Vertex; 3], width: u32, height: u32) -> (pts: [Vec3<i32>; 3])
    ensures
        pts[0] == to_screen(c[0].position, width as int, height as int),
        pts[1] == to_screen(c[1].position, width as int, height as int),
        pts[2] == to_screen(c[2].position, width as int, height as int),
{
    [
        world_to_screen_coords(c[0].position, width, height),
        world_to_screen_coords(c[1].position, width, height),
        world_to_screen_coords(c[2].position, width, height),
    ]
}

/// Draws every face of `model` that is turned towards the light through a
/// fresh depth buffer, in `color` lit with the intensity of the face: the dot
/// product of its normal, brought to length one, with `light_dir`. A face
/// that is not turned towards the light is passed over.
pub fn render_flat_shading(model: &Mesh, image: &mut Image, color: Color, light_dir: Vec3<i16>)
    ensures
        final(image)@ == flat_shaded(
            *model,
            model.faces(),
            Frame {
                image: old(image)@,
                depths: Grid::filled(old(image)@.width, old(image)@.height, i64::MIN),
            },
            color,
            light_dir,
        ).image,
{
    let mut zbuffer = DepthBuffer::for_image(image);
    let ghost start = Frame { image: image@, depths: zbuffer@ };
    let width = image.width();
    let height = image.height();
    let faces = model.indices.len() / 3;
    let mut k: usize = 0;
    while k < faces
        invariant
            k <= faces,
            faces == model.faces(),
            width == start.image.width,
            height == start.image.height,
            (Frame { image: image@, depths: zbuffer@ }) == flat_shaded(
                *model,
                k as int,
                start,
                color,
                light_dir,
            ),
        decreases faces - k,
    {
        if let Some(c) = corners(model, k) {
            let world = world_of(&c);
            assert(world == model.world(k as int));
            if is_lit(world, light_dir) {
                let light = intensity(world, light_dir);
                let pts = screen_of(&c, width, height);
                assert(pts == model.points(k as int, width as int, height as int));
                triangle_with_zbuffer(pts, &mut zbuffer, image, color * light);
            }
        }
        k += 1;
    }
}

/// Draws every face of `model` that is turned towards the light through a
/// fresh depth buffer, from `texture` lit with the intensity of the face: the
/// dot product of its normal, brought to length one, with `light_dir`. A
/// face that is not turned towards the light is passed over.
pub fn render_flat_shading_with_texture(
    model: &Mesh,
    image: &mut Image,
    texture: &Image,
    light_dir: Vec3<i16>,
)
    ensures
        final(image)@ == texture_shaded(
            *model,
            model.faces(),
            Frame {
                image: old(image)@,
                depths: Grid::filled(old(image)@.width, old(image)@.height, i64::MIN),
            },
            texture@,
            light_dir,
        ).image,
{
    let mut zbuffer = DepthBuffer::for_image(image);
    let ghost start = Frame { image: image@, depths: zbuffer@ };
    let width = image.width();
    let height = image.height();
    let faces = model.indices.len() / 3;
    let mut k: usize = 0;
    while k < faces
        invariant
            k <= faces,
            faces == model.faces(),
            width == start.image.width,
            height == start.image.height,
            (Frame { image: image@, depths: zbuffer@ }) == texture_shaded(
                *model,
                k as int,
                start,
                texture@,
                light_dir,
            ),
        decreases faces - k,
    {
        if let Some(c) = corners(model, k) {
            let world = world_of(&c);
            assert(world == model.world(k as int));
            if is_lit(world, light_dir) {
                let light = intensity(world, light_dir);
                let pts = screen_of(&c, width, height);
                let coords = [c[0].texture, c[1].texture, c[2].texture];
                assert(pts == model.points(k as int, width as int, height as int));
                assert(coords == model.texture_points(k as int));
                triangle_with_zbuffer_with_texture(
                    pts,
                    &mut zbuffer,
                    image,
                    texture,
                    coords,
                    light,
                );
            }
        }
        k += 1;
    }
}

} // verus!

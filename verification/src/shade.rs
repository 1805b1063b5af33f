//! From model space to the screen: the projection of a vertex, and the light
//! that falls on a face.
//!
//! Model coordinates are fixed-point numbers of sixteen bits: `16384` stands
//! for one, so that a coordinate covers the range from minus two to just
//! under two.

use crate::arith::{floor_div, lemma_floor};
use crate::color::Intensity;
use crate::vec::Vec3;
use vstd::prelude::*;

verus! {

/// The model coordinate that stands for one.
pub const WORLD_ONE: i16 = 16384;

/// How many depth steps the screen tells apart per step of model depth.
pub const DEPTH_STEPS: i32 = 65536;

/// `v` held to the range of 32 bits.
pub open spec fn held(v: int) -> int {
    if v < i32::MIN {
        i32::MIN as int
    } else if v > i32::MAX {
        i32::MAX as int
    } else {
        v
    }
}

/// The pixel on which the model coordinate `c` falls along an axis of `size`
/// pixels: minus one falls on pixel zero and plus one on pixel `size`, and
/// the pixel is rounded down and held to 32 bits.
pub open spec fn screen_coord(c: int, size: int) -> int {
    held(((c + 16384) * size) / 32768)
}

/// The vertex `p` in screen space, on a screen of `width` by `height`
/// pixels: its pixel column and row, and its depth in depth steps.
pub open spec fn to_screen(p: Vec3<i16>, width: int, height: int) -> Vec3<i32> {
    Vec3(
        screen_coord(p.0 as int, width) as i32,
        screen_coord(p.1 as int, height) as i32,
        (p.2 * 65536) as i32,
    )
}

/// The cross product of the edges of a face that leave its first corner, the
/// one to the third corner first: a vector that stands on the face.
pub open spec fn face_normal(world: [Vec3<i16>; 3]) -> (int, int, int) {
    let ax = world[2].0 - world[0].0;
    let ay = world[2].1 - world[0].1;
    let az = world[2].2 - world[0].2;
    let bx = world[1].0 - world[0].0;
    let by = world[1].1 - world[0].1;
    let bz = world[1].2 - world[0].2;
    (ay * bz - az * by, az * bx - ax * bz, ax * by - ay * bx)
}

/// The dot product of two vectors.
pub open spec fn dot(a: (int, int, int), b: (int, int, int)) -> int {
    a.0 * b.0 + a.1 * b.1 + a.2 * b.2
}

/// Whether the face `world` is turned towards the light that shines in the
/// direction `light`: the normal of the face and the light make a dot product
/// above zero. This is decided on the exact numbers, before any rounding.
pub open spec fn faces_light(world: [Vec3<i16>; 3], light: Vec3<i16>) -> bool {
    dot(face_normal(world), (light.0 as int, light.1 as int, light.2 as int)) > 0
}

/// Whether `r` is the square root of `v`, rounded down.
pub open spec fn is_root(v: int, r: int) -> bool {
    r >= 0 && r * r <= v < (r + 1) * (r + 1)
}

/// The square root of `v`, rounded down.
pub open spec fn root(v: int) -> int {
    choose|r: int| is_root(v, r)
}

/// The light that falls on the face `world` from the direction `light`: the
/// dot product of the normal of the face, brought to length one, with the
/// light. The length of the normal is its square root rounded down, the
/// intensity is rounded down and held to 32 bits, and a face without area has
/// the intensity zero.
pub open spec fn intensity_of(world: [Vec3<i16>; 3], light: Vec3<i16>) -> Intensity {
    let n = face_normal(world);
    let length = root(dot(n, n));
    if length == 0 {
        Intensity(0)
    } else {
        Intensity(
            held((4 * dot(n, (light.0 as int, light.1 as int, light.2 as int))) / length) as i32,
        )
    }
}

/// No number has two square roots.
pub proof fn lemma_root_is_unique(v: int, r: int)
    requires
        is_root(v, r),
    ensures
        root(v) == r,
{
    let other = root(v);
    assert(is_root(v, other));
    if other < r {
        assert((other + 1) * (other + 1) <= r * r) by (nonlinear_arith)
            requires
                0 <= other + 1 <= r,
        ;
    }
    if r < other {
        assert((r + 1) * (r + 1) <= other * other) by (nonlinear_arith)
            requires
                0 <= r + 1 <= other,
        ;
    }
}

fn hold(v: i128) -> (h: i32)
    ensures
        h == held(v as int),
{
    if v < i32::MIN as i128 {
        i32::MIN
    } else if v > i32::MAX as i128 {
        i32::MAX
    } else {
        v as i32
    }
}

fn axis_to_screen(c: i16, size: u32) -> (s: i32)
    ensures
        s == screen_coord(c as int, size as int),
{
    let shifted = c as i128 + 16384;
    assert(-0x4000_0000_0000 <= shifted * size <= 0xc000_0000_0000) by (nonlinear_arith)
        requires
            -16384 <= shifted <= 49151,
            0 <= size <= 0xffff_ffff,
    ;
    hold(floor_div(shifted * size as i128, 32768))
}

/// Brings a vertex from model space to the screen: `x` and `y` from `-1..1`
/// to the pixels of a `width` by `height` image, and the depth to depth
/// steps.
pub fn world_to_screen_coords(p: Vec3<i16>, width: u32, height: u32) -> (s: Vec3<i32>)
    ensures
        s == to_screen(p, width as int, height as int),
{
    Vec3(axis_to_screen(p.0, width), axis_to_screen(p.1, height), p.2 as i32 * 65536)
}

/// A product of two differences of model coordinates.
fn product(a: i64, b: i64) -> (p: i64)
    requires
        -0x1_0000 <= a <= 0x1_0000,
        -0x1_0000 <= b <= 0x1_0000,
    ensures
        p == a * b,
        -0x1_0000_0000 <= p <= 0x1_0000_0000,
{
    assert(-0x1_0000_0000 <= a * b <= 0x1_0000_0000) by (nonlinear_arith)
        requires
            -0x1_0000 <= a <= 0x1_0000,
            -0x1_0000 <= b <= 0x1_0000,
    ;
    a * b
}

/// A product of two components of normals, or of a normal and a light.
fn wide_product(a: i128, b: i128) -> (p: i128)
    requires
        -0x2_0000_0000 <= a <= 0x2_0000_0000,
        -0x2_0000_0000 <= b <= 0x2_0000_0000,
    ensures
        p == a * b,
        0 <= a * a,
        -0x4_0000_0000_0000_0000 <= p <= 0x4_0000_0000_0000_0000,
{
    assert(-0x4_0000_0000_0000_0000 <= a * b <= 0x4_0000_0000_0000_0000 && 0 <= a * a)
        by (nonlinear_arith)
        requires
            -0x2_0000_0000 <= a <= 0x2_0000_0000,
            -0x2_0000_0000 <= b <= 0x2_0000_0000,
    ;
    a * b
}

/// The square root of `v`, rounded down.
fn square_root(v: i128) -> (r: i128)
    requires
        0 <= v <= 0xc_0000_0000_0000_0000,
    ensures
        r == root(v as int),
        0 <= r <= 0x4_0000_0000,
{
    let mut low: i128 = 0;
    let mut high: i128 = 0x4_0000_0001;
    assert(0x4_0000_0001 * 0x4_0000_0001 > 0xc_0000_0000_0000_0000);
    while high - low > 1
        invariant
            0 <= low < high <= 0x4_0000_0001,
            low * low <= v < high * high,
        decreases high - low,
    {
        let middle = low + (high - low) / 2;
        assert(0 <= middle * middle <= 0x4_0000_0001 * 0x4_0000_0001) by (nonlinear_arith)
            requires
                0 <= middle <= 0x4_0000_0001,
        ;
        if middle * middle <= v {
            low = middle;
        } else {
            high = middle;
        }
    }
    proof {
        lemma_root_is_unique(v as int, low as int);
    }
    low
}

/// The normal of a face as the shading holds it.
struct Normal {
    x: i128,
    y: i128,
    z: i128,
}

impl Normal {
    spec fn model(self) -> (int, int, int) {
        (self.x as int, self.y as int, self.z as int)
    }

    spec fn wf(self) -> bool {
        &&& -0x2_0000_0000 <= self.x <= 0x2_0000_0000
        &&& -0x2_0000_0000 <= self.y <= 0x2_0000_0000
        &&& -0x2_0000_0000 <= self.z <= 0x2_0000_0000
    }

    /// The normal of the face `world`.
    fn of(world: &[Vec3<i16>; 3]) -> (n: Normal)
        ensures
            n.wf(),
            n.model() == face_normal(*world),
    {
        let ax = world[2].0 as i64 - world[0].0 as i64;
        let ay = world[2].1 as i64 - world[0].1 as i64;
        let az = world[2].2 as i64 - world[0].2 as i64;
        let bx = world[1].0 as i64 - world[0].0 as i64;
        let by = world[1].1 as i64 - world[0].1 as i64;
        let bz = world[1].2 as i64 - world[0].2 as i64;
        Normal {
            x: (product(ay, bz) - product(az, by)) as i128,
            y: (product(az, bx) - product(ax, bz)) as i128,
            z: (product(ax, by) - product(ay, bx)) as i128,
        }
    }

    /// The dot product with the light `light`.
    fn dot(&self, light: Vec3<i16>) -> (d: i128)
        requires
            self.wf(),
        ensures
            d == dot(self.model(), (light.0 as int, light.1 as int, light.2 as int)),
            -0xc_0000_0000_0000_0000 <= d <= 0xc_0000_0000_0000_0000,
    {
        wide_product(self.x, light.0 as i128) + wide_product(self.y, light.1 as i128)
            + wide_product(self.z, light.2 as i128)
    }
}

/// Whether the face `world` is turned towards the light that shines in the
/// direction `light_dir`. Only such a face is drawn by the shading renderers.
pub fn is_lit(world: [Vec3<i16>; 3], light_dir: Vec3<i16>) -> (lit: bool)
    ensures
        lit == faces_light(world, light_dir),
{
    Normal::of(&world).dot(light_dir) > 0
}

/// The light that falls on the face `world` from the direction `light_dir`.
pub fn intensity(world: [Vec3<i16>; 3], light_dir: Vec3<i16>) -> (k: Intensity)
    ensures
        k == intensity_of(world, light_dir),
{
    let n = Normal::of(&world);
    let squared = wide_product(n.x, n.x) + wide_product(n.y, n.y) + wide_product(n.z, n.z);
    let length = square_root(squared);
    if length == 0 {
        Intensity(0)
    } else {
        Intensity(hold(floor_div(4 * n.dot(light_dir), length)))
    }
}

/// A face turned towards the light has an intensity of zero or more: zero
/// where the light is too weak to show after rounding.
pub proof fn lemma_lit_face_is_not_dark(world: [Vec3<i16>; 3], light: Vec3<i16>)
    requires
        faces_light(world, light),
    ensures
        intensity_of(world, light).0 >= 0,
{
    let n = face_normal(world);
    let d = dot(n, (light.0 as int, light.1 as int, light.2 as int));
    let length = root(dot(n, n));
    if length != 0 {
        assert(0 <= n.0 * n.0 && 0 <= n.1 * n.1 && 0 <= n.2 * n.2) by (nonlinear_arith);
        lemma_root_exists(dot(n, n));
        assert(length > 0);
        lemma_floor(4 * d, length, 0);
    }
}

/// Every number from zero on has a square root.
proof fn lemma_root_exists(v: int)
    requires
        v >= 0,
    ensures
        is_root(v, root(v)),
    decreases v,
{
    if v == 0 {
        assert(is_root(0, 0));
    } else {
        lemma_root_exists(v - 1);
        let r = root(v - 1);
        if (r + 1) * (r + 1) <= v {
            assert((r + 2) * (r + 2) > (r + 1) * (r + 1)) by (nonlinear_arith)
                requires
                    r >= 0,
            ;
            assert(is_root(v, r + 1));
        } else {
            assert(is_root(v, r));
        }
    }
}

} // verus!

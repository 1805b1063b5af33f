use tinyrenderer::shade::{DEPTH_STEPS, WORLD_ONE};
use tinyrenderer::{intensity, is_lit, world_to_screen_coords, Intensity, Vec3};

const ONE: i16 = 16384;

fn towards_viewer() -> Vec3<i16> {
    Vec3(0, 0, -ONE)
}

#[test]
fn world_constants() {
    assert_eq!(WORLD_ONE, 16384);
    assert_eq!(DEPTH_STEPS, 65536);
}

#[test]
fn the_middle_of_the_world_is_the_middle_of_the_screen() {
    assert_eq!(world_to_screen_coords(Vec3(0, 0, 0), 800, 800), Vec3(400, 400, 0));
}

#[test]
fn minus_one_to_one_covers_the_screen() {
    assert_eq!(
        world_to_screen_coords(Vec3(-ONE, -ONE, -ONE), 800, 800),
        Vec3(0, 0, -1073741824)
    );
    assert_eq!(world_to_screen_coords(Vec3(ONE, ONE, ONE), 800, 800), Vec3(800, 800, 1073741824));
}

#[test]
fn projection_rounds_down() {
    assert_eq!(
        world_to_screen_coords(Vec3(-ONE - 1, ONE - 1, 5), 800, 600),
        Vec3(-1, 599, 327680)
    );
}

#[test]
fn projection_is_held_to_32_bits() {
    assert_eq!(
        world_to_screen_coords(Vec3(32767, -32768, -32768), 4_000_000_000, 7),
        Vec3(i32::MAX, -4, i32::MIN)
    );
}

#[test]
fn a_face_turned_to_the_light_is_fully_lit() {
    let face = [Vec3(0, 0, 0), Vec3(ONE, 0, 0), Vec3(0, ONE, 0)];
    assert_eq!(intensity(face, towards_viewer()), Intensity(65536));
}

#[test]
fn a_face_turned_away_has_a_negative_intensity() {
    let face = [Vec3(0, 0, 0), Vec3(0, ONE, 0), Vec3(ONE, 0, 0)];
    assert_eq!(intensity(face, towards_viewer()), Intensity(-65536));
}

#[test]
fn a_tilted_face_is_partly_lit() {
    // Tilted by 45 degrees: the intensity is the square root of one half.
    let up = [Vec3(0, 0, 0), Vec3(ONE, 0, 0), Vec3(0, ONE, ONE)];
    let down = [Vec3(0, 0, 0), Vec3(ONE, 0, 0), Vec3(0, ONE, -ONE)];
    assert_eq!(intensity(up, towards_viewer()), Intensity(46340));
    assert_eq!(intensity(down, towards_viewer()), Intensity(46340));
}

#[test]
fn a_face_seen_from_the_side_is_unlit() {
    let face = [Vec3(0, 0, 0), Vec3(ONE, 0, 0), Vec3(0, 0, ONE)];
    assert_eq!(intensity(face, towards_viewer()), Intensity(0));
}

#[test]
fn a_face_without_area_is_unlit() {
    let line = [Vec3(0, 0, 0), Vec3(ONE, 0, 0), Vec3(32767, 0, 0)];
    let point = [Vec3(1, 2, 3), Vec3(1, 2, 3), Vec3(1, 2, 3)];
    assert_eq!(intensity(line, towards_viewer()), Intensity(0));
    assert_eq!(intensity(point, towards_viewer()), Intensity(0));
}

#[test]
fn the_length_of_the_normal_is_rounded_down() {
    // The normal is (0, 3, -3), of length 4 when rounded down.
    let face = [Vec3(0, 0, 0), Vec3(3, 0, 0), Vec3(0, 1, 1)];
    assert_eq!(intensity(face, towards_viewer()), Intensity(49152));
    let tiny = [Vec3(0, 0, 0), Vec3(1, 0, 0), Vec3(0, 1, 0)];
    assert_eq!(intensity(tiny, towards_viewer()), Intensity(65536));
}

#[test]
fn a_stronger_light_gives_a_higher_intensity() {
    let face = [Vec3(0, 0, 0), Vec3(ONE, 0, 0), Vec3(0, ONE, 0)];
    assert_eq!(intensity(face, Vec3(0, 0, -32768)), Intensity(131072));
    let widest = [Vec3(-32768, -32768, 0), Vec3(32767, -32768, 0), Vec3(-32768, 32767, 0)];
    assert_eq!(intensity(widest, Vec3(0, 0, -32768)), Intensity(131072));
}

#[test]
fn intensity_of_a_face_in_general_position() {
    let face = [Vec3(100, 200, 300), Vec3(5000, -300, 40), Vec3(-700, 9000, -1234)];
    assert_eq!(intensity(face, Vec3(1234, -5678, -9000)), Intensity(39022));
}

#[test]
fn a_face_is_lit_if_it_is_turned_to_the_light() {
    let towards = [Vec3(0, 0, 0), Vec3(ONE, 0, 0), Vec3(0, ONE, 0)];
    let away = [Vec3(0, 0, 0), Vec3(0, ONE, 0), Vec3(ONE, 0, 0)];
    let side = [Vec3(0, 0, 0), Vec3(ONE, 0, 0), Vec3(0, 0, ONE)];
    let point = [Vec3(1, 2, 3), Vec3(1, 2, 3), Vec3(1, 2, 3)];
    assert!(is_lit(towards, towards_viewer()));
    assert!(!is_lit(away, towards_viewer()));
    assert!(!is_lit(side, towards_viewer()));
    assert!(!is_lit(point, towards_viewer()));
    assert!(!is_lit(towards, Vec3(0, 0, 0)));
    assert!(!is_lit(towards, Vec3(0, 0, ONE)));
}

#[test]
fn a_face_is_lit_by_a_light_too_weak_to_show() {
    // The normal is (8192, 0, -8192 * 8192): the light from the side meets
    // it at an intensity above zero and under one 65536th.
    let face = [Vec3(0, 0, 0), Vec3(8192, 0, 1), Vec3(0, 8192, 0)];
    let weak = Vec3(1, 0, 0);
    assert!(is_lit(face, weak));
    assert_eq!(intensity(face, weak), Intensity(0));
    assert!(!is_lit(face, Vec3(-1, 0, 0)));
    assert_eq!(intensity(face, Vec3(-1, 0, 0)), Intensity(-1));
}

use u61q::moving_around::{
    move_elevation, move_forwards, move_sideways, rotate_horizontal, rotate_up, rotate_vertical,
    steer, Camera, REACH,
};
use u61q::controls::Intent;
use u61q::vec3::{V3, UNIT};

fn v(x: i64, y: i64, z: i64) -> V3 {
    V3 { x, y, z }
}

fn cam() -> Camera {
    Camera { eye: v(0, 0, 0), target: v(UNIT, 0, 0), up: v(0, 0, UNIT) }
}

fn look(c: &Camera) -> V3 {
    v(c.target.x - c.eye.x, c.target.y - c.eye.y, c.target.z - c.eye.z)
}

#[test]
fn moving_forwards_translates_eye_and_target() {
    let mut c = cam();
    move_forwards(&mut c, 512);
    assert_eq!(c.eye, v(512, 0, 0));
    assert_eq!(c.target, v(UNIT + 512, 0, 0));
    move_forwards(&mut c, -1000);
    assert_eq!(c.eye, v(-488, 0, 0));
}

#[test]
fn moving_sideways_goes_right() {
    let mut c = cam();
    move_sideways(&mut c, 100);
    assert_eq!(c.eye, v(0, -100, 0));
    assert_eq!(look(&c), v(UNIT, 0, 0));
}

#[test]
fn moving_up_follows_the_up_vector() {
    let mut c = cam();
    move_elevation(&mut c, 100);
    assert_eq!(c.eye, v(0, 0, 100));
    assert_eq!(c.target, v(UNIT, 0, 100));
}

#[test]
fn any_moves_keep_the_look_segment() {
    let mut c = Camera { eye: v(10, 20, 30), target: v(700, -300, 450), up: v(0, 0, UNIT) };
    let before = look(&c);
    for m in [5, -17, 300, -2, 1000] {
        move_forwards(&mut c, m);
        move_sideways(&mut c, -m);
        move_elevation(&mut c, m / 2);
        assert_eq!(look(&c), before);
    }
}

#[test]
fn moves_out_of_the_world_are_refused() {
    let mut c = Camera { eye: v(REACH - 10, 0, 0), target: v(REACH, 0, 0), up: v(0, 0, UNIT) };
    move_forwards(&mut c, 100);
    assert_eq!(c.eye, v(REACH - 10, 0, 0));
    assert_eq!(c.target, v(REACH, 0, 0));
}

#[test]
fn quarter_turn_about_up() {
    let mut c = cam();
    rotate_horizontal(&mut c, 0, UNIT);
    assert_eq!(c.eye, v(0, 0, 0));
    assert_eq!(c.target, v(0, UNIT, 0));
    assert_eq!(c.up, v(0, 0, UNIT));
}

#[test]
fn turning_onto_the_pole_is_refused() {
    let mut c = cam();
    rotate_vertical(&mut c, 0, UNIT);
    assert_eq!(c.target, v(UNIT, 0, 0));
    rotate_vertical(&mut c, 1019, 101);
    assert_ne!(c.target, v(UNIT, 0, 0));
    assert_eq!(c.eye, v(0, 0, 0));
}

#[test]
fn small_turns_nearly_keep_the_look_distance() {
    let mut c = Camera { eye: v(0, 0, 0), target: v(4 * UNIT, 0, 0), up: v(0, 0, UNIT) };
    for _ in 0..10 {
        rotate_horizontal(&mut c, 1024, 10);
    }
    let l = look(&c);
    let d2 = l.x * l.x + l.y * l.y + l.z * l.z;
    let want = 16 * UNIT * UNIT;
    assert!((d2 - want).abs() * 100 < want);
}

#[test]
fn rolling_turns_the_up_vector() {
    let mut c = cam();
    rotate_up(&mut c, 0, UNIT);
    assert_eq!(c.up, v(0, -UNIT, 0));
    assert_eq!(c.target, v(UNIT, 0, 0));
}

#[test]
fn horizontal_turn_uses_the_unit_up_axis() {
    let mut c = Camera { eye: v(0, 0, 0), target: v(UNIT, 0, 0), up: v(0, 0, 5) };
    rotate_horizontal(&mut c, 0, UNIT);
    assert_eq!(c.target, v(0, UNIT, 0));
    let mut d = Camera { eye: v(0, 0, 0), target: v(UNIT, 0, 0), up: v(0, 5, 0) };
    // one radian about y: cosine 553, sine 862
    rotate_horizontal(&mut d, 553, 862);
    let l = look(&d);
    let d2 = l.x * l.x + l.y * l.y + l.z * l.z;
    assert!((d2 - UNIT * UNIT).abs() * 100 < UNIT * UNIT);
}

#[test]
fn steering_applies_each_held_direction() {
    let mut c = cam();
    let i = Intent { forward: 1, sideways: 0, elevation: -1, roll: 0, yaw: 0, pitch: 0 };
    steer(&mut c, i, 10, 1024, 10);
    assert_eq!(c.eye, v(10, 0, -10));
    assert_eq!(look(&c), v(UNIT, 0, 0));
    let mut d = cam();
    let i = Intent { forward: 0, sideways: 0, elevation: 0, roll: 0, yaw: -1, pitch: 0 };
    steer(&mut d, i, 10, 0, UNIT);
    assert_eq!(d.target, v(0, -UNIT, 0));
    let mut e = cam();
    steer(&mut e, Intent { forward: 0, sideways: 0, elevation: 0, roll: 0, yaw: 0, pitch: 0 }, 10, 0, UNIT);
    assert_eq!(e.target, v(UNIT, 0, 0));
    assert_eq!(e.eye, v(0, 0, 0));
}

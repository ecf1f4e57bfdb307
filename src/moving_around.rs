//! The camera: eye, look target and up vector, moved by whole-segment
//! translations so that the look direction and distance never change.
use crate::vec3::{
    V3, within, unit_of, triple, tdiv, UNIT, sub_3, cross_3, nrmlz_3, tdiv_i64, lemma_short_cross,
};
use crate::controls::Intent;
use vstd::prelude::*;

verus! {

/// Eye and target stay inside the box `[-REACH, REACH]^3` (2048 units), so
/// that every rotation's arithmetic fits in `i64`. A move or turn that
/// would carry either outside is refused and changes nothing.
pub const REACH: i64 = 2097152;

pub struct Camera {
    pub eye: V3,
    pub target: V3,
    pub up: V3,
}

impl Camera {
    /// Eye and target lie in the world box; the up vector has coordinates
    /// no larger than `UNIT`.
    pub open spec fn wf(&self) -> bool {
        within(self.eye, REACH as int) && within(self.target, REACH as int) && within(self.up, UNIT as int)
    }
}

/// `a - b` as a vector (exact for points of the world box).
pub open spec fn diff(a: V3, b: V3) -> V3 {
    V3 { x: (a.x - b.x) as i64, y: (a.y - b.y) as i64, z: (a.z - b.z) as i64 }
}

pub open spec fn as_v3(t: (int, int, int)) -> V3 {
    V3 { x: t.0 as i64, y: t.1 as i64, z: t.2 as i64 }
}

pub open spec fn cross(a: V3, b: V3) -> V3 {
    V3 {
        x: (a.y * b.z - a.z * b.y) as i64,
        y: (a.z * b.x - a.x * b.z) as i64,
        z: (a.x * b.y - a.y * b.x) as i64,
    }
}

/// The offset of a move by `m` along `dir`, a vector of length `UNIT`.
pub open spec fn step_along(dir: (int, int, int), m: int) -> (int, int, int) {
    (tdiv(dir.0 * m, UNIT as int), tdiv(dir.1 * m, UNIT as int), tdiv(dir.2 * m, UNIT as int))
}

/// The unit forward direction, from eye to target.
pub open spec fn forward(c: Camera) -> (int, int, int) {
    unit_of(diff(c.target, c.eye))
}

/// The unit right direction, forward crossed with up.
pub open spec fn right(c: Camera) -> (int, int, int) {
    unit_of(cross(as_v3(forward(c)), c.up))
}

pub open spec fn shifted(p: V3, d: (int, int, int)) -> (int, int, int) {
    (p.x + d.0, p.y + d.1, p.z + d.2)
}

/// `b` is `a` translated by `d` when both ends stay in the world box, and
/// `a` unchanged otherwise; the up vector is kept.
pub open spec fn translated(a: Camera, b: Camera, d: (int, int, int)) -> bool {
    let inside = within(as_v3(shifted(a.eye, d)), REACH as int) && within(
        as_v3(shifted(a.target, d)),
        REACH as int,
    ) && shifted(a.eye, d) == triple(as_v3(shifted(a.eye, d))) && shifted(a.target, d) == triple(
        as_v3(shifted(a.target, d)),
    );
    &&& b.up == a.up
    &&& inside ==> triple(b.eye) == shifted(a.eye, d) && triple(b.target) == shifted(a.target, d)
    &&& !inside ==> b.eye == a.eye && b.target == a.target
}


/// `b` is `a` moved by `m` along its forward direction.
pub open spec fn moved_forwards(a: Camera, b: Camera, m: int) -> bool {
    translated(a, b, step_along(forward(a), m))
}

/// `b` is `a` moved by `m` along its right direction.
pub open spec fn moved_sideways(a: Camera, b: Camera, m: int) -> bool {
    translated(a, b, step_along(right(a), m))
}

/// `b` is `a` moved by `m` along its up vector.
pub open spec fn moved_elevation(a: Camera, b: Camera, m: int) -> bool {
    translated(a, b, step_along(triple(a.up), m))
}

/// The offset of a move by `m` along the unit vector `dir`.
fn step_vec(dir: V3, m: i64) -> (r: V3)
    requires
        within(dir, UNIT as int),
        -REACH <= m <= REACH,
    ensures
        triple(r) == step_along(triple(dir), m as int),
        within(r, REACH as int),
{
    proof {
        lemma_step_bound(dir.x as int, m as int);
        lemma_step_bound(dir.y as int, m as int);
        lemma_step_bound(dir.z as int, m as int);
    }
    V3 { x: tdiv_i64(dir.x * m, UNIT), y: tdiv_i64(dir.y * m, UNIT), z: tdiv_i64(dir.z * m, UNIT) }
}

proof fn lemma_step_bound(a: int, m: int)
    requires
        -UNIT <= a <= UNIT,
        -REACH <= m <= REACH,
    ensures
        -2147483648 <= a * m <= 2147483648,
        -REACH <= tdiv(a * m, UNIT as int) <= REACH,
{
    assert(-2147483648 <= a * m <= 2147483648) by (nonlinear_arith)
        requires
            -1024 <= a <= 1024,
            -2097152 <= m <= 2097152,
    ;
}

/// Moves eye and target together by `d`, unless one of them would leave
/// the world box, in which case nothing moves.
fn translate(cam: &mut Camera, d: V3)
    requires
        old(cam).wf(),
        within(d, REACH as int),
    ensures
        final(cam).wf(),
        translated(*old(cam), *final(cam), triple(d)),
{
    let e = cam.eye;
    let t = cam.target;
    let ne = V3 { x: e.x + d.x, y: e.y + d.y, z: e.z + d.z };
    let nt = V3 { x: t.x + d.x, y: t.y + d.y, z: t.z + d.z };
    if -REACH <= ne.x && ne.x <= REACH && -REACH <= ne.y && ne.y <= REACH && -REACH <= ne.z && ne.z
        <= REACH && -REACH <= nt.x && nt.x <= REACH && -REACH <= nt.y && nt.y <= REACH && -REACH
        <= nt.z && nt.z <= REACH {
        cam.eye = ne;
        cam.target = nt;
    }
}

/// Moves the camera by `m` along its forward direction.
pub fn move_forwards(cam: &mut Camera, m: i64)
    requires
        old(cam).wf(),
        -REACH <= m <= REACH,
    ensures
        final(cam).wf(),
        moved_forwards(*old(cam), *final(cam), m as int),
        final(cam).target.x - final(cam).eye.x == old(cam).target.x - old(cam).eye.x,
        final(cam).target.y - final(cam).eye.y == old(cam).target.y - old(cam).eye.y,
        final(cam).target.z - final(cam).eye.z == old(cam).target.z - old(cam).eye.z,
{
    let f = nrmlz_3(sub_3(cam.target, cam.eye));
    let d = step_vec(f, m);
    translate(cam, d);
}

/// Moves the camera by `m` along its right direction (forward crossed
/// with up).
pub fn move_sideways(cam: &mut Camera, m: i64)
    requires
        old(cam).wf(),
        -REACH <= m <= REACH,
    ensures
        final(cam).wf(),
        moved_sideways(*old(cam), *final(cam), m as int),
        final(cam).target.x - final(cam).eye.x == old(cam).target.x - old(cam).eye.x,
        final(cam).target.y - final(cam).eye.y == old(cam).target.y - old(cam).eye.y,
        final(cam).target.z - final(cam).eye.z == old(cam).target.z - old(cam).eye.z,
{
    let f = nrmlz_3(sub_3(cam.target, cam.eye));
    let c = cross_3(f, cam.up);
    proof {
        let u = cam.up;
        lemma_short_cross(f.y as int, u.z as int, f.z as int, u.y as int);
        lemma_short_cross(f.z as int, u.x as int, f.x as int, u.z as int);
        lemma_short_cross(f.x as int, u.y as int, f.y as int, u.x as int);
    }
    let r = nrmlz_3(c);
    let d = step_vec(r, m);
    translate(cam, d);
}

/// Moves the camera by `m` along its up vector, taken as `UNIT` long.
pub fn move_elevation(cam: &mut Camera, m: i64)
    requires
        old(cam).wf(),
        -REACH <= m <= REACH,
    ensures
        final(cam).wf(),
        moved_elevation(*old(cam), *final(cam), m as int),
        final(cam).target.x - final(cam).eye.x == old(cam).target.x - old(cam).eye.x,
        final(cam).target.y - final(cam).eye.y == old(cam).target.y - old(cam).eye.y,
        final(cam).target.z - final(cam).eye.z == old(cam).target.z - old(cam).eye.z,
{
    let d = step_vec(cam.up, m);
    translate(cam, d);
}


/// How close to the up vector the forward direction may turn: the largest
/// accepted dot product of the two unit vectors (about five degrees away).
pub const POLE: i64 = 1019 * UNIT;

/// One coordinate of `v` rotated about the unit axis `k` by the angle with
/// cosine `c / UNIT` and sine `s / UNIT` (Rodrigues' formula), given that
/// coordinate `vi` of `v`, of `k` (`ki`) and of `k x v` (`kvi`), and `d = k . v`.
pub open spec fn rot_coord(vi: int, kvi: int, ki: int, d: int, c: int, s: int) -> int {
    tdiv(vi * c, UNIT as int) + tdiv(kvi * s, UNIT * UNIT) + tdiv(ki * d * (UNIT - c), UNIT * UNIT * UNIT)
}

/// `v` rotated about the unit axis `k` by the angle with cosine `c / UNIT`
/// and sine `s / UNIT`.
pub open spec fn rot(v: V3, k: V3, c: int, s: int) -> (int, int, int) {
    let kv = (k.y * v.z - k.z * v.y, k.z * v.x - k.x * v.z, k.x * v.y - k.y * v.x);
    let d = k.x * v.x + k.y * v.y + k.z * v.z;
    (rot_coord(v.x as int, kv.0, k.x as int, d, c, s), rot_coord(v.y as int, kv.1, k.y as int, d, c, s),
    rot_coord(v.z as int, kv.2, k.z as int, d, c, s))
}

/// `b` is `a` with its target moved to `t` when `t` lies in the world box,
/// and `a` unchanged otherwise; eye and up are kept.
pub open spec fn retargeted(a: Camera, b: Camera, t: (int, int, int)) -> bool {
    let inside = within(as_v3(t), REACH as int) && t == triple(as_v3(t));
    &&& b.eye == a.eye
    &&& b.up == a.up
    &&& inside ==> triple(b.target) == t
    &&& !inside ==> b.target == a.target
}

proof fn lemma_mul_le(a: int, b: int, x: int, y: int)
    requires
        -x <= a <= x,
        -y <= b <= y,
    ensures
        -(x * y) <= a * b <= x * y,
{
    assert(-(x * y) <= a * b <= x * y) by (nonlinear_arith)
        requires
            -x <= a <= x,
            -y <= b <= y,
    ;
}

fn rot_coord_exec(vi: i64, kvi: i64, ki: i64, d: i64, c: i64, s: i64) -> (r: i64)
    requires
        -4194304 <= vi <= 4194304,
        -8589934592 <= kvi <= 8589934592,
        -UNIT <= ki <= UNIT,
        -17179869184 <= d <= 17179869184,
        -UNIT <= c <= UNIT,
        -UNIT <= s <= UNIT,
    ensures
        r == rot_coord(vi as int, kvi as int, ki as int, d as int, c as int, s as int),
        -67108864 <= r <= 67108864,
{
    proof {
        lemma_mul_le(vi as int, c as int, 4194304, 1024);
        lemma_mul_le(kvi as int, s as int, 8589934592, 1024);
        lemma_mul_le(ki as int, d as int, 1024, 17179869184);
        lemma_mul_le(ki * d, UNIT - c, 17592186044416, 2048);
    }
    let a = tdiv_i64(vi * c, UNIT);
    let b = tdiv_i64(kvi * s, 1048576);
    let e = tdiv_i64(ki * d * (UNIT - c), 1073741824);
    a + b + e
}

/// `v` rotated about the unit axis `k` by the angle with cosine `c / UNIT`
/// and sine `s / UNIT`.
fn rotate(v: V3, k: V3, c: i64, s: i64) -> (r: V3)
    requires
        within(v, 4194304),
        within(k, UNIT as int),
        -UNIT <= c <= UNIT,
        -UNIT <= s <= UNIT,
    ensures
        triple(r) == rot(v, k, c as int, s as int),
        within(r, 67108864),
{
    proof {
        lemma_mul_le(k.y as int, v.z as int, 1024, 4194304);
        lemma_mul_le(k.z as int, v.y as int, 1024, 4194304);
        lemma_mul_le(k.z as int, v.x as int, 1024, 4194304);
        lemma_mul_le(k.x as int, v.z as int, 1024, 4194304);
        lemma_mul_le(k.x as int, v.y as int, 1024, 4194304);
        lemma_mul_le(k.y as int, v.x as int, 1024, 4194304);
        lemma_mul_le(k.x as int, v.x as int, 1024, 4194304);
        lemma_mul_le(k.y as int, v.y as int, 1024, 4194304);
        lemma_mul_le(k.z as int, v.z as int, 1024, 4194304);
    }
    let kv = V3 { x: k.y * v.z - k.z * v.y, y: k.z * v.x - k.x * v.z, z: k.x * v.y - k.y * v.x };
    let d = k.x * v.x + k.y * v.y + k.z * v.z;
    V3 {
        x: rot_coord_exec(v.x, kv.x, k.x, d, c, s),
        y: rot_coord_exec(v.y, kv.y, k.y, d, c, s),
        z: rot_coord_exec(v.z, kv.z, k.z, d, c, s),
    }
}

/// Moves the target to `t` when it lies in the world box.
fn retarget(cam: &mut Camera, t: V3)
    requires
        old(cam).wf(),
    ensures
        final(cam).wf(),
        retargeted(*old(cam), *final(cam), triple(t)),
{
    if -REACH <= t.x && t.x <= REACH && -REACH <= t.y && t.y <= REACH && -REACH <= t.z && t.z <= REACH {
        cam.target = t;
    }
}

/// `c / UNIT` and `s / UNIT` are the cosine and sine of one angle, as
/// rounding them to integers leaves them: `c^2 + s^2` is `UNIT^2` within
/// `2 * UNIT`.
pub open spec fn is_turn(c: int, s: int) -> bool {
    &&& -UNIT <= c <= UNIT
    &&& -UNIT <= s <= UNIT
    &&& UNIT * UNIT - 2 * UNIT <= c * c + s * s <= UNIT * UNIT + 2 * UNIT
}

/// `b` is `a` with the look direction turned about the (normalized) up
/// vector.
pub open spec fn turned_horizontal(a: Camera, b: Camera, c: int, s: int) -> bool {
    retargeted(a, b, shifted(a.eye, rot(diff(a.target, a.eye), as_v3(unit_of(a.up)), c, s)))
}

/// `b` is `a` with the look direction turned about the right axis, unless
/// that would bring it within `POLE` of the up vector.
pub open spec fn turned_vertical(a: Camera, b: Camera, c: int, s: int) -> bool {
    let nf = rot(diff(a.target, a.eye), as_v3(right(a)), c, s);
    let u = unit_of(as_v3(nf));
    let dot = u.0 * a.up.x + u.1 * a.up.y + u.2 * a.up.z;
    &&& -POLE <= dot <= POLE ==> retargeted(a, b, shifted(a.eye, nf))
    &&& !(-POLE <= dot <= POLE) ==> b == a
}

/// `b` is `a` rolled: the up vector turned about the forward direction and
/// scaled back to length `UNIT`.
pub open spec fn rolled(a: Camera, b: Camera, c: int, s: int) -> bool {
    &&& b.eye == a.eye
    &&& b.target == a.target
    &&& triple(b.up) == unit_of(as_v3(rot(a.up, as_v3(forward(a)), c, s)))
}

/// Turns the look direction about the up vector (scaled to length `UNIT`)
/// by the angle with cosine `c / UNIT` and sine `s / UNIT`; the eye stays
/// where it is. A turn that would carry the target out of reach is refused.
pub fn rotate_horizontal(cam: &mut Camera, c: i64, s: i64)
    requires
        old(cam).wf(),
        is_turn(c as int, s as int),
    ensures
        final(cam).wf(),
        turned_horizontal(*old(cam), *final(cam), c as int, s as int),
{
    let f = sub_3(cam.target, cam.eye);
    let k = nrmlz_3(cam.up);
    let nf = rotate(f, k, c, s);
    let e = cam.eye;
    let t = V3 { x: e.x + nf.x, y: e.y + nf.y, z: e.z + nf.z };
    retarget(cam, t);
}

/// Turns the look direction about the right axis by the angle with cosine
/// `c / UNIT` and sine `s / UNIT`. A turn that would bring the forward
/// direction within `POLE` of the up vector, either way, is refused and
/// nothing changes; so is one that would carry the target out of reach.
pub fn rotate_vertical(cam: &mut Camera, c: i64, s: i64)
    requires
        old(cam).wf(),
        is_turn(c as int, s as int),
    ensures
        final(cam).wf(),
        turned_vertical(*old(cam), *final(cam), c as int, s as int),
{
    let f = sub_3(cam.target, cam.eye);
    let fu = nrmlz_3(f);
    let cr = cross_3(fu, cam.up);
    proof {
        let u = cam.up;
        lemma_short_cross(fu.y as int, u.z as int, fu.z as int, u.y as int);
        lemma_short_cross(fu.z as int, u.x as int, fu.x as int, u.z as int);
        lemma_short_cross(fu.x as int, u.y as int, fu.y as int, u.x as int);
    }
    let r = nrmlz_3(cr);
    let nf = rotate(f, r, c, s);
    let nu = nrmlz_3(nf);
    let u = cam.up;
    proof {
        lemma_mul_le(nu.x as int, u.x as int, 1024, 1024);
        lemma_mul_le(nu.y as int, u.y as int, 1024, 1024);
        lemma_mul_le(nu.z as int, u.z as int, 1024, 1024);
    }
    let dot = nu.x * u.x + nu.y * u.y + nu.z * u.z;
    if -POLE <= dot && dot <= POLE {
        let e = cam.eye;
        let t = V3 { x: e.x + nf.x, y: e.y + nf.y, z: e.z + nf.z };
        retarget(cam, t);
    }
}

/// Rolls the camera: turns the up vector about the forward direction by the
/// angle with cosine `c / UNIT` and sine `s / UNIT`, and scales it back to
/// length `UNIT`.
pub fn rotate_up(cam: &mut Camera, c: i64, s: i64)
    requires
        old(cam).wf(),
        is_turn(c as int, s as int),
    ensures
        final(cam).wf(),
        rolled(*old(cam), *final(cam), c as int, s as int),
{
    let f = nrmlz_3(sub_3(cam.target, cam.eye));
    let nu = rotate(cam.up, f, c, s);
    cam.up = nrmlz_3(nu);
}


/// One operation of a frame: `b` is `a` when its direction `sign` is 0.
pub open spec fn moved_if(a: Camera, b: Camera, sign: int, moved: bool) -> bool {
    if sign == 0 {
        b == a
    } else {
        moved
    }
}

/// `b` is `a` after the camera updates of one frame, through the
/// intermediate cameras `c1 .. c5`: a move forwards, sideways and up by
/// `step` times each direction of `i`, then a roll, a horizontal and a
/// vertical turn by the angle with cosine `c` and sine `s` times each
/// direction.
pub open spec fn frame_chain(
    a: Camera,
    c1: Camera,
    c2: Camera,
    c3: Camera,
    c4: Camera,
    c5: Camera,
    b: Camera,
    i: Intent,
    step: int,
    c: int,
    s: int,
) -> bool {
    &&& moved_if(a, c1, i.forward as int, moved_forwards(a, c1, signed(step, i.forward as int)))
    &&& moved_if(c1, c2, i.sideways as int, moved_sideways(c1, c2, signed(step, i.sideways as int)))
    &&& moved_if(c2, c3, i.elevation as int, moved_elevation(c2, c3, signed(step, i.elevation as int)))
    &&& moved_if(c3, c4, i.roll as int, rolled(c3, c4, c, signed(s, i.roll as int)))
    &&& moved_if(c4, c5, i.yaw as int, turned_horizontal(c4, c5, c, signed(s, i.yaw as int)))
    &&& moved_if(c5, b, i.pitch as int, turned_vertical(c5, b, c, signed(s, i.pitch as int)))
}

/// `s` with the sign of the direction `d` (which is not 0).
pub open spec fn signed(s: int, d: int) -> int {
    if d < 0 {
        -s
    } else {
        s
    }
}

pub open spec fn is_direction(d: i64) -> bool {
    -1 <= d <= 1
}

/// The camera updates of one frame, in the order forward, sideways,
/// elevation, roll, horizontal turn, vertical turn; each is applied in the
/// direction that `i` gives, and skipped where that direction is 0.
pub fn steer(cam: &mut Camera, i: Intent, step: i64, c: i64, s: i64)
    requires
        old(cam).wf(),
        is_direction(i.forward),
        is_direction(i.sideways),
        is_direction(i.elevation),
        is_direction(i.roll),
        is_direction(i.yaw),
        is_direction(i.pitch),
        -REACH <= step <= REACH,
        is_turn(c as int, s as int),
    ensures
        final(cam).wf(),
        exists|c1: Camera, c2: Camera, c3: Camera, c4: Camera, c5: Camera|
            #[trigger] frame_chain(*old(cam), c1, c2, c3, c4, c5, *final(cam), i, step as int, c as int, s as int),
{
    let ghost a = *cam;
    proof {
        assert((-s) * (-s) == s * s) by (nonlinear_arith);
        assert(is_turn(c as int, -s as int));
    }
    if i.forward != 0 {
        move_forwards(cam, if i.forward < 0 { -step } else { step });
    }
    let ghost c1 = *cam;
    if i.sideways != 0 {
        move_sideways(cam, if i.sideways < 0 { -step } else { step });
    }
    let ghost c2 = *cam;
    if i.elevation != 0 {
        move_elevation(cam, if i.elevation < 0 { -step } else { step });
    }
    let ghost c3 = *cam;
    if i.roll != 0 {
        rotate_up(cam, c, if i.roll < 0 { -s } else { s });
    }
    let ghost c4 = *cam;
    if i.yaw != 0 {
        rotate_horizontal(cam, c, if i.yaw < 0 { -s } else { s });
    }
    let ghost c5 = *cam;
    if i.pitch != 0 {
        rotate_vertical(cam, c, if i.pitch < 0 { -s } else { s });
    }
    assert(frame_chain(a, c1, c2, c3, c4, c5, *cam, i, step as int, c as int, s as int));
}

} // verus!

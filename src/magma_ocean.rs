//! Tessellation of particles into stones: closed, axis-aligned boxes with
//! one flat face normal per vertex and outward (counter-clockwise) winding.
use crate::anomaly::{Anomaly, Kind, Particle, WORLD};
use crate::vec3::{
    V3, within, norm2, unit_of, triple, tdiv, UNIT, NORM_LIMIT, lemma_root_of_square, sub_3,
    cross_3, nrmlz_3, lemma_short_cross,
};
use vstd::prelude::*;

verus! {

/// Half of the edge of an elementary particle's cube.
pub const E_HALF: i64 = 256;

/// Half of the short edges of a composite particle's box.
pub const Q_HALF: i64 = 128;

/// Half of the long edge, along z, of a composite particle's box.
pub const Q_LONG: i64 = 2 * Q_HALF;

/// A renderable mesh: vertex positions, one normal per vertex, and triangle
/// vertex indices.
pub struct Stone {
    pub positions: Vec<V3>,
    pub normals: Vec<V3>,
    pub indices: Vec<u32>,
}

/// The half extents of the box drawn for a particle of kind `k`.
pub open spec fn half_extents(k: Kind) -> V3 {
    match k {
        Kind::Elementary => V3 { x: E_HALF, y: E_HALF, z: E_HALF },
        Kind::Composite { .. } => V3 { x: Q_HALF, y: Q_HALF, z: Q_LONG },
    }
}

/// The 24 vertices of the box centred at `c` with half extents `h`, four
/// per face in the order +x, -x, +y, -y, +z, -z, each face counter-clockwise
/// seen from outside.
pub open spec fn box_positions(c: V3, h: V3) -> Seq<(int, int, int)> {
    let xl = c.x - h.x;
    let xh = c.x + h.x;
    let yl = c.y - h.y;
    let yh = c.y + h.y;
    let zl = c.z - h.z;
    let zh = c.z + h.z;
    seq![
        (xh, yl, zl), (xh, yh, zl), (xh, yh, zh), (xh, yl, zh),
        (xl, yl, zl), (xl, yl, zh), (xl, yh, zh), (xl, yh, zl),
        (xl, yh, zl), (xl, yh, zh), (xh, yh, zh), (xh, yh, zl),
        (xl, yl, zl), (xh, yl, zl), (xh, yl, zh), (xl, yl, zh),
        (xl, yl, zh), (xh, yl, zh), (xh, yh, zh), (xl, yh, zh),
        (xl, yl, zl), (xl, yh, zl), (xh, yh, zl), (xh, yl, zl),
    ]
}

/// The outward unit normal of each vertex of `box_positions`.
pub open spec fn box_normals() -> Seq<(int, int, int)> {
    let u = UNIT as int;
    seq![
        (u, 0, 0), (u, 0, 0), (u, 0, 0), (u, 0, 0),
        (-u, 0, 0), (-u, 0, 0), (-u, 0, 0), (-u, 0, 0),
        (0, u, 0), (0, u, 0), (0, u, 0), (0, u, 0),
        (0, -u, 0), (0, -u, 0), (0, -u, 0), (0, -u, 0),
        (0, 0, u), (0, 0, u), (0, 0, u), (0, 0, u),
        (0, 0, -u), (0, 0, -u), (0, 0, -u), (0, 0, -u),
    ]
}

/// Two triangles per face of `box_positions`.
pub open spec fn box_indices() -> Seq<u32> {
    seq![
        0, 1, 2, 0, 2, 3,
        4, 5, 6, 4, 6, 7,
        8, 9, 10, 8, 10, 11,
        12, 13, 14, 12, 14, 15,
        16, 17, 18, 16, 18, 19,
        20, 21, 22, 20, 22, 23,
    ]
}

/// `s` is the stone of particle `p`.
pub open spec fn is_stone_of(s: Stone, p: Particle) -> bool {
    &&& s.positions@.len() == 24
    &&& s.normals@.len() == 24
    &&& forall|t: int|
        0 <= t < 24 ==> triple(#[trigger] s.positions@[t]) == box_positions(
            p.position,
            half_extents(p.kind),
        )[t]
    &&& forall|t: int| 0 <= t < 24 ==> triple(#[trigger] s.normals@[t]) == box_normals()[t]
    &&& s.indices@ == box_indices()
}

/// Whole triangles, every index names a vertex, one normal per vertex, and
/// every normal has length `UNIT`.
pub open spec fn mesh_valid(s: Stone) -> bool {
    &&& s.indices@.len() % 3 == 0
    &&& s.positions@.len() == s.normals@.len()
    &&& forall|k: int| 0 <= k < s.indices@.len() ==> (#[trigger] s.indices@[k]) < s.positions@.len()
    &&& forall|k: int| 0 <= k < s.normals@.len() ==> norm2(#[trigger] s.normals@[k]) == UNIT * UNIT
}

/// A vector along one axis has as its unit the signed `UNIT` on that axis.
proof fn lemma_unit_axis(v: V3)
    requires
        within(v, NORM_LIMIT as int),
        (v.y == 0 && v.z == 0 && v.x != 0) || (v.x == 0 && v.z == 0 && v.y != 0) || (v.x == 0
            && v.y == 0 && v.z != 0),
    ensures
        v.x > 0 ==> unit_of(v) == (UNIT as int, 0int, 0int),
        v.x < 0 ==> unit_of(v) == (-UNIT as int, 0int, 0int),
        v.y > 0 ==> unit_of(v) == (0int, UNIT as int, 0int),
        v.y < 0 ==> unit_of(v) == (0int, -UNIT as int, 0int),
        v.z > 0 ==> unit_of(v) == (0int, 0int, UNIT as int),
        v.z < 0 ==> unit_of(v) == (0int, 0int, -UNIT as int),
{
    let a: int = if v.x != 0 {
        v.x as int
    } else if v.y != 0 {
        v.y as int
    } else {
        v.z as int
    };
    let m: int = if a > 0 { a } else { -a };
    if v.x != 0 {
        assert(norm2(v) == v.x * v.x + 0 * 0 + 0 * 0);
    } else if v.y != 0 {
        assert(norm2(v) == 0 * 0 + v.y * v.y + 0 * 0);
    } else {
        assert(norm2(v) == 0 * 0 + 0 * 0 + v.z * v.z);
    }
    assert(norm2(v) == a * a);
    assert(m * m == a * a) by (nonlinear_arith)
        requires
            m == a || m == -a,
    ;
    lemma_root_of_square(m);
    assert((m * UNIT) / m == UNIT) by (nonlinear_arith)
        requires
            m > 0,
    ;
    assert(tdiv(0 * UNIT, m) == 0);
    assert(a * UNIT == m * UNIT || a * UNIT == -(m * UNIT));
}

/// The unit normal of the face spanned by the edges from `v0` to `v1` and
/// from `v0` to `v3`, with the cross product it was taken from.
fn face_normal(v0: V3, v1: V3, v3: V3) -> (r: (V3, V3))
    requires
        within(v0, 1073741824),
        within(v1, 1073741824),
        within(v3, 1073741824),
        -1024 <= v1.x - v0.x <= 1024,
        -1024 <= v1.y - v0.y <= 1024,
        -1024 <= v1.z - v0.z <= 1024,
        -1024 <= v3.x - v0.x <= 1024,
        -1024 <= v3.y - v0.y <= 1024,
        -1024 <= v3.z - v0.z <= 1024,
    ensures
        r.1.x == (v1.y - v0.y) * (v3.z - v0.z) - (v1.z - v0.z) * (v3.y - v0.y),
        r.1.y == (v1.z - v0.z) * (v3.x - v0.x) - (v1.x - v0.x) * (v3.z - v0.z),
        r.1.z == (v1.x - v0.x) * (v3.y - v0.y) - (v1.y - v0.y) * (v3.x - v0.x),
        within(r.1, NORM_LIMIT as int),
        triple(r.0) == unit_of(r.1),
{
    let e1 = sub_3(v1, v0);
    let e3 = sub_3(v3, v0);
    let c = cross_3(e1, e3);
    proof {
        lemma_short_cross(e1.y as int, e3.z as int, e1.z as int, e3.y as int);
        lemma_short_cross(e1.z as int, e3.x as int, e1.x as int, e3.z as int);
        lemma_short_cross(e1.x as int, e3.y as int, e1.y as int, e3.x as int);
    }
    (nrmlz_3(c), c)
}


proof fn lemma_axis_cross(a: int, b: int, c: int, d: int)
    ensures
        (c == 0 || d == 0) ==> a * b - c * d == a * b,
        (a == 0 || b == 0) ==> a * b - c * d == -(c * d),
        a > 0 && b > 0 ==> a * b > 0,
        c > 0 && d > 0 ==> c * d > 0,
{
    if a > 0 && b > 0 {
        assert(a * b > 0) by (nonlinear_arith)
            requires
                a > 0,
                b > 0,
        ;
    }
    if c > 0 && d > 0 {
        assert(c * d > 0) by (nonlinear_arith)
            requires
                c > 0,
                d > 0,
        ;
    }
    if c == 0 || d == 0 {
        assert(c * d == 0) by (nonlinear_arith)
            requires
                c == 0 || d == 0,
        ;
    }
    if a == 0 || b == 0 {
        assert(a * b == 0) by (nonlinear_arith)
            requires
                a == 0 || b == 0,
        ;
    }
}

/// The facts about one face's cross product `r` that make its normal an
/// axis vector.
proof fn lemma_face(v0: V3, v1: V3, v3: V3, r: V3)
    requires
        r.x == (v1.y - v0.y) * (v3.z - v0.z) - (v1.z - v0.z) * (v3.y - v0.y),
        r.y == (v1.z - v0.z) * (v3.x - v0.x) - (v1.x - v0.x) * (v3.z - v0.z),
        r.z == (v1.x - v0.x) * (v3.y - v0.y) - (v1.y - v0.y) * (v3.x - v0.x),
    ensures
        v1.x == v0.x && v1.z == v0.z && v3.x == v0.x && v3.y == v0.y ==> r.y == 0 && r.z == 0 && (
        v1.y > v0.y && v3.z > v0.z ==> r.x > 0),
        v1.x == v0.x && v1.y == v0.y && v3.x == v0.x && v3.z == v0.z ==> r.y == 0 && r.z == 0 && (
        v1.z > v0.z && v3.y > v0.y ==> r.x < 0),
        v1.x == v0.x && v1.y == v0.y && v3.y == v0.y && v3.z == v0.z ==> r.x == 0 && r.z == 0 && (
        v1.z > v0.z && v3.x > v0.x ==> r.y > 0),
        v1.y == v0.y && v1.z == v0.z && v3.x == v0.x && v3.y == v0.y ==> r.x == 0 && r.z == 0 && (
        v1.x > v0.x && v3.z > v0.z ==> r.y < 0),
        v1.y == v0.y && v1.z == v0.z && v3.x == v0.x && v3.z == v0.z ==> r.x == 0 && r.y == 0 && (
        v1.x > v0.x && v3.y > v0.y ==> r.z > 0),
        v1.x == v0.x && v1.z == v0.z && v3.y == v0.y && v3.z == v0.z ==> r.x == 0 && r.y == 0 && (
        v1.y > v0.y && v3.x > v0.x ==> r.z < 0),
{
    lemma_axis_cross(v1.y - v0.y, v3.z - v0.z, v1.z - v0.z, v3.y - v0.y);
    lemma_axis_cross(v1.z - v0.z, v3.x - v0.x, v1.x - v0.x, v3.z - v0.z);
    lemma_axis_cross(v1.x - v0.x, v3.y - v0.y, v1.y - v0.y, v3.x - v0.x);
}

fn pt(x: i64, y: i64, z: i64) -> (r: V3)
    ensures
        r == (V3 { x, y, z }),
{
    V3 { x, y, z }
}

/// The stone of the box centred at `c` with half extents `h`.
fn box_stone(c: V3, h: V3) -> (s: Stone)
    requires
        within(c, WORLD as int),
        0 < h.x <= 512,
        0 < h.y <= 512,
        0 < h.z <= 512,
    ensures
        s.positions@.len() == 24,
        s.normals@.len() == 24,
        forall|t: int| 0 <= t < 24 ==> triple(#[trigger] s.positions@[t]) == box_positions(c, h)[t],
        forall|t: int| 0 <= t < 24 ==> triple(#[trigger] s.normals@[t]) == box_normals()[t],
        s.indices@ == box_indices(),
{
    let xl = c.x - h.x;
    let xh = c.x + h.x;
    let yl = c.y - h.y;
    let yh = c.y + h.y;
    let zl = c.z - h.z;
    let zh = c.z + h.z;
    let (npx, cpx) = face_normal(pt(xh, yl, zl), pt(xh, yh, zl), pt(xh, yl, zh));
    let (nnx, cnx) = face_normal(pt(xl, yl, zl), pt(xl, yl, zh), pt(xl, yh, zl));
    let (npy, cpy) = face_normal(pt(xl, yh, zl), pt(xl, yh, zh), pt(xh, yh, zl));
    let (nny, cny) = face_normal(pt(xl, yl, zl), pt(xh, yl, zl), pt(xl, yl, zh));
    let (npz, cpz) = face_normal(pt(xl, yl, zh), pt(xh, yl, zh), pt(xl, yh, zh));
    let (nnz, cnz) = face_normal(pt(xl, yl, zl), pt(xl, yh, zl), pt(xh, yl, zl));
    proof {
        lemma_face(V3 { x: xh, y: yl, z: zl }, V3 { x: xh, y: yh, z: zl }, V3 { x: xh, y: yl, z: zh }, cpx);
        lemma_face(V3 { x: xl, y: yl, z: zl }, V3 { x: xl, y: yl, z: zh }, V3 { x: xl, y: yh, z: zl }, cnx);
        lemma_face(V3 { x: xl, y: yh, z: zl }, V3 { x: xl, y: yh, z: zh }, V3 { x: xh, y: yh, z: zl }, cpy);
        lemma_face(V3 { x: xl, y: yl, z: zl }, V3 { x: xh, y: yl, z: zl }, V3 { x: xl, y: yl, z: zh }, cny);
        lemma_face(V3 { x: xl, y: yl, z: zh }, V3 { x: xh, y: yl, z: zh }, V3 { x: xl, y: yh, z: zh }, cpz);
        lemma_face(V3 { x: xl, y: yl, z: zl }, V3 { x: xl, y: yh, z: zl }, V3 { x: xh, y: yl, z: zl }, cnz);
        lemma_unit_axis(cpx);
        lemma_unit_axis(cnx);
        lemma_unit_axis(cpy);
        lemma_unit_axis(cny);
        lemma_unit_axis(cpz);
        lemma_unit_axis(cnz);
    }
    let positions = vec![
        pt(xh, yl, zl), pt(xh, yh, zl), pt(xh, yh, zh), pt(xh, yl, zh),
        pt(xl, yl, zl), pt(xl, yl, zh), pt(xl, yh, zh), pt(xl, yh, zl),
        pt(xl, yh, zl), pt(xl, yh, zh), pt(xh, yh, zh), pt(xh, yh, zl),
        pt(xl, yl, zl), pt(xh, yl, zl), pt(xh, yl, zh), pt(xl, yl, zh),
        pt(xl, yl, zh), pt(xh, yl, zh), pt(xh, yh, zh), pt(xl, yh, zh),
        pt(xl, yl, zl), pt(xl, yh, zl), pt(xh, yh, zl), pt(xh, yl, zl),
    ];
    let normals = vec![
        npx, npx, npx, npx, nnx, nnx, nnx, nnx,
        npy, npy, npy, npy, nny, nny, nny, nny,
        npz, npz, npz, npz, nnz, nnz, nnz, nnz,
    ];
    let indices: Vec<u32> = vec![
        0, 1, 2, 0, 2, 3,
        4, 5, 6, 4, 6, 7,
        8, 9, 10, 8, 10, 11,
        12, 13, 14, 12, 14, 15,
        16, 17, 18, 16, 18, 19,
        20, 21, 22, 20, 22, 23,
    ];
    assert(indices@ =~= box_indices());
    Stone { positions, normals, indices }
}


proof fn lemma_axis_norm(v: V3)
    requires
        (v.x == UNIT || v.x == -UNIT) && v.y == 0 && v.z == 0 || v.x == 0 && (v.y == UNIT || v.y
            == -UNIT) && v.z == 0 || v.x == 0 && v.y == 0 && (v.z == UNIT || v.z == -UNIT),
    ensures
        norm2(v) == UNIT * UNIT,
{
    let (x, y, z) = (v.x as int, v.y as int, v.z as int);
    assert(x * x + y * y + z * z == 1024 * 1024) by (nonlinear_arith)
        requires
            (x == 1024 || x == -1024) && y == 0 && z == 0 || x == 0 && (y == 1024 || y == -1024)
                && z == 0 || x == 0 && y == 0 && (z == 1024 || z == -1024),
    ;
}

/// Every stone shaped as `box_stone` builds it is a valid mesh.
proof fn lemma_box_valid(s: Stone)
    requires
        s.positions@.len() == 24,
        s.normals@.len() == 24,
        forall|t: int| 0 <= t < 24 ==> triple(#[trigger] s.normals@[t]) == box_normals()[t],
        s.indices@ == box_indices(),
    ensures
        mesh_valid(s),
{
    assert forall|k: int| 0 <= k < s.indices@.len() implies (#[trigger] s.indices@[k]) < s.positions@.len() by {
        assert(box_indices()[k] < 24);
    }
    assert forall|k: int| 0 <= k < s.normals@.len() implies norm2(#[trigger] s.normals@[k]) == UNIT * UNIT by {
        let v = s.normals@[k];
        assert(triple(v) == box_normals()[k]);
        lemma_axis_norm(v);
    }
}

/// The stone drawn for particle `p`: its kind's box, centred at its position.
pub fn stone(p: &Particle) -> (s: Stone)
    requires
        within(p.position, WORLD as int),
    ensures
        is_stone_of(s, *p),
        mesh_valid(s),
{
    let h = match p.kind {
        Kind::Elementary => V3 { x: E_HALF, y: E_HALF, z: E_HALF },
        Kind::Composite { .. } => V3 { x: Q_HALF, y: Q_HALF, z: Q_LONG },
    };
    let s = box_stone(p.position, h);
    proof {
        lemma_box_valid(s);
    }
    s
}

/// The active particles of `ps`, in order.
pub open spec fn actives(ps: Seq<Particle>) -> Seq<Particle>
    decreases ps.len(),
{
    if ps.len() == 0 {
        Seq::empty()
    } else {
        let rest = actives(ps.drop_last());
        if ps.last().stable {
            rest.push(ps.last())
        } else {
            rest
        }
    }
}

/// One fresh stone per active particle, in particle order; the simulation
/// is only read.
pub fn view(anomaly: &Anomaly) -> (r: Vec<Stone>)
    requires
        anomaly.wf(),
    ensures
        r@.len() == actives(anomaly.anomaly@).len(),
        forall|i: int| 0 <= i < r@.len() ==> is_stone_of(#[trigger] r@[i], actives(anomaly.anomaly@)[i]),
        forall|i: int| 0 <= i < r@.len() ==> mesh_valid(#[trigger] r@[i]),
{
    let ghost ps = anomaly.anomaly@;
    let n = anomaly.anomaly.len();
    let mut r: Vec<Stone> = Vec::new();
    let mut k: usize = 0;
    while k < n
        invariant
            anomaly.wf(),
            ps == anomaly.anomaly@,
            n == ps.len(),
            k <= n,
            r@.len() == actives(ps.take(k as int)).len(),
            forall|i: int| 0 <= i < r@.len() ==> is_stone_of(#[trigger] r@[i], actives(ps.take(k as int))[i]),
            forall|i: int| 0 <= i < r@.len() ==> mesh_valid(#[trigger] r@[i]),
        decreases n - k,
    {
        assert(ps.take(k + 1).drop_last() =~= ps.take(k as int));
        assert(ps.take(k + 1).last() == ps[k as int]);
        let p = &anomaly.anomaly[k];
        if p.stable {
            let s = stone(p);
            r.push(s);
        }
        k += 1;
    }
    assert(ps.take(n as int) =~= ps);
    r
}

} // verus!

//! Particle storage and the force/integration step.
//!
//! Charges are counted in thirds of the elementary charge: an elementary
//! particle carries -3, a composite one +2 (even flavor) or -1 (odd flavor).
//! Two active particles at displacement `d` (from the first to the second)
//! exert on each other an inverse-distance force: on the first,
//! `-COULOMB * q1 * q2 * d / (|d|^2 + SOFT)` per coordinate, rounded toward
//! zero (never more than `FMAX` in magnitude); the second receives the
//! negation. Like charges repel, unlike charges attract, and coincident
//! particles exert no force on each other.
//!
//! A step advances each active velocity by force times `dt` and then each
//! active position by the new velocity times `dt`, with no limit. The state
//! is kept inside a box (positions within `WORLD`, velocities within
//! `VMAX`) that bounds every intermediate value of the next step. The step
//! is always taken: an active particle whose next position or velocity
//! would leave that box is deactivated instead (it keeps its position and
//! velocity, and from then on neither exerts nor feels force and is not
//! drawn); every other particle moves as above.
use crate::vec3::{
    V3, within, fits, norm2, tdiv, triple, lemma_tdiv_odd, lemma_tdiv_bound, sub_3, norm2_3,
    tdiv_i64, draw, gen_3, nrmlz_3, mltply_3, unit_of, UNIT,
};
use rand::rngs::StdRng;
use vstd::prelude::*;

verus! {

/// Positions stay inside the box `[-WORLD, WORLD]^3` (about half a million
/// units).
pub const WORLD: i64 = 536870912;

/// Velocity components stay inside `[-VMAX, VMAX]`.
pub const VMAX: i64 = 1099511627776;

/// The coupling constant of the force law: the strength of the interaction
/// between two unit charges at unit distance, in fixed point.
pub const COULOMB: i64 = 16384;

/// Largest magnitude of one coordinate of a pairwise force: the law never
/// exceeds it (`lemma_force_bound`).
pub const FMAX: i64 = 9 * COULOMB;

/// Added to the squared distance so that the divisor is never zero.
pub const SOFT: i64 = 1;

pub const MAX_PARTICLES: usize = 1048576;

/// Largest time step accepted by `progress`.
pub const DT_MAX: i64 = 1024;

/// The speed scale applied to a unit direction when particles are seeded.
pub const LS: i64 = 1;

/// The fixed time quantum of one step.
pub const TS: i64 = 1;

#[derive(Clone, Copy, Debug, PartialEq, Eq, Structural)]
pub enum Kind {
    /// An electron.
    Elementary,
    /// A quark, with its family (generation) and flavor indices.
    Composite { secondary: bool, family: u32, flavor: u32 },
}

#[derive(Clone, Copy, Debug, PartialEq, Eq, Structural)]
pub struct Particle {
    pub kind: Kind,
    pub position: V3,
    /// Whether the particle takes part in the force step and is drawn.
    pub stable: bool,
}

/// The simulation: particles, their velocities and the forces of the last
/// step, as three parallel sequences indexed by particle.
pub struct Anomaly {
    pub anomaly: Vec<Particle>,
    pub component: Vec<V3>,
    pub force: Vec<V3>,
}

pub open spec fn charge(k: Kind) -> int {
    match k {
        Kind::Elementary => -3,
        Kind::Composite { flavor, .. } => if flavor % 2 == 0 { 2 } else { -1 },
    }
}

pub open spec fn coord(v: V3, a: int) -> int {
    if a == 0 {
        v.x as int
    } else if a == 1 {
        v.y as int
    } else {
        v.z as int
    }
}

/// Squared distance between two positions.
pub open spec fn dist2(p: V3, q: V3) -> int {
    (q.x - p.x) * (q.x - p.x) + (q.y - p.y) * (q.y - p.y) + (q.z - p.z) * (q.z - p.z)
}

/// One coordinate of the force on a particle, given the product of the two
/// charges, that coordinate of the displacement and the squared distance.
pub open spec fn force_comp(qq: int, d: int, s: int) -> int {
    tdiv(-(COULOMB * qq * d), s + SOFT)
}

/// Coordinate `a` of the force that `q` exerts on `p`.
pub open spec fn pair_axis(p: Particle, q: Particle, a: int) -> int {
    force_comp(
        charge(p.kind) * charge(q.kind),
        coord(q.position, a) - coord(p.position, a),
        dist2(p.position, q.position),
    )
}

/// Coordinate `a` of what particle `j` contributes to the force on particle `i`.
pub open spec fn share(ps: Seq<Particle>, a: int, i: int, j: int) -> int {
    if i != j && ps[i].stable && ps[j].stable {
        pair_axis(ps[i], ps[j], a)
    } else {
        0
    }
}

/// Coordinate `a` of the force on particle `k` from particles `0 .. m`.
pub open spec fn psum(ps: Seq<Particle>, a: int, k: int, m: int) -> int
    decreases m,
{
    if m <= 0 {
        0
    } else {
        psum(ps, a, k, m - 1) + share(ps, a, k, m - 1)
    }
}

/// The force on particle `k` from particles `0 .. m`, all coordinates.
pub open spec fn fsum(ps: Seq<Particle>, k: int, m: int) -> (int, int, int) {
    (psum(ps, 0, k, m), psum(ps, 1, k, m), psum(ps, 2, k, m))
}

/// Coordinate `a` of the net force on particle `k` from all others.
pub open spec fn net(ps: Seq<Particle>, a: int, k: int) -> int {
    psum(ps, a, k, ps.len() as int)
}

/// Sum over particles `0 .. m` of their force from particles `0 .. n`.
pub open spec fn total(ps: Seq<Particle>, a: int, m: int, n: int) -> int
    decreases m,
{
    if m <= 0 {
        0
    } else {
        total(ps, a, m - 1, n) + psum(ps, a, m - 1, n)
    }
}

/// Sum over particles `0 .. m` of what particle `j` contributes to each.
pub open spec fn col(ps: Seq<Particle>, a: int, m: int, j: int) -> int
    decreases m,
{
    if m <= 0 {
        0
    } else {
        col(ps, a, m - 1, j) + share(ps, a, m - 1, j)
    }
}

/// The velocity after a step, from the velocity `c` and the force `f`.
pub open spec fn next_component(c: V3, f: (int, int, int), dt: int) -> (int, int, int) {
    (c.x + f.0 * dt, c.y + f.1 * dt, c.z + f.2 * dt)
}

/// The position after a step, from the position `p` and the new velocity `c`.
pub open spec fn next_position(p: V3, c: (int, int, int), dt: int) -> (int, int, int) {
    (p.x + c.0 * dt, p.y + c.1 * dt, p.z + c.2 * dt)
}

pub open spec fn in_box(t: (int, int, int), b: int) -> bool {
    -b <= t.0 <= b && -b <= t.1 <= b && -b <= t.2 <= b
}

/// Particle `p` with velocity `c` under force `f` stays in the box for a
/// step of length `dt` (an inactive particle always does).
pub open spec fn fits_step(p: Particle, c: V3, f: (int, int, int), dt: int) -> bool {
    let nc = next_component(c, f, dt);
    !p.stable || (in_box(nc, VMAX as int) && in_box(next_position(p.position, nc, dt), WORLD as int))
}

impl Anomaly {
    /// The three sequences have one entry per particle, there is room for
    /// no more than `MAX_PARTICLES`, and every position and velocity lies in
    /// its box.
    pub open spec fn wf(&self) -> bool {
        &&& self.anomaly.len() == self.component.len()
        &&& self.anomaly.len() == self.force.len()
        &&& self.anomaly.len() <= MAX_PARTICLES
        &&& forall|k: int|
            0 <= k < self.anomaly.len() ==> within(#[trigger] self.anomaly[k].position, WORLD as int)
        &&& forall|k: int| 0 <= k < self.component.len() ==> within(#[trigger] self.component[k], VMAX as int)
    }

    /// An empty simulation.
    pub fn new() -> (r: Anomaly)
        ensures
            r.wf(),
            r.anomaly@.len() == 0,
    {
        Anomaly { anomaly: Vec::new(), component: Vec::new(), force: Vec::new() }
    }
}

/// `b` is `a` after one step of length `dt`: every force is the net force on
/// its particle in `a`; every active particle that stays in the box has its
/// velocity and then its position advanced; one that would leave it is
/// deactivated; inactive particles keep their state.
pub open spec fn stepped(a: Anomaly, b: Anomaly, dt: int) -> bool {
    let ps = a.anomaly@;
    let n = ps.len() as int;
    &&& b.anomaly@.len() == n
    &&& b.component@.len() == n
    &&& b.force@.len() == n
    &&& forall|k: int| 0 <= k < n ==> triple(#[trigger] b.force@[k]) == fsum(ps, k, n)
    &&& forall|k: int|
        0 <= k < n ==> {
            let p = ps[k];
            let q = #[trigger] b.anomaly@[k];
            &&& q.kind == p.kind
            &&& q.stable == (p.stable && fits_step(p, a.component@[k], fsum(ps, k, n), dt))
            &&& if q.stable {
                &&& triple(b.component@[k]) == next_component(a.component@[k], fsum(ps, k, n), dt)
                &&& triple(q.position) == next_position(p.position, triple(b.component@[k]), dt)
            } else {
                &&& b.component@[k] == a.component@[k]
                &&& q.position == p.position
            }
        }
}

/// An elementary particle with its velocity, ready for `add_particle_by`.
pub fn e(position: V3, component: V3, stable: bool) -> (r: (Particle, V3))
    ensures
        r.0 == (Particle { kind: Kind::Elementary, position, stable }),
        r.1 == component,
{
    (Particle { kind: Kind::Elementary, position, stable }, component)
}

/// A composite particle with its velocity, ready for `add_particle_by`.
/// Family and flavor are kept as given.
pub fn q(
    position: V3,
    component: V3,
    stable: bool,
    secondary: bool,
    family: u32,
    flavor: u32,
) -> (r: (Particle, V3))
    ensures
        r.0 == (Particle { kind: Kind::Composite { secondary, family, flavor }, position, stable }),
        r.1 == component,
{
    (Particle { kind: Kind::Composite { secondary, family, flavor }, position, stable }, component)
}

/// Appends a particle with its velocity and a zero force. The spawn is
/// rejected, and nothing changes, when the simulation is full or the
/// position or velocity lies outside its box.
pub fn add_particle_by(anomaly: &mut Anomaly, spawn: (Particle, V3)) -> (accepted: bool)
    requires
        old(anomaly).wf(),
    ensures
        final(anomaly).wf(),
        accepted == (old(anomaly).anomaly@.len() < MAX_PARTICLES && within(spawn.0.position, WORLD as int)
            && within(spawn.1, VMAX as int)),
        accepted ==> final(anomaly).anomaly@ == old(anomaly).anomaly@.push(spawn.0),
        accepted ==> final(anomaly).component@ == old(anomaly).component@.push(spawn.1),
        accepted ==> final(anomaly).force@ == old(anomaly).force@.push(V3 { x: 0, y: 0, z: 0 }),
        !accepted ==> *final(anomaly) == *old(anomaly),
{
    let (p, c) = spawn;
    let inside = -WORLD <= p.position.x && p.position.x <= WORLD && -WORLD <= p.position.y
        && p.position.y <= WORLD && -WORLD <= p.position.z && p.position.z <= WORLD;
    let slow = -VMAX <= c.x && c.x <= VMAX && -VMAX <= c.y && c.y <= VMAX && -VMAX <= c.z && c.z
        <= VMAX;
    if anomaly.anomaly.len() < MAX_PARTICLES && inside && slow {
        anomaly.anomaly.push(p);
        anomaly.component.push(c);
        anomaly.force.push(V3 { x: 0, y: 0, z: 0 });
        true
    } else {
        false
    }
}


proof fn lemma_dist2_symmetric(p: V3, q: V3)
    ensures
        dist2(p, q) == dist2(q, p),
        dist2(p, q) >= 0,
{
    assert((q.x - p.x) * (q.x - p.x) == (p.x - q.x) * (p.x - q.x)) by (nonlinear_arith);
    assert((q.y - p.y) * (q.y - p.y) == (p.y - q.y) * (p.y - q.y)) by (nonlinear_arith);
    assert((q.z - p.z) * (q.z - p.z) == (p.z - q.z) * (p.z - q.z)) by (nonlinear_arith);
    assert((q.x - p.x) * (q.x - p.x) >= 0) by (nonlinear_arith);
    assert((q.y - p.y) * (q.y - p.y) >= 0) by (nonlinear_arith);
    assert((q.z - p.z) * (q.z - p.z) >= 0) by (nonlinear_arith);
}

/// The force of a pair is antisymmetric: what `q` exerts on `p` is the exact
/// negation of what `p` exerts on `q`, in every coordinate.
pub proof fn lemma_pair_antisymmetric(p: Particle, q: Particle, a: int)
    ensures
        pair_axis(p, q, a) == -pair_axis(q, p, a),
{
    lemma_dist2_symmetric(p.position, q.position);
    let qq = charge(p.kind) * charge(q.kind);
    let d = coord(q.position, a) - coord(p.position, a);
    let cp = charge(p.kind);
    let cq = charge(q.kind);
    assert(cq * cp == cp * cq) by (nonlinear_arith);
    assert(COULOMB * qq * (-d) == -(COULOMB * qq * d)) by (nonlinear_arith);
    lemma_tdiv_odd(-(COULOMB * qq * d), dist2(p.position, q.position) + SOFT);
}

/// Two particles at the same position exert no force on each other.
pub proof fn lemma_coincident_no_force(p: Particle, q: Particle, a: int)
    requires
        p.position == q.position,
    ensures
        pair_axis(p, q, a) == 0,
        pair_axis(q, p, a) == 0,
{
    let qq = charge(p.kind) * charge(q.kind);
    assert(COULOMB * qq * 0 == 0) by (nonlinear_arith);
    let qq2 = charge(q.kind) * charge(p.kind);
    assert(COULOMB * qq2 * 0 == 0) by (nonlinear_arith);
}

proof fn lemma_share_antisymmetric(ps: Seq<Particle>, a: int, i: int, j: int)
    ensures
        share(ps, a, i, j) == -share(ps, a, j, i),
{
    if i != j && ps[i].stable && ps[j].stable {
        lemma_pair_antisymmetric(ps[i], ps[j], a);
    }
}

/// No coordinate of a pairwise force exceeds `FMAX` in magnitude: the
/// displacement along one axis is at most the squared distance.
pub proof fn lemma_force_bound(p: Particle, q: Particle, a: int)
    ensures
        -FMAX <= pair_axis(p, q, a) <= FMAX,
{
    let cp = charge(p.kind);
    let cq = charge(q.kind);
    let qq = cp * cq;
    assert(-9 <= qq <= 9) by (nonlinear_arith)
        requires
            -3 <= cp <= 2,
            -3 <= cq <= 2,
            qq == cp * cq,
    ;
    let d = coord(q.position, a) - coord(p.position, a);
    let s = dist2(p.position, q.position);
    let dx = q.position.x - p.position.x;
    let dy = q.position.y - p.position.y;
    let dz = q.position.z - p.position.z;
    assert(dx * dx >= 0 && dy * dy >= 0 && dz * dz >= 0) by (nonlinear_arith);
    assert(d * d <= s);
    let m: int = if d >= 0 { d } else { -d };
    assert(m <= d * d) by (nonlinear_arith)
        requires
            m == d || m == -d,
            m >= 0,
    ;
    let x: int = if qq >= 0 { qq } else { -qq };
    let num = COULOMB * qq * d;
    let big = COULOMB * x * m;
    assert(num == big || num == -big) by (nonlinear_arith)
        requires
            num == COULOMB * qq * d,
            big == COULOMB * x * m,
            x == qq || x == -qq,
            m == d || m == -d,
    ;
    assert(0 <= big <= FMAX * (s + SOFT)) by (nonlinear_arith)
        requires
            big == 16384 * x * m,
            0 <= x <= 9,
            0 <= m <= s,
    ;
    assert(big / (s + SOFT) <= FMAX) by (nonlinear_arith)
        requires
            0 <= big <= 147456 * (s + 1),
            s >= 0,
    ;
    lemma_tdiv_odd(big, s + SOFT);
}

proof fn lemma_share_bound(ps: Seq<Particle>, a: int, i: int, j: int)
    ensures
        -FMAX <= share(ps, a, i, j) <= FMAX,
{
    if i != j && ps[i].stable && ps[j].stable {
        lemma_force_bound(ps[i], ps[j], a);
    }
}

proof fn lemma_psum_bound(ps: Seq<Particle>, a: int, k: int, m: int)
    requires
        m >= 0,
    ensures
        -m * FMAX <= psum(ps, a, k, m) <= m * FMAX,
    decreases m,
{
    if m > 0 {
        lemma_psum_bound(ps, a, k, m - 1);
        lemma_share_bound(ps, a, k, m - 1);
    }
}

proof fn lemma_col_is_negated_psum(ps: Seq<Particle>, a: int, m: int, j: int)
    ensures
        col(ps, a, m, j) == -psum(ps, a, j, m),
    decreases m,
{
    if m > 0 {
        lemma_col_is_negated_psum(ps, a, m - 1, j);
        lemma_share_antisymmetric(ps, a, m - 1, j);
    }
}

proof fn lemma_total_extend(ps: Seq<Particle>, a: int, m: int, n: int)
    requires
        n >= 0,
    ensures
        total(ps, a, m, n + 1) == total(ps, a, m, n) + col(ps, a, m, n),
    decreases m,
{
    if m > 0 {
        lemma_total_extend(ps, a, m - 1, n);
    }
}

proof fn lemma_total_diagonal(ps: Seq<Particle>, a: int, n: int)
    requires
        n >= 0,
    ensures
        total(ps, a, n, n) == 0,
    decreases n,
{
    if n > 0 {
        lemma_total_diagonal(ps, a, n - 1);
        lemma_total_extend(ps, a, n - 1, n - 1);
        lemma_col_is_negated_psum(ps, a, n - 1, n - 1);
    }
}

/// The internal forces cancel: summed over all particles, the net forces
/// of a configuration are zero in every coordinate (inactive particles
/// receive none).
pub proof fn lemma_momentum_neutral(ps: Seq<Particle>, a: int)
    ensures
        total(ps, a, ps.len() as int, ps.len() as int) == 0,
        forall|k: int| 0 <= k < ps.len() && !ps[k].stable ==> #[trigger] net(ps, a, k) == 0,
{
    lemma_total_diagonal(ps, a, ps.len() as int);
    assert forall|k: int| 0 <= k < ps.len() && !ps[k].stable implies #[trigger] net(ps, a, k) == 0 by {
        lemma_psum_inactive(ps, a, k, ps.len() as int);
    }
}

proof fn lemma_psum_inactive(ps: Seq<Particle>, a: int, k: int, m: int)
    requires
        0 <= k < ps.len(),
        !ps[k].stable,
    ensures
        psum(ps, a, k, m) == 0,
    decreases m,
{
    if m > 0 {
        lemma_psum_inactive(ps, a, k, m - 1);
    }
}


fn charge_of(k: Kind) -> (r: i64)
    ensures
        r == charge(k),
        -3 <= r <= 2,
{
    match k {
        Kind::Elementary => -3,
        Kind::Composite { flavor, .. } => if flavor % 2 == 0 { 2 } else { -1 },
    }
}

fn force_comp_exec(qq: i64, d: i64, s: i64) -> (r: i64)
    requires
        -9 <= qq <= 9,
        -2 * WORLD <= d <= 2 * WORLD,
        0 <= s <= 3458764513820540928,
    ensures
        r == force_comp(qq as int, d as int, s as int),
{
    assert(-147456 <= COULOMB * qq <= 147456);
    assert(-147456 * 1073741824 <= (COULOMB * qq) * d <= 147456 * 1073741824) by (nonlinear_arith)
        requires
            -147456 <= COULOMB * qq <= 147456,
            -1073741824 <= d <= 1073741824,
    ;
    let num: i64 = COULOMB * qq * d;
    tdiv_i64(-num, s + SOFT)
}

/// The force that `q` exerts on `p`.
pub fn pair_force(p: &Particle, q: &Particle) -> (r: V3)
    requires
        within(p.position, WORLD as int),
        within(q.position, WORLD as int),
    ensures
        r.x == pair_axis(*p, *q, 0),
        r.y == pair_axis(*p, *q, 1),
        r.z == pair_axis(*p, *q, 2),
        within(r, FMAX as int),
{
    let d = sub_3(q.position, p.position);
    let s = norm2_3(d);
    proof {
        lemma_dist2_symmetric(p.position, q.position);
        assert(d.x * d.x <= 1073741824 * 1073741824) by (nonlinear_arith)
            requires -1073741824 <= d.x <= 1073741824;
        assert(d.y * d.y <= 1073741824 * 1073741824) by (nonlinear_arith)
            requires -1073741824 <= d.y <= 1073741824;
        assert(d.z * d.z <= 1073741824 * 1073741824) by (nonlinear_arith)
            requires -1073741824 <= d.z <= 1073741824;
        lemma_force_bound(*p, *q, 0);
        lemma_force_bound(*p, *q, 1);
        lemma_force_bound(*p, *q, 2);
    }
    let cp = charge_of(p.kind);
    let cq = charge_of(q.kind);
    assert(-9 <= cp * cq <= 9) by (nonlinear_arith)
        requires
            -3 <= cp <= 2,
            -3 <= cq <= 2,
    ;
    let qq = cp * cq;
    V3 { x: force_comp_exec(qq, d.x, s), y: force_comp_exec(qq, d.y, s), z: force_comp_exec(qq, d.z, s) }
}


/// The net force on every particle: each unordered pair of active particles
/// is evaluated once, its force added to the first and subtracted from the
/// second.
fn accumulate(ps: &Vec<Particle>) -> (force: Vec<V3>)
    requires
        ps.len() <= MAX_PARTICLES,
        forall|k: int| 0 <= k < ps.len() ==> within(#[trigger] ps[k].position, WORLD as int),
    ensures
        force.len() == ps.len(),
        forall|k: int| 0 <= k < ps.len() ==> triple(#[trigger] force@[k]) == fsum(ps@, k, ps.len() as int),
{
    let n = ps.len();
    let mut force: Vec<V3> = Vec::new();
    let mut t: usize = 0;
    while t < n
        invariant
            t <= n,
            force.len() == t,
            forall|k: int| 0 <= k < t ==> triple(#[trigger] force@[k]) == fsum(ps@, k, 0),
        decreases n - t,
    {
        force.push(V3 { x: 0, y: 0, z: 0 });
        t += 1;
    }
    let mut i: usize = 0;
    while i < n
        invariant
            i <= n,
            n == ps.len(),
            n <= MAX_PARTICLES,
            forall|k: int| 0 <= k < ps.len() ==> within(#[trigger] ps[k].position, WORLD as int),
            force.len() == n,
            forall|k: int|
                0 <= k < n ==> triple(#[trigger] force@[k]) == if k < i {
                    fsum(ps@, k, n as int)
                } else {
                    fsum(ps@, k, i as int)
                },
        decreases n - i,
    {
        let mut j: usize = i + 1;
        assert(fsum(ps@, i as int, i + 1) == fsum(ps@, i as int, i as int));
        while j < n
            invariant
                i < n,
                i + 1 <= j <= n,
                n == ps.len(),
                n <= MAX_PARTICLES,
                forall|k: int| 0 <= k < ps.len() ==> within(#[trigger] ps[k].position, WORLD as int),
                force.len() == n,
                forall|k: int|
                    0 <= k < n ==> triple(#[trigger] force@[k]) == if k < i {
                        fsum(ps@, k, n as int)
                    } else if k == i {
                        fsum(ps@, k, j as int)
                    } else if k < j {
                        fsum(ps@, k, i + 1)
                    } else {
                        fsum(ps@, k, i as int)
                    },
            decreases n - j,
        {
            proof {
                lemma_share_antisymmetric(ps@, 0, j as int, i as int);
                lemma_share_antisymmetric(ps@, 1, j as int, i as int);
                lemma_share_antisymmetric(ps@, 2, j as int, i as int);
                lemma_psum_bound(ps@, 0, i as int, j as int);
                lemma_psum_bound(ps@, 1, i as int, j as int);
                lemma_psum_bound(ps@, 2, i as int, j as int);
                lemma_psum_bound(ps@, 0, j as int, i as int);
                lemma_psum_bound(ps@, 1, j as int, i as int);
                lemma_psum_bound(ps@, 2, j as int, i as int);
                assert(triple(force@[i as int]) == fsum(ps@, i as int, j as int));
                assert(triple(force@[j as int]) == fsum(ps@, j as int, i as int));
            }
            if ps[i].stable && ps[j].stable {
                let f = pair_force(&ps[i], &ps[j]);
                let fi = force[i];
                let fj = force[j];
                force.set(i, V3 { x: fi.x + f.x, y: fi.y + f.y, z: fi.z + f.z });
                force.set(j, V3 { x: fj.x - f.x, y: fj.y - f.y, z: fj.z - f.z });
            }
            proof {
                assert(triple(force@[i as int]) == fsum(ps@, i as int, j + 1));
                assert(triple(force@[j as int]) == fsum(ps@, j as int, i + 1));
            }
            j += 1;
        }
        i += 1;
    }
    force
}

proof fn lemma_rate_bound(rate: int, dt: int)
    requires
        -562949953421312 <= rate <= 562949953421312,
        0 <= dt <= DT_MAX,
    ensures
        -576460752303423488 <= rate * dt <= 576460752303423488,
{
    assert(-562949953421312 * 1024 <= rate * dt <= 562949953421312 * 1024) by (nonlinear_arith)
        requires
            -562949953421312 <= rate <= 562949953421312,
            0 <= dt <= 1024,
    ;
}

proof fn lemma_scaled_by_dt(rate: int, dt: int, b: int)
    requires
        -b <= rate <= b,
        0 <= dt <= DT_MAX,
    ensures
        -b * 1024 <= rate * dt <= b * 1024,
{
    assert(-b * 1024 <= rate * dt <= b * 1024) by (nonlinear_arith)
        requires
            -b <= rate <= b,
            0 <= dt <= 1024,
    ;
}

/// `v + rate * dt`.
fn axis_next(v: i64, rate: i64, dt: i64) -> (r: i64)
    requires
        -562949953421312 <= v <= 562949953421312,
        -562949953421312 <= rate <= 562949953421312,
        0 <= dt <= DT_MAX,
    ensures
        r == v + rate * dt,
{
    proof {
        lemma_rate_bound(rate as int, dt as int);
    }
    v + rate * dt
}

fn in_box_exec(v: V3, b: i64) -> (r: bool)
    requires
        b >= 0,
    ensures
        r == in_box(triple(v), b as int),
{
    -b <= v.x && v.x <= b && -b <= v.y && v.y <= b && -b <= v.z && v.z <= b
}

/// One particle's velocity and position after a step under force `f`, and
/// whether they stay in the box.
fn advance_one(p: Particle, c: V3, f: V3, dt: i64) -> (r: (Particle, V3, bool))
    requires
        within(p.position, WORLD as int),
        within(c, VMAX as int),
        within(f, 274877906944),
        0 <= dt <= DT_MAX,
    ensures
        r.2 == fits_step(p, c, triple(f), dt as int),
        r.0.kind == p.kind,
        r.0.stable == p.stable,
        r.2 ==> within(r.0.position, WORLD as int) && within(r.1, VMAX as int),
        r.2 && p.stable ==> triple(r.1) == next_component(c, triple(f), dt as int),
        r.2 && p.stable ==> triple(r.0.position) == next_position(p.position, triple(r.1), dt as int),
        !p.stable ==> r.0 == p && r.1 == c,
{
    if p.stable {
        proof {
            lemma_scaled_by_dt(f.x as int, dt as int, 274877906944);
            lemma_scaled_by_dt(f.y as int, dt as int, 274877906944);
            lemma_scaled_by_dt(f.z as int, dt as int, 274877906944);
        }
        let nc = V3 { x: axis_next(c.x, f.x, dt), y: axis_next(c.y, f.y, dt), z: axis_next(c.z, f.z, dt) };
        let np = V3 {
            x: axis_next(p.position.x, nc.x, dt),
            y: axis_next(p.position.y, nc.y, dt),
            z: axis_next(p.position.z, nc.z, dt),
        };
        let ok = in_box_exec(nc, VMAX) && in_box_exec(np, WORLD);
        (Particle { kind: p.kind, position: np, stable: p.stable }, nc, ok)
    } else {
        (p, c, true)
    }
}

/// Advances the simulation by one step of length `dt`: every force is
/// recomputed from scratch as the net force of all active pairs, then each
/// active particle's velocity grows by its force times `dt` and its position
/// by the new velocity times `dt`. An active particle whose new state would
/// leave the box is deactivated and keeps its old state; the step itself is
/// always taken.
pub fn progress(anomaly: &mut Anomaly, dt: i64)
    requires
        old(anomaly).wf(),
        0 <= dt <= DT_MAX,
    ensures
        final(anomaly).wf(),
        stepped(*old(anomaly), *final(anomaly), dt as int),
{
    let ghost before = *anomaly;
    let n = anomaly.anomaly.len();
    let force = accumulate(&anomaly.anomaly);
    let mut parts: Vec<Particle> = Vec::new();
    let mut comps: Vec<V3> = Vec::new();
    let mut k: usize = 0;
    while k < n
        invariant
            before.wf(),
            0 <= dt <= DT_MAX,
            n == before.anomaly.len(),
            *anomaly == before,
            force.len() == n,
            forall|t: int| 0 <= t < n ==> triple(#[trigger] force@[t]) == fsum(before.anomaly@, t, n as int),
            k <= n,
            parts.len() == k,
            comps.len() == k,
            forall|t: int| 0 <= t < k ==> within(#[trigger] parts@[t].position, WORLD as int),
            forall|t: int| 0 <= t < k ==> within(#[trigger] comps@[t], VMAX as int),
            forall|t: int|
                0 <= t < k ==> {
                    let p = before.anomaly@[t];
                    let q = #[trigger] parts@[t];
                    let f = fsum(before.anomaly@, t, n as int);
                    &&& q.kind == p.kind
                    &&& q.stable == (p.stable && fits_step(p, before.component@[t], f, dt as int))
                    &&& if q.stable {
                        &&& triple(comps@[t]) == next_component(before.component@[t], f, dt as int)
                        &&& triple(q.position) == next_position(p.position, triple(comps@[t]), dt as int)
                    } else {
                        &&& comps@[t] == before.component@[t]
                        &&& q.position == p.position
                    }
                },
        decreases n - k,
    {
        proof {
            lemma_psum_bound(before.anomaly@, 0, k as int, n as int);
            lemma_psum_bound(before.anomaly@, 1, k as int, n as int);
            lemma_psum_bound(before.anomaly@, 2, k as int, n as int);
            assert(n * FMAX <= 274877906944) by (nonlinear_arith)
                requires
                    n <= 1048576,
            ;
            assert(triple(force@[k as int]) == fsum(before.anomaly@, k as int, n as int));
            assert(within(anomaly.anomaly@[k as int].position, WORLD as int));
            assert(within(anomaly.component@[k as int], VMAX as int));
        }
        let orig = anomaly.anomaly[k];
        let oc = anomaly.component[k];
        let (p, c, fits) = advance_one(orig, oc, force[k], dt);
        if fits {
            parts.push(p);
            comps.push(c);
        } else {
            parts.push(Particle { kind: orig.kind, position: orig.position, stable: false });
            comps.push(oc);
        }
        k += 1;
    }
    anomaly.anomaly = parts;
    anomaly.component = comps;
    anomaly.force = force;
}

/// A step is determined by the state and `dt` alone: two runs of a step
/// from equal particles and velocities with the same `dt` end in equal
/// particles, velocities and forces.
pub proof fn lemma_step_deterministic(a1: Anomaly, a2: Anomaly, b1: Anomaly, b2: Anomaly, dt: int)
    requires
        a1.anomaly@ == a2.anomaly@,
        a1.component@ == a2.component@,
        stepped(a1, b1, dt),
        stepped(a2, b2, dt),
    ensures
        b1.anomaly@ == b2.anomaly@,
        b1.component@ == b2.component@,
        b1.force@ == b2.force@,
{
    let n = a1.anomaly@.len() as int;
    assert forall|k: int| 0 <= k < n implies b1.anomaly@[k] == b2.anomaly@[k] && b1.component@[k]
        == b2.component@[k] && b1.force@[k] == b2.force@[k] by {
        assert(triple(b1.force@[k]) == triple(b2.force@[k]));
        let p1 = b1.anomaly@[k];
        let p2 = b2.anomaly@[k];
        if p1.stable {
            assert(triple(b1.component@[k]) == triple(b2.component@[k]));
            assert(triple(p1.position) == triple(p2.position));
        }
    }
    assert(b1.anomaly@ =~= b2.anomaly@);
    assert(b1.component@ =~= b2.component@);
    assert(b1.force@ =~= b2.force@);
}


/// Coordinate `a` of the sum of the first `m` vectors of `fs`.
pub open spec fn force_sum(fs: Seq<V3>, a: int, m: int) -> int
    decreases m,
{
    if m <= 0 {
        0
    } else {
        force_sum(fs, a, m - 1) + coord(fs[m - 1], a)
    }
}

proof fn lemma_force_sum_is_total(ps: Seq<Particle>, fs: Seq<V3>, a: int, m: int, n: int)
    requires
        0 <= a < 3,
        0 <= m <= fs.len(),
        forall|k: int| 0 <= k < fs.len() ==> triple(#[trigger] fs[k]) == fsum(ps, k, n),
    ensures
        force_sum(fs, a, m) == total(ps, a, m, n),
    decreases m,
{
    if m > 0 {
        lemma_force_sum_is_total(ps, fs, a, m - 1, n);
        assert(triple(fs[m - 1]) == fsum(ps, m - 1, n));
    }
}

/// The forces that a step leaves behind cancel: after a step, the forces
/// of all particles sum to the zero vector.
pub proof fn lemma_step_momentum_neutral(a: Anomaly, b: Anomaly, dt: int)
    requires
        stepped(a, b, dt),
    ensures
        force_sum(b.force@, 0, b.force@.len() as int) == 0,
        force_sum(b.force@, 1, b.force@.len() as int) == 0,
        force_sum(b.force@, 2, b.force@.len() as int) == 0,
{
    let ps = a.anomaly@;
    let n = ps.len() as int;
    lemma_force_sum_is_total(ps, b.force@, 0, n, n);
    lemma_force_sum_is_total(ps, b.force@, 1, n, n);
    lemma_force_sum_is_total(ps, b.force@, 2, n, n);
    lemma_momentum_neutral(ps, 0);
    lemma_momentum_neutral(ps, 1);
    lemma_momentum_neutral(ps, 2);
}


/// The particle at index `t` of a seeded simulation: active, inside
/// `[0, 69 * UNIT]^3`, elementary at even indices and composite (secondary,
/// family below 3, flavor 0) at odd ones.
pub open spec fn seeded_particle(p: Particle, t: int) -> bool {
    &&& p.stable
    &&& 0 <= p.position.x <= 69 * UNIT
    &&& 0 <= p.position.y <= 69 * UNIT
    &&& 0 <= p.position.z <= 69 * UNIT
    &&& t % 2 == 0 ==> p.kind == Kind::Elementary
    &&& t % 2 == 1 ==> match p.kind {
        Kind::Composite { secondary, family, flavor } => secondary && family < 3 && flavor == 0,
        Kind::Elementary => false,
    }
}

/// `c` is the seeding velocity drawn from `g`: a direction in
/// `[0, 10 * UNIT]^3`, scaled to length `UNIT` by `nrmlz_3` and then by `LS`.
pub open spec fn seed_velocity(c: V3, g: V3) -> bool {
    let u = unit_of(g);
    &&& 0 <= g.x <= 10 * UNIT
    &&& 0 <= g.y <= 10 * UNIT
    &&& 0 <= g.z <= 10 * UNIT
    &&& triple(c) == (u.0 * LS, u.1 * LS, u.2 * LS)
}

/// `c` is a seeding velocity drawn from some direction (`seed_velocity`).
pub open spec fn drawn_velocity(c: V3) -> bool {
    exists|g: V3| #[trigger] seed_velocity(c, g)
}

/// A random starting simulation of `k` elementary and `k` composite
/// particles, alternating, at random positions in `[0, 69 * UNIT]^3`, each
/// with a random direction of length at most `UNIT` scaled by `LS`, and no
/// force yet.
pub fn seed(rng: &mut StdRng, k: usize) -> (r: Anomaly)
    requires
        k <= MAX_PARTICLES / 2,
    ensures
        r.wf(),
        r.anomaly@.len() == 2 * k,
        forall|t: int| 0 <= t < 2 * k ==> seeded_particle(#[trigger] r.anomaly@[t], t),
        forall|t: int| 0 <= t < 2 * k ==> #[trigger] r.force@[t] == (V3 { x: 0, y: 0, z: 0 }),
        forall|t: int| 0 <= t < 2 * k ==> drawn_velocity(#[trigger] r.component@[t]),
{
    let mut a = Anomaly::new();
    let mut j: usize = 0;
    while j < k
        invariant
            k <= MAX_PARTICLES / 2,
            j <= k,
            a.wf(),
            a.anomaly@.len() == 2 * j,
            forall|t: int| 0 <= t < 2 * j ==> seeded_particle(#[trigger] a.anomaly@[t], t),
            forall|t: int| 0 <= t < 2 * j ==> #[trigger] a.force@[t] == (V3 { x: 0, y: 0, z: 0 }),
            forall|t: int| 0 <= t < 2 * j ==> drawn_velocity(#[trigger] a.component@[t]),
        decreases k - j,
    {
        let ghost before = a.component@;
        let p = gen_3(0, 69 * UNIT, rng);
        let g = gen_3(0, 10 * UNIT, rng);
        let c = mltply_3(nrmlz_3(g), LS);
        assert(seed_velocity(c, g));
        let ok = add_particle_by(&mut a, e(p, c, true));
        assert(ok);
        let p = gen_3(0, 69 * UNIT, rng);
        let g2 = gen_3(0, 10 * UNIT, rng);
        let c2 = mltply_3(nrmlz_3(g2), LS);
        assert(seed_velocity(c2, g2));
        let family = draw(rng, 0, 2) as u32;
        let flavor = draw(rng, 0, 0) as u32;
        let ok = add_particle_by(&mut a, q(p, c2, true, true, family, flavor));
        assert(ok);
        proof {
            assert((2 * j) % 2 == 0);
            assert((2 * j + 1) % 2 == 1);
            assert(a.component@[2 * j as int] == c);
            assert(a.component@[2 * j + 1] == c2);
            assert forall|t: int| 0 <= t < 2 * j + 2 implies drawn_velocity(#[trigger] a.component@[t]) by {
                if t < 2 * j {
                    assert(a.component@[t] == before[t]);
                } else if t == 2 * j {
                    assert(seed_velocity(a.component@[t], g));
                } else {
                    assert(seed_velocity(a.component@[t], g2));
                }
            }
        }
        j += 1;
    }
    a
}

} // verus!

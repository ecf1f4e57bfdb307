use rand::rngs::StdRng;
use rand::SeedableRng;
use u61q::anomaly::{
    add_particle_by, e, pair_force, progress, q, seed, Anomaly, Kind, Particle, FMAX, MAX_PARTICLES, TS, VMAX,
    WORLD,
};
use u61q::vec3::{gen_3, V3, UNIT};

fn v(x: i64, y: i64, z: i64) -> V3 {
    V3 { x, y, z }
}

fn seeded(n: usize, seed: u64) -> Anomaly {
    let mut rng = StdRng::seed_from_u64(seed);
    let mut a = Anomaly::new();
    for i in 0..n {
        let p = gen_3(-69 * UNIT, 69 * UNIT, &mut rng);
        let c = gen_3(-UNIT, UNIT, &mut rng);
        let spawn = if i % 2 == 0 {
            e(p, c, true)
        } else {
            q(p, c, true, true, (i % 3) as u32, (i % 2) as u32)
        };
        assert!(add_particle_by(&mut a, spawn));
    }
    a
}

#[test]
fn two_electrons_repel_symmetrically() {
    let mut a = Anomaly::new();
    assert!(add_particle_by(&mut a, e(v(0, 0, 0), v(0, 0, 0), true)));
    assert!(add_particle_by(&mut a, e(v(UNIT, 0, 0), v(0, 0, 0), true)));
    progress(&mut a, TS);
    assert_eq!(a.force[0], v(-143, 0, 0));
    assert_eq!(a.force[1], v(143, 0, 0));
    assert_eq!(a.component[0], v(-143, 0, 0));
    assert_eq!(a.anomaly[0].position, v(-143, 0, 0));
    assert_eq!(a.anomaly[1].position, v(UNIT + 143, 0, 0));
    assert_eq!(a.anomaly[0].position.x + a.anomaly[1].position.x, UNIT);
}

#[test]
fn electron_and_up_quark_attract() {
    let mut a = Anomaly::new();
    assert!(add_particle_by(&mut a, e(v(0, 0, 0), v(0, 0, 0), true)));
    assert!(add_particle_by(&mut a, q(v(0, UNIT, 0), v(0, 0, 0), true, true, 0, 0)));
    progress(&mut a, TS);
    assert!(a.force[0].y > 0);
    assert_eq!(a.force[1].y, -a.force[0].y);
    assert!(a.anomaly[0].position.y > 0);
    assert!(a.anomaly[1].position.y < UNIT);
}

#[test]
fn pair_force_is_antisymmetric_and_bounded() {
    let mut rng = StdRng::seed_from_u64(3);
    for i in 0..200u32 {
        let a = Particle { kind: Kind::Elementary, position: gen_3(-WORLD, WORLD, &mut rng), stable: true };
        let b = Particle {
            kind: Kind::Composite { secondary: true, family: i % 3, flavor: i % 2 },
            position: gen_3(-WORLD, WORLD, &mut rng),
            stable: true,
        };
        let f = pair_force(&a, &b);
        let g = pair_force(&b, &a);
        assert_eq!(f, v(-g.x, -g.y, -g.z));
        for c in [f.x, f.y, f.z] {
            assert!(c.abs() <= FMAX);
        }
    }
    let a = Particle { kind: Kind::Elementary, position: v(0, 0, 0), stable: true };
    let b = Particle { kind: Kind::Elementary, position: v(1, 0, 0), stable: true };
    // -16384 * 9 * 1 / (1 + 1), rounded toward zero
    assert_eq!(pair_force(&a, &b), v(-73728, 0, 0));
}

#[test]
fn net_forces_sum_to_zero() {
    let mut a = seeded(40, 11);
    progress(&mut a, TS);
    let (mut x, mut y, mut z) = (0i64, 0i64, 0i64);
    for f in &a.force {
        x += f.x;
        y += f.y;
        z += f.z;
    }
    assert_eq!((x, y, z), (0, 0, 0));
    assert!(a.force.iter().any(|f| f.x != 0));
}

#[test]
fn coincident_particles_exert_no_force() {
    let p = Particle { kind: Kind::Elementary, position: v(500, -7, 9), stable: true };
    assert_eq!(pair_force(&p, &p), v(0, 0, 0));
    let mut a = Anomaly::new();
    assert!(add_particle_by(&mut a, e(v(500, -7, 9), v(0, 0, 0), true)));
    assert!(add_particle_by(&mut a, e(v(500, -7, 9), v(0, 0, 0), true)));
    progress(&mut a, TS);
    assert_eq!(a.force[0], v(0, 0, 0));
    assert_eq!(a.force[1], v(0, 0, 0));
    assert_eq!(a.anomaly[0].position, v(500, -7, 9));
}

#[test]
fn steps_are_deterministic() {
    let mut a = seeded(30, 5);
    let mut b = seeded(30, 5);
    for _ in 0..10 {
        progress(&mut a, TS);
        progress(&mut b, TS);
    }
    assert_eq!(a.anomaly, b.anomaly);
    assert_eq!(a.component, b.component);
    assert_eq!(a.force, b.force);
}

#[test]
fn inactive_particles_neither_push_nor_move() {
    let mut a = Anomaly::new();
    assert!(add_particle_by(&mut a, e(v(0, 0, 0), v(5, 0, 0), false)));
    assert!(add_particle_by(&mut a, e(v(UNIT, 0, 0), v(0, 0, 0), true)));
    progress(&mut a, TS);
    assert_eq!(a.force[0], v(0, 0, 0));
    assert_eq!(a.force[1], v(0, 0, 0));
    assert_eq!(a.anomaly[0].position, v(0, 0, 0));
    assert_eq!(a.component[0], v(5, 0, 0));
}

#[test]
fn velocity_moves_a_free_particle() {
    let mut a = Anomaly::new();
    assert!(add_particle_by(&mut a, e(v(10, 20, 30), v(1, -2, 3), true)));
    progress(&mut a, 4);
    assert_eq!(a.anomaly[0].position, v(14, 12, 42));
}

#[test]
fn particles_leaving_the_box_are_deactivated() {
    let mut a = Anomaly::new();
    assert!(add_particle_by(&mut a, e(v(WORLD - 1, 0, 0), v(100, 0, 0), true)));
    assert!(add_particle_by(&mut a, e(v(-10 * UNIT, 0, 0), v(5, 0, 0), true)));
    progress(&mut a, TS);
    assert!(!a.anomaly[0].stable);
    assert_eq!(a.anomaly[0].position, v(WORLD - 1, 0, 0));
    assert_eq!(a.component[0], v(100, 0, 0));
    assert!(a.anomaly[1].stable);
    assert_eq!(a.anomaly[1].position, v(-10 * UNIT + 5, 0, 0));
    // the next step goes on for the particle that stayed
    progress(&mut a, TS);
    assert_eq!(a.anomaly[1].position, v(-10 * UNIT + 10, 0, 0));
    assert_eq!(a.force[0], v(0, 0, 0));
    assert_eq!(a.force[1], v(0, 0, 0));
}

#[test]
fn motion_is_not_limited_inside_the_box() {
    let mut b = Anomaly::new();
    assert!(add_particle_by(&mut b, e(v(-WORLD, 0, 0), v(2 * WORLD, 0, 0), true)));
    progress(&mut b, 1);
    assert!(b.anomaly[0].stable);
    assert_eq!(b.anomaly[0].position, v(WORLD, 0, 0));
    assert_eq!(b.component[0], v(2 * WORLD, 0, 0));
    let mut a = Anomaly::new();
    assert!(add_particle_by(&mut a, e(v(0, 0, 0), v(VMAX, 0, 0), true)));
    progress(&mut a, 1);
    assert!(!a.anomaly[0].stable);
    assert_eq!(a.anomaly[0].position, v(0, 0, 0));
}

#[test]
fn seeding_alternates_kinds_inside_the_cube() {
    let mut rng = StdRng::seed_from_u64(99);
    let a = seed(&mut rng, 10);
    assert_eq!(a.anomaly.len(), 20);
    for (t, p) in a.anomaly.iter().enumerate() {
        assert!(p.stable);
        for c in [p.position.x, p.position.y, p.position.z] {
            assert!((0..=69 * UNIT).contains(&c));
        }
        match p.kind {
            Kind::Elementary => assert_eq!(t % 2, 0),
            Kind::Composite { secondary, family, flavor } => {
                assert_eq!(t % 2, 1);
                assert!(secondary && family < 3 && flavor == 0);
            }
        }
        assert_eq!(a.force[t], v(0, 0, 0));
        let c = a.component[t];
        let n2 = c.x * c.x + c.y * c.y + c.z * c.z;
        assert!(n2 <= (UNIT + 3) * (UNIT + 3) && n2 >= (UNIT - 3) * (UNIT - 3));
    }
}

#[test]
fn spawns_outside_the_box_are_refused() {
    let mut a = Anomaly::new();
    assert!(!add_particle_by(&mut a, e(v(WORLD + 1, 0, 0), v(0, 0, 0), true)));
    assert!(!add_particle_by(&mut a, e(v(0, 0, 0), v(0, 0, i64::MIN), true)));
    assert_eq!(a.anomaly.len(), 0);
    assert_eq!(a.force.len(), 0);
}

#[test]
fn spawns_beyond_capacity_are_refused() {
    let mut a = Anomaly::new();
    for i in 0..MAX_PARTICLES {
        assert!(add_particle_by(&mut a, e(v((i % 1000) as i64, 0, 0), v(0, 0, 0), true)));
    }
    assert!(!add_particle_by(&mut a, e(v(0, 0, 0), v(0, 0, 0), true)));
    assert_eq!(a.anomaly.len(), MAX_PARTICLES);
}

#[test]
fn composite_spawn_keeps_its_indices() {
    let (p, c) = q(v(1, 2, 3), v(4, 5, 6), true, false, 2, 7);
    assert_eq!(p.kind, Kind::Composite { secondary: false, family: 2, flavor: 7 });
    assert_eq!(p.position, v(1, 2, 3));
    assert_eq!(c, v(4, 5, 6));
}

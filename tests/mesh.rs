use rand::rngs::StdRng;
use rand::SeedableRng;
use u61q::anomaly::{add_particle_by, e, progress, q, Anomaly, Kind, Particle, TS};
use u61q::magma_ocean::{stone, view, Stone, E_HALF, Q_HALF, Q_LONG};
use u61q::vec3::{gen_3, V3, UNIT};

fn v(x: i64, y: i64, z: i64) -> V3 {
    V3 { x, y, z }
}

fn assert_valid(s: &Stone) {
    assert_eq!(s.indices.len() % 3, 0);
    assert_eq!(s.positions.len(), s.normals.len());
    for &i in &s.indices {
        assert!((i as usize) < s.positions.len());
    }
    for n in &s.normals {
        assert_eq!(n.x * n.x + n.y * n.y + n.z * n.z, UNIT * UNIT);
    }
}

#[test]
fn empty_simulation_gives_no_stones() {
    let a = Anomaly::new();
    assert!(view(&a).is_empty());
}

#[test]
fn every_stone_is_a_valid_mesh() {
    let mut rng = StdRng::seed_from_u64(17);
    let mut a = Anomaly::new();
    for i in 0..20u32 {
        let p = gen_3(0, 69 * UNIT, &mut rng);
        let spawn = if i % 2 == 0 { e(p, v(0, 0, 0), true) } else { q(p, v(0, 0, 0), true, true, i % 3, 0) };
        assert!(add_particle_by(&mut a, spawn));
    }
    progress(&mut a, TS);
    let stones = view(&a);
    assert_eq!(stones.len(), 20);
    for s in &stones {
        assert_valid(s);
        assert_eq!(s.indices.len(), 36);
        assert_eq!(s.positions.len(), 24);
    }
}

#[test]
fn elementary_stone_is_a_cube_at_the_particle() {
    let p = Particle { kind: Kind::Elementary, position: v(1000, -2000, 3000), stable: true };
    let s = stone(&p);
    assert_valid(&s);
    assert_eq!(s.positions[0], v(1000 + E_HALF, -2000 - E_HALF, 3000 - E_HALF));
    assert_eq!(s.positions[2], v(1000 + E_HALF, -2000 + E_HALF, 3000 + E_HALF));
    assert_eq!(s.normals[0], v(UNIT, 0, 0));
    assert_eq!(s.normals[4], v(-UNIT, 0, 0));
    assert_eq!(s.normals[8], v(0, UNIT, 0));
    assert_eq!(s.normals[12], v(0, -UNIT, 0));
    assert_eq!(s.normals[16], v(0, 0, UNIT));
    assert_eq!(s.normals[23], v(0, 0, -UNIT));
    assert_eq!(&s.indices[0..6], &[0, 1, 2, 0, 2, 3]);
}

#[test]
fn composite_stone_is_elongated() {
    let p = Particle {
        kind: Kind::Composite { secondary: true, family: 1, flavor: 0 },
        position: v(0, 0, 0),
        stable: true,
    };
    let s = stone(&p);
    assert_valid(&s);
    let max_x = s.positions.iter().map(|p| p.x).max().unwrap();
    let max_z = s.positions.iter().map(|p| p.z).max().unwrap();
    assert_eq!(max_x, Q_HALF);
    assert_eq!(max_z, Q_LONG);
}

#[test]
fn faces_wind_toward_their_normals() {
    let p = Particle { kind: Kind::Elementary, position: v(0, 0, 0), stable: true };
    let s = stone(&p);
    for t in s.indices.chunks(3) {
        let (a, b, c) = (s.positions[t[0] as usize], s.positions[t[1] as usize], s.positions[t[2] as usize]);
        let (e1, e2) = (v(b.x - a.x, b.y - a.y, b.z - a.z), v(c.x - a.x, c.y - a.y, c.z - a.z));
        let n = v(e1.y * e2.z - e1.z * e2.y, e1.z * e2.x - e1.x * e2.z, e1.x * e2.y - e1.y * e2.x);
        let m = s.normals[t[0] as usize];
        assert!(n.x * m.x + n.y * m.y + n.z * m.z > 0);
        assert!(a.x * m.x + a.y * m.y + a.z * m.z > 0);
    }
}

#[test]
fn inactive_particles_are_not_drawn() {
    let mut a = Anomaly::new();
    assert!(add_particle_by(&mut a, e(v(0, 0, 0), v(0, 0, 0), false)));
    assert!(add_particle_by(&mut a, q(v(5, 5, 5), v(0, 0, 0), true, true, 0, 0)));
    let stones = view(&a);
    assert_eq!(stones.len(), 1);
    assert_eq!(stones[0].positions[0], v(5 + Q_HALF, 5 - Q_HALF, 5 - Q_LONG));
}

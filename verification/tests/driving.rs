use barnes_hut::init::random_bodies;
use barnes_hut::{Body, Config, ConfigError, Phase, SetupError, Simulation, StepOutcome, Vec2};

fn moving(id: usize, x: i64, y: i64, mass: u64, vx: i64, vy: i64) -> Body {
    Body { id, position: Vec2::new(x, y), mass, velocity: Vec2::new(vx, vy), acceleration: Vec2::new(0, 0) }
}

fn config(count: usize, g: u64, dt: u32) -> Config {
    Config { body_count: count, spatial_radius: 100_000, gravitational_constant: g, theta_num: 1, theta_den: 2, timestep: dt }
}

fn state(sim: &Simulation) -> Vec<(Vec2, Vec2, Vec2)> {
    sim.bodies().iter().map(|b| (b.position, b.velocity, b.acceleration)).collect()
}

fn v(x: i64, y: i64) -> Vec2 {
    Vec2::new(x, y)
}

#[test]
fn a_valid_store_is_accepted() {
    let bodies = vec![moving(0, 0, 0, 1000, 0, 0), moving(1, 10_000, 0, 1000, 0, 0)];
    let sim = Simulation::new(config(2, 1_000_000, 1), bodies.clone()).unwrap();
    assert_eq!(sim.bodies(), &bodies);
    assert_eq!(sim.config(), config(2, 1_000_000, 1));
    assert_eq!(sim.phase(), Phase::Idle);
}

#[test]
fn a_store_under_an_invalid_configuration_is_refused() {
    let bad = Config { timestep: 0, ..config(1, 1, 1) };
    assert_eq!(Simulation::new(bad, vec![moving(0, 0, 0, 1, 0, 0)]).err(), Some(SetupError::Config(ConfigError::Timestep)));
    let none = Config { body_count: 0, ..config(1, 1, 1) };
    assert_eq!(Simulation::new(none, Vec::new()).err(), Some(SetupError::Config(ConfigError::BodyCount)));
}

#[test]
fn a_store_of_the_wrong_size_is_refused() {
    assert_eq!(Simulation::new(config(2, 1, 1), vec![moving(0, 0, 0, 1, 0, 0)]).err(), Some(SetupError::BodyCount));
    assert_eq!(Simulation::new(config(1, 1, 1), Vec::new()).err(), Some(SetupError::BodyCount));
}

#[test]
fn a_store_with_an_invalid_body_is_refused() {
    let l = barnes_hut::body::COORD_LIMIT;
    let good = moving(0, 0, 0, 1, 0, 0);
    let massless = vec![good, moving(1, 1, 1, 0, 0, 0), moving(2, 2, 2, 0, 0, 0)];
    assert_eq!(Simulation::new(config(3, 1, 1), massless).err(), Some(SetupError::Body { index: 1 }));
    let misplaced = vec![good, moving(1, 1, 1, 1, 0, 0), moving(5, 2, 2, 1, 0, 0)];
    assert_eq!(Simulation::new(config(3, 1, 1), misplaced).err(), Some(SetupError::Body { index: 2 }));
    let outside = vec![moving(0, l + 1, 0, 1, 0, 0)];
    assert_eq!(Simulation::new(config(1, 1, 1), outside).err(), Some(SetupError::Body { index: 0 }));
    let heavy = vec![moving(0, 0, 0, 0x4000_0000_0000_0001, 0, 0)];
    assert_eq!(Simulation::new(config(1, 1, 1), heavy).err(), Some(SetupError::Body { index: 0 }));
}

#[test]
fn a_store_that_is_too_heavy_for_the_constant_is_refused() {
    let half: u64 = 0x2000_0000_0000_0000;
    let bodies = vec![moving(0, 0, 0, half, 0, 0), moving(1, 1, 1, half, 0, 0)];
    assert!(Simulation::new(config(2, 1, 1), bodies.clone()).is_ok());
    assert_eq!(Simulation::new(config(2, 2, 1), bodies).err(), Some(SetupError::Strength));
    let three = vec![moving(0, 0, 0, half, 0, 0), moving(1, 1, 1, half, 0, 0), moving(2, 2, 2, 1, 0, 0)];
    assert_eq!(Simulation::new(config(3, 1, 1), three).err(), Some(SetupError::Strength));
    let light = vec![moving(0, 0, 0, 3, 0, 0), moving(1, 1, 1, 4, 0, 0)];
    assert!(Simulation::new(config(2, 0x4000_0000_0000_0000 / 7, 1), light.clone()).is_ok());
    assert_eq!(Simulation::new(config(2, 0x4000_0000_0000_0000 / 7 + 1, 1), light).err(), Some(SetupError::Strength));
}

#[test]
fn an_invalid_body_is_reported_before_the_weight() {
    let half: u64 = 0x2000_0000_0000_0000;
    let bodies = vec![moving(0, 0, 0, half, 0, 0), moving(1, 1, 1, half, 0, 0), moving(2, 2, 2, 1, 0, 0), moving(7, 3, 3, 1, 0, 0)];
    assert_eq!(Simulation::new(config(4, 1, 1), bodies).err(), Some(SetupError::Body { index: 3 }));
}

#[test]
fn a_frame_walks_through_the_phases() {
    let bodies = vec![moving(0, 0, 0, 1000, 0, 0), moving(1, 10_000, 0, 1000, 0, 0)];
    let mut sim = Simulation::new(config(2, 1_000_000, 1), bodies.clone()).unwrap();
    assert_eq!(sim.advance(), None);
    assert_eq!(sim.phase(), Phase::BuildingIndex);
    assert_eq!(sim.advance(), None);
    assert_eq!(sim.phase(), Phase::ApproximatingForces);
    assert_eq!(sim.advance(), None);
    assert_eq!(sim.phase(), Phase::Integrating);
    assert_eq!(sim.bodies(), &bodies);
    assert_eq!(sim.advance(), Some(StepOutcome::Advanced));
    assert_eq!(sim.phase(), Phase::Idle);
    assert_eq!(state(&sim), vec![(v(10, 0), v(10, 0), v(10, 0)), (v(9990, 0), v(-10, 0), v(-10, 0))]);
}

#[test]
fn two_bodies_fall_toward_each_other() {
    // Lengths and masses in thousandths: bodies at (0, 0) and (10, 0), unit
    // masses, G = 1, theta = 0.5, dt = 1.
    let bodies = vec![moving(0, 0, 0, 1000, 0, 0), moving(1, 10_000, 0, 1000, 0, 0)];
    let mut sim = Simulation::new(config(2, 1_000_000, 1), bodies).unwrap();
    assert_eq!(sim.step(), StepOutcome::Advanced);
    assert_eq!(state(&sim), vec![(v(10, 0), v(10, 0), v(10, 0)), (v(9990, 0), v(-10, 0), v(-10, 0))]);
    assert_eq!(sim.step(), StepOutcome::Advanced);
    assert_eq!(state(&sim), vec![(v(30, 0), v(20, 0), v(10, 0)), (v(9970, 0), v(-20, 0), v(-10, 0))]);
    assert_eq!(sim.step(), StepOutcome::Advanced);
    assert_eq!(state(&sim), vec![(v(60, 0), v(30, 0), v(10, 0)), (v(9940, 0), v(-30, 0), v(-10, 0))]);
    assert_eq!(sim.phase(), Phase::Idle);
}

#[test]
fn a_single_body_is_never_accelerated() {
    let mut sim = Simulation::new(config(1, 1_000_000, 1), vec![moving(0, 123, -456, 1000, 0, 0)]).unwrap();
    for _ in 0..10 {
        assert_eq!(sim.step(), StepOutcome::Advanced);
        assert_eq!(state(&sim), vec![(v(123, -456), v(0, 0), v(0, 0))]);
    }
    let mut drifting = Simulation::new(config(1, 1_000_000, 2), vec![moving(0, 0, 0, 1000, 3, -1)]).unwrap();
    for k in 1..=10 {
        assert_eq!(drifting.step(), StepOutcome::Advanced);
        assert_eq!(state(&drifting), vec![(v(6 * k, -2 * k), v(3, -1), v(0, 0))]);
    }
}

#[test]
fn five_bodies_advance_as_computed_by_hand() {
    let bodies = vec![
        moving(0, 0, 0, 5, 1, 2),
        moving(1, 3, 4, 7, 0, -1),
        moving(2, -6, 8, 11, 0, 0),
        moving(3, 100, -100, 2, -3, 3),
        moving(4, -3, -9, 1, 0, 0),
    ];
    let mut sim = Simulation::new(config(5, 1000, 2), bodies).unwrap();
    assert_eq!(sim.step(), StepOutcome::Advanced);
    assert_eq!(
        state(&sim),
        vec![
            (v(398, 1208), v(199, 604), v(99, 301)),
            (v(-937, -454), v(-470, -229), v(-235, -114)),
            (v(402, -292), v(204, -150), v(102, -75)),
            (v(94, -94), v(-3, 3), v(0, 0)),
            (v(101, 479), v(52, 244), v(26, 122)),
        ]
    );
    assert_eq!(sim.step(), StepOutcome::Advanced);
    assert_eq!(
        state(&sim),
        vec![
            (v(796, 2416), v(199, 604), v(0, 0)),
            (v(-1877, -912), v(-470, -229), v(0, 0)),
            (v(810, -592), v(204, -150), v(0, 0)),
            (v(88, -88), v(-3, 3), v(0, 0)),
            (v(205, 967), v(52, 244), v(0, 0)),
        ]
    );
}

#[test]
fn two_equal_masses_keep_their_total_momentum() {
    let bodies = vec![moving(0, -50, 0, 4, 0, 3), moving(1, 50, 0, 4, 0, -3)];
    let mut sim = Simulation::new(config(2, 100_000, 3), bodies).unwrap();
    let momentum = |s: &Simulation| {
        (
            s.bodies().iter().map(|b| b.mass as i64 * b.velocity.x).sum::<i64>(),
            s.bodies().iter().map(|b| b.mass as i64 * b.velocity.y).sum::<i64>(),
        )
    };
    assert_eq!(momentum(&sim), (0, 0));
    assert_eq!(sim.step(), StepOutcome::Advanced);
    assert_eq!(state(&sim), vec![(v(310, 9), v(120, 3), v(40, 0)), (v(-310, -9), v(-120, -3), v(-40, 0))]);
    assert_eq!(momentum(&sim), (0, 0));
    assert_eq!(sim.step(), StepOutcome::Advanced);
    assert_eq!(state(&sim), vec![(v(661, 18), v(117, 3), v(-1, 0)), (v(-661, -18), v(-117, -3), v(1, 0))]);
    assert_eq!(momentum(&sim), (0, 0));
}

#[test]
fn a_frame_that_would_leave_the_lattice_freezes_the_store() {
    let l = barnes_hut::body::COORD_LIMIT;
    let bodies = vec![moving(0, 0, 0, 1, 5, 5), moving(1, l, 0, 1, 1, 0), moving(2, 0, -l, 1, 0, -1)];
    let mut sim = Simulation::new(config(3, 1, 1), bodies.clone()).unwrap();
    assert_eq!(sim.step(), StepOutcome::Frozen { body: 1 });
    assert_eq!(sim.bodies(), &bodies);
    assert_eq!(sim.phase(), Phase::Idle);
    assert_eq!(sim.step(), StepOutcome::Frozen { body: 1 });
    assert_eq!(sim.bodies(), &bodies);
}

#[test]
fn a_step_finishes_a_frame_that_has_begun() {
    let bodies = vec![moving(0, 0, 0, 1000, 0, 0), moving(1, 10_000, 0, 1000, 0, 0)];
    let mut sim = Simulation::new(config(2, 1_000_000, 1), bodies).unwrap();
    assert_eq!(sim.advance(), None);
    assert_eq!(sim.advance(), None);
    assert_eq!(sim.step(), StepOutcome::Advanced);
    assert_eq!(sim.phase(), Phase::Idle);
    assert_eq!(state(&sim), vec![(v(10, 0), v(10, 0), v(10, 0)), (v(9990, 0), v(-10, 0), v(-10, 0))]);
}

#[test]
fn the_same_store_gives_the_same_frames() {
    let bodies: Vec<Body> = (0..50usize)
        .map(|i| moving(i, ((i * 7919) % 2001) as i64 - 1000, ((i * 104_729) % 2003) as i64 - 1000, 1 + (i % 3) as u64, 0, 0))
        .collect();
    let mut first = Simulation::new(config(50, 1_000_000, 1), bodies.clone()).unwrap();
    let mut second = Simulation::new(config(50, 1_000_000, 1), bodies).unwrap();
    for _ in 0..5 {
        assert_eq!(first.step(), second.step());
        assert_eq!(first.bodies(), second.bodies());
    }
}

#[test]
fn the_random_start_is_at_rest_within_the_radius() {
    let c = Config::new(200, 1000, 1_000_000, 1, 2, 1).unwrap();
    let bodies = random_bodies(&c);
    assert_eq!(bodies.len(), 200);
    for (i, b) in bodies.iter().enumerate() {
        assert_eq!(b.id, i);
        assert_eq!(b.mass, 1);
        assert_eq!(b.velocity, Vec2::new(0, 0));
        assert_eq!(b.acceleration, Vec2::new(0, 0));
        assert!(-1000 <= b.position.x && b.position.x < 1000);
        assert!(-1000 <= b.position.y && b.position.y < 1000);
        assert!(b.is_valid());
    }
    let first = bodies[0].position;
    assert!(bodies.iter().any(|b| b.position.x != first.x));
    assert!(bodies.iter().any(|b| b.position.y != first.y));
    assert!(bodies.iter().any(|b| b.position.x != -1000 && b.position.x != 999));
}

#[test]
fn the_random_start_within_the_smallest_radius_has_two_choices() {
    let c = Config::new(500, 1, 1, 1, 2, 1).unwrap();
    let bodies = random_bodies(&c);
    assert!(bodies.iter().all(|b| b.position.x == -1 || b.position.x == 0));
    assert!(bodies.iter().all(|b| b.position.y == -1 || b.position.y == 0));
    assert!(bodies.iter().any(|b| b.position.x == -1));
    assert!(bodies.iter().any(|b| b.position.x == 0));
}

#[test]
fn a_random_start_can_be_simulated() {
    let c = Config::new(300, 10_000, 1_000_000, 1, 2, 1).unwrap();
    let mut sim = Simulation::new(c, random_bodies(&c)).unwrap();
    for _ in 0..3 {
        assert_eq!(sim.step(), StepOutcome::Advanced);
    }
    assert_eq!(sim.bodies().len(), 300);
    assert!(sim.bodies().iter().all(|b| b.is_valid()));
}

#[test]
fn the_positions_are_handed_out_for_display() {
    let bodies = vec![moving(0, 0, 0, 1000, 0, 0), moving(1, 10_000, 0, 1000, 0, 0)];
    let mut sim = Simulation::new(config(2, 1_000_000, 1), bodies).unwrap();
    assert_eq!(sim.positions(), vec![v(0, 0), v(10_000, 0)]);
    sim.step();
    assert_eq!(sim.positions(), vec![v(10, 0), v(9990, 0)]);
}

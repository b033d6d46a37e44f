use barnes_hut::frame::{compute_accelerations, compute_direct_accelerations, integrate_all};
use barnes_hut::trace::record;
use barnes_hut::{bounding_region, construct_tree, integrate, Body, Config, Vec2};

fn moving(id: usize, x: i64, y: i64, mass: u64, vx: i64, vy: i64) -> Body {
    Body { id, position: Vec2::new(x, y), mass, velocity: Vec2::new(vx, vy), acceleration: Vec2::new(0, 0) }
}

#[test]
fn the_velocity_moves_first_and_the_position_with_the_new_velocity() {
    let b = moving(3, 100, -50, 7, 4, -2);
    let next = integrate(&b, Vec2::new(10, 5), 3).unwrap();
    assert_eq!(next.velocity, Vec2::new(4 + 10 * 3, -2 + 5 * 3));
    assert_eq!(next.position, Vec2::new(100 + 34 * 3, -50 + 13 * 3));
    assert_eq!(next.acceleration, Vec2::new(10, 5));
    assert_eq!(next.id, 3);
    assert_eq!(next.mass, 7);
}

#[test]
fn without_acceleration_a_body_keeps_its_velocity() {
    let b = moving(0, 1, 2, 1, -3, 4);
    let next = integrate(&b, Vec2::new(0, 0), 5).unwrap();
    assert_eq!(next.velocity, Vec2::new(-3, 4));
    assert_eq!(next.position, Vec2::new(1 - 15, 2 + 20));
}

#[test]
fn a_body_at_rest_without_acceleration_stays_where_it_is() {
    let b = moving(0, 1, 2, 1, 0, 0);
    assert_eq!(integrate(&b, Vec2::new(0, 0), 1_000_000), Some(b));
}

#[test]
fn a_step_off_the_lattice_is_refused() {
    let l = barnes_hut::body::COORD_LIMIT;
    assert!(integrate(&moving(0, l, 0, 1, 0, 0), Vec2::new(0, 0), 1).is_some());
    assert_eq!(integrate(&moving(0, l, 0, 1, 1, 0), Vec2::new(0, 0), 1), None);
    assert_eq!(integrate(&moving(0, l, 0, 1, 0, 0), Vec2::new(1, 0), 1), None);
    assert_eq!(integrate(&moving(0, 0, -l, 1, 0, -1), Vec2::new(0, 0), 1), None);
    assert_eq!(
        integrate(&moving(0, l - 6, -l + 6, 1, 1, -1), Vec2::new(1, -1), 2).map(|b| b.position),
        Some(Vec2::new(l, -l))
    );
}

#[test]
fn a_velocity_out_of_range_is_refused() {
    assert_eq!(integrate(&moving(0, 0, 0, 1, i64::MAX, 0), Vec2::new(1, 0), 1), None);
    assert_eq!(integrate(&moving(0, 0, 0, 1, 0, 0), Vec2::new(0, i64::MIN), 0x8000_0000), None);
    assert_eq!(integrate(&moving(0, 0, 0, 1, 0, -i64::MAX), Vec2::new(0, -1), 1), None);
    // The velocity fits, the position does not.
    assert_eq!(integrate(&moving(0, 0, 0, 1, i64::MAX - 1, 0), Vec2::new(1, 0), 1), None);
}

#[test]
fn a_step_of_no_time_changes_only_the_recorded_acceleration() {
    let b = moving(0, 5, 6, 1, 7, 8);
    let next = integrate(&b, Vec2::new(9, 9), 0).unwrap();
    assert_eq!(next, Body { acceleration: Vec2::new(9, 9), ..b });
}

#[test]
fn all_bodies_are_integrated_or_none() {
    let l = barnes_hut::body::COORD_LIMIT;
    let bodies = vec![moving(0, 0, 0, 1, 1, 1), moving(1, 10, 10, 1, 0, 0), moving(2, -10, 0, 2, 0, 5)];
    let accs = vec![Vec2::new(1, 0), Vec2::new(0, 0), Vec2::new(-2, -2)];
    let next = integrate_all(&bodies, &accs, 2).unwrap();
    assert_eq!(next.len(), 3);
    assert_eq!((next[0].position, next[0].velocity), (Vec2::new(6, 2), Vec2::new(3, 1)));
    assert_eq!(next[1], bodies[1]);
    assert_eq!((next[2].position, next[2].velocity), (Vec2::new(-18, 2), Vec2::new(-4, 1)));
    let stuck = vec![moving(0, 0, 0, 1, 1, 1), moving(1, l, 0, 1, 1, 0), moving(2, l, 0, 1, 1, 0)];
    assert_eq!(integrate_all(&stuck, &accs, 2), Err(1));
    assert_eq!(integrate_all(&Vec::new(), &Vec::new(), 2), Ok(Vec::new()));
}

#[test]
fn the_momentum_gains_the_net_force_times_the_step() {
    let bodies = vec![
        moving(0, 0, 0, 5, 1, 2),
        moving(1, 3, 4, 7, 0, -1),
        moving(2, -6, 8, 11, 0, 0),
        moving(3, 100, -100, 2, -3, 3),
        moving(4, -3, -9, 1, 0, 0),
    ];
    let config = Config { body_count: 5, spatial_radius: 100, gravitational_constant: 1000, theta_num: 1, theta_den: 2, timestep: 2 };
    let region = bounding_region(&bodies);
    let tree = construct_tree(&bodies, region);
    let accs = compute_accelerations(&bodies, &tree, region.side(), &config);
    assert_eq!(accs, vec![Vec2::new(99, 301), Vec2::new(-235, -114), Vec2::new(102, -75), Vec2::new(0, 0), Vec2::new(26, 122)]);
    let next = integrate_all(&bodies, &accs, 2).unwrap();
    let momentum = |bs: &Vec<Body>| {
        (bs.iter().map(|b| b.mass as i64 * b.velocity.x).sum::<i64>(), bs.iter().map(|b| b.mass as i64 * b.velocity.y).sum::<i64>())
    };
    let force: (i64, i64) = (
        bodies.iter().zip(&accs).map(|(b, a)| b.mass as i64 * a.x).sum(),
        bodies.iter().zip(&accs).map(|(b, a)| b.mass as i64 * a.y).sum(),
    );
    assert_eq!(momentum(&bodies), (-1, 9));
    assert_eq!(momentum(&next), (-5, 17));
    assert_eq!(momentum(&next), (momentum(&bodies).0 + force.0 * 2, momentum(&bodies).1 + force.1 * 2));
}

#[test]
fn a_trail_keeps_the_last_hundred_positions() {
    let mut trail: Vec<Vec2> = Vec::new();
    for i in 0..100 {
        record(&mut trail, Vec2::new(i, -i));
        assert_eq!(trail.len(), i as usize + 1);
    }
    assert_eq!(trail[0], Vec2::new(0, 0));
    record(&mut trail, Vec2::new(100, -100));
    assert_eq!(trail.len(), 100);
    assert_eq!(trail[0], Vec2::new(1, -1));
    assert_eq!(trail[99], Vec2::new(100, -100));
    for i in 101..250 {
        record(&mut trail, Vec2::new(i, -i));
    }
    assert_eq!(trail.len(), 100);
    assert_eq!(trail, (150..250).map(|i| Vec2::new(i, -i)).collect::<Vec<_>>());
}

#[test]
fn the_direct_accelerations_are_gathered_for_every_body() {
    let bodies = vec![moving(0, 0, 0, 5, 0, 0), moving(1, 3, 4, 7, 0, 0), moving(2, -6, 8, 11, 0, 0)];
    assert_eq!(
        compute_direct_accelerations(&bodies, 10_000),
        vec![Vec2::new(1020, 3120), Vec2::new(-2334, -1096), Vec2::new(1021, -720)]
    );
    assert_eq!(compute_direct_accelerations(&Vec::new(), 10_000), Vec::new());
}

#[test]
fn two_equal_masses_under_direct_attraction_keep_their_momentum() {
    let bodies = vec![moving(0, -17, 40, 6, 2, -1), moving(1, 25, -9, 6, -5, 4)];
    let accs = compute_direct_accelerations(&bodies, 1_000_000);
    assert_eq!(accs[0], Vec2::new(-accs[1].x, -accs[1].y));
    assert_ne!(accs[0], Vec2::new(0, 0));
    let next = integrate_all(&bodies, &accs, 3).unwrap();
    let before: (i64, i64) = (bodies.iter().map(|b| 6 * b.velocity.x).sum(), bodies.iter().map(|b| 6 * b.velocity.y).sum());
    let after: (i64, i64) = (next.iter().map(|b| 6 * b.velocity.x).sum(), next.iter().map(|b| 6 * b.velocity.y).sum());
    assert_eq!(before, (-18, 18));
    assert_eq!(after, before);
}

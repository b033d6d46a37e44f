use barnes_hut::{
    bounding_region, construct_tree, direct_gravity, get_approx_gravity, newton_gravity_acceleration, Body, Config,
    Quadtree, Region, Summary, Vec2,
};

fn body(id: usize, x: i64, y: i64, mass: u64) -> Body {
    Body::at_rest(id, Vec2::new(x, y), mass)
}

fn config(g: u64, theta_num: u16, theta_den: u16) -> Config {
    Config { body_count: 1, spatial_radius: 1, gravitational_constant: g, theta_num, theta_den, timestep: 1 }
}

fn five() -> Vec<Body> {
    vec![body(0, 0, 0, 5), body(1, 3, 4, 7), body(2, -6, 8, 11), body(3, 100, -100, 2), body(4, -3, -9, 1)]
}

#[test]
fn attraction_follows_the_inverse_square_law() {
    // Lengths and masses in thousandths: two unit masses ten apart, G = 1.
    let a = newton_gravity_acceleration(&Vec2::new(0, 0), &Vec2::new(10_000, 0), 1000, 1_000_000);
    assert_eq!(a, Vec2::new(10, 0));
    let b = newton_gravity_acceleration(&Vec2::new(10_000, 0), &Vec2::new(0, 0), 1000, 1_000_000);
    assert_eq!(b, Vec2::new(-10, 0));
    // Twice the distance, a quarter of the pull.
    let c = newton_gravity_acceleration(&Vec2::new(0, 0), &Vec2::new(0, 20_000), 1000, 1_000_000);
    assert_eq!(c, Vec2::new(0, 2));
}

#[test]
fn attraction_points_from_the_subject_to_the_source() {
    assert_eq!(newton_gravity_acceleration(&Vec2::new(0, 0), &Vec2::new(3, 4), 1, 1000), Vec2::new(24, 32));
    assert_eq!(newton_gravity_acceleration(&Vec2::new(0, 0), &Vec2::new(-3, -4), 1, 1000), Vec2::new(-24, -32));
    assert_eq!(newton_gravity_acceleration(&Vec2::new(3, 4), &Vec2::new(0, 0), 1, 1000), Vec2::new(-24, -32));
    assert_eq!(newton_gravity_acceleration(&Vec2::new(10, 10), &Vec2::new(13, 14), 1, 1000), Vec2::new(24, 32));
}

#[test]
fn attraction_is_rounded_toward_zero() {
    assert_eq!(newton_gravity_acceleration(&Vec2::new(0, 0), &Vec2::new(3, 4), 1, 100), Vec2::new(2, 3));
    assert_eq!(newton_gravity_acceleration(&Vec2::new(0, 0), &Vec2::new(-3, -4), 1, 100), Vec2::new(-2, -3));
    assert_eq!(newton_gravity_acceleration(&Vec2::new(0, 0), &Vec2::new(1, 1), 1, 10), Vec2::new(5, 5));
    assert_eq!(newton_gravity_acceleration(&Vec2::new(0, 0), &Vec2::new(-1, 1), 1, 10), Vec2::new(-5, 5));
}

#[test]
fn coincident_bodies_do_not_pull_each_other() {
    assert_eq!(newton_gravity_acceleration(&Vec2::new(7, -7), &Vec2::new(7, -7), 1000, 1_000_000), Vec2::new(0, 0));
}

#[test]
fn attraction_at_the_closest_distance_is_finite() {
    let g: u64 = 0x4000_0000_0000_0000;
    assert_eq!(newton_gravity_acceleration(&Vec2::new(0, 0), &Vec2::new(1, 0), 1, g), Vec2::new(g as i64, 0));
    assert_eq!(newton_gravity_acceleration(&Vec2::new(0, 0), &Vec2::new(0, -1), 1, g), Vec2::new(0, -(g as i64)));
}

#[test]
fn attraction_across_the_whole_lattice_does_not_overflow() {
    let l = barnes_hut::body::COORD_LIMIT;
    let a = newton_gravity_acceleration(&Vec2::new(-l, -l), &Vec2::new(l, l), 1, 0x4000_0000_0000_0000);
    // 2^62 * 2^32 / (2^65 * 6074000999) is below one.
    assert_eq!(a, Vec2::new(0, 0));
    let b = newton_gravity_acceleration(&Vec2::new(-l, 0), &Vec2::new(-l + 1, 0), 0x4000_0000_0000_0000, 1);
    assert_eq!(b, Vec2::new(0x4000_0000_0000_0000, 0));
}

#[test]
fn an_empty_tree_pulls_nothing() {
    let a = get_approx_gravity(body(0, 1, 2, 3), &Quadtree::Empty, 16, &config(1000, 1, 2));
    assert_eq!(a, Vec2::new(0, 0));
}

#[test]
fn a_body_does_not_pull_itself() {
    let b = body(0, 1, 2, 3);
    let a = get_approx_gravity(b, &Quadtree::Leaf { body: b }, 16, &config(1000, 1, 2));
    assert_eq!(a, Vec2::new(0, 0));
}

#[test]
fn a_body_is_pulled_by_another_at_its_own_position_with_zero() {
    let here = body(0, 1, 2, 3);
    let twin = body(1, 1, 2, 5);
    let a = get_approx_gravity(here, &Quadtree::Leaf { body: twin }, 16, &config(1000, 1, 2));
    assert_eq!(a, Vec2::new(0, 0));
}

#[test]
fn a_leaf_pulls_as_its_body_does() {
    let a = get_approx_gravity(body(0, 0, 0, 1), &Quadtree::Leaf { body: body(1, 3, 4, 1) }, 16, &config(1000, 1, 2));
    assert_eq!(a, Vec2::new(24, 32));
}

#[test]
fn two_bodies_pull_each_other_with_a_hundredth() {
    // Lengths and masses in thousandths: bodies at (0, 0) and (10, 0), unit
    // masses, G = 1, theta = 0.5.  The acceleration is 0.01 toward the other.
    let bodies = vec![body(0, 0, 0, 1000), body(1, 10_000, 0, 1000)];
    let region = bounding_region(&bodies);
    let tree = construct_tree(&bodies, region);
    let c = config(1_000_000, 1, 2);
    assert_eq!(get_approx_gravity(bodies[0], &tree, region.side(), &c), Vec2::new(10, 0));
    assert_eq!(get_approx_gravity(bodies[1], &tree, region.side(), &c), Vec2::new(-10, 0));
}

#[test]
fn a_far_node_stands_for_its_bodies() {
    let bodies = vec![body(0, 1000, 0, 1), body(1, 1002, 0, 1)];
    let tree = construct_tree(&bodies, Region { x0: 0, x1: 2048, y0: 0, y1: 2048 });
    let probe = body(99, 0, 0, 1);
    // With theta 1/2 the node of size 256 that holds both is far enough:
    // one pull of mass 2 from (1001, 0).
    assert_eq!(get_approx_gravity(probe, &tree, 2048, &config(1_000_000_000_000, 1, 2)), Vec2::new(1_996_005, 0));
    // With theta 0 every node is opened: the two pulls, each rounded.
    assert_eq!(get_approx_gravity(probe, &tree, 2048, &config(1_000_000_000_000, 0, 1)), Vec2::new(1_996_011, 0));
    assert_eq!(direct_gravity(probe, &bodies, 1_000_000_000_000), Vec2::new(1_000_000 + 996_011, 0));
}

#[test]
fn the_opening_test_compares_size_over_distance_with_theta() {
    // A node of mass 2 at (100, 0), with two children that pull differently.
    let left = body(1, 99, 0, 1);
    let right = body(2, 101, 0, 1);
    let node = Quadtree::InternalNode {
        summary: Summary { center_of_gravity: Vec2::new(100, 0), combined_mass: 2, moment_x: 200, moment_y: 0 },
        nw: Box::new(Quadtree::Leaf { body: left }),
        ne: Box::new(Quadtree::Leaf { body: right }),
        sw: Box::new(Quadtree::Empty),
        se: Box::new(Quadtree::Empty),
    };
    let probe = body(0, 0, 0, 1);
    let g = 1_000_000_000;
    let as_one = Vec2::new(200_000, 0);
    let opened = Vec2::new(102_030 + 98_029, 0);
    // size / distance = 49 / 100 < 1 / 2: far enough.
    assert_eq!(get_approx_gravity(probe, &node, 49, &config(g, 1, 2)), as_one);
    // size / distance = 50 / 100 is not below 1 / 2: opened.
    assert_eq!(get_approx_gravity(probe, &node, 50, &config(g, 1, 2)), opened);
    // size / distance = 149 / 100 < 3 / 2.
    assert_eq!(get_approx_gravity(probe, &node, 149, &config(g, 3, 2)), as_one);
    assert_eq!(get_approx_gravity(probe, &node, 150, &config(g, 3, 2)), opened);
    // With theta zero nothing is far enough, not even a node of size zero.
    assert_eq!(get_approx_gravity(probe, &node, 0, &config(g, 0, 1)), opened);
}

#[test]
fn a_node_at_distance_zero_is_opened() {
    let node = Quadtree::InternalNode {
        summary: Summary { center_of_gravity: Vec2::new(0, 0), combined_mass: 2, moment_x: 0, moment_y: 0 },
        nw: Box::new(Quadtree::Leaf { body: body(1, -3, -4, 1) }),
        ne: Box::new(Quadtree::Empty),
        sw: Box::new(Quadtree::Empty),
        se: Box::new(Quadtree::Leaf { body: body(2, 3, 4, 1) }),
    };
    assert_eq!(get_approx_gravity(body(0, 0, 0, 1), &node, 0, &config(1000, 3, 2)), Vec2::new(0, 0));
    let lone = Quadtree::InternalNode {
        summary: Summary { center_of_gravity: Vec2::new(0, 0), combined_mass: 1, moment_x: 0, moment_y: 0 },
        nw: Box::new(Quadtree::Empty),
        ne: Box::new(Quadtree::Empty),
        sw: Box::new(Quadtree::Empty),
        se: Box::new(Quadtree::Leaf { body: body(2, 3, 4, 1) }),
    };
    assert_eq!(get_approx_gravity(body(0, 0, 0, 1), &lone, 0, &config(1000, 3, 2)), Vec2::new(24, 32));
}

#[test]
fn a_cluster_pulls_as_one_point() {
    let bodies = vec![body(0, 2, 3, 4), body(1, 2, 3, 6), body(2, 7, 7, 1)];
    let tree = construct_tree(&bodies, Region { x0: 0, x1: 8, y0: 0, y1: 8 });
    let c = config(1000, 1, 2);
    assert_eq!(get_approx_gravity(bodies[0], &tree, 8, &c), Vec2::new(20, 16));
    assert_eq!(get_approx_gravity(bodies[1], &tree, 8, &c), Vec2::new(20, 16));
    assert_eq!(get_approx_gravity(bodies[2], &tree, 8, &c), Vec2::new(-203, -162));
}

#[test]
fn the_direct_sum_adds_the_pulls_of_all_others() {
    let bodies = vec![body(0, 0, 0, 5), body(1, 3, 4, 7), body(2, -6, 8, 11)];
    assert_eq!(direct_gravity(bodies[0], &bodies, 10_000), Vec2::new(1020, 3120));
    assert_eq!(direct_gravity(bodies[1], &bodies, 10_000), Vec2::new(-2334, -1096));
    assert_eq!(direct_gravity(bodies[2], &bodies, 10_000), Vec2::new(1021, -720));
    assert_eq!(direct_gravity(bodies[0], &Vec::new(), 10_000), Vec2::new(0, 0));
    assert_eq!(direct_gravity(bodies[0], &vec![bodies[0]], 10_000), Vec2::new(0, 0));
}

#[test]
fn with_theta_zero_the_tree_gives_the_direct_sum() {
    let bodies = five();
    let region = bounding_region(&bodies);
    let tree = construct_tree(&bodies, region);
    let c = config(1_000_000, 0, 1);
    let expected = [(98_367, 300_819), (-235_425, -114_201), (102_817, -75_490), (-789, 808), (26_717, 124_104)];
    for (b, e) in bodies.iter().zip(expected) {
        assert_eq!(get_approx_gravity(*b, &tree, region.side(), &c), Vec2::new(e.0, e.1));
        assert_eq!(direct_gravity(*b, &bodies, 1_000_000), Vec2::new(e.0, e.1));
    }
}

#[test]
fn two_bodies_with_theta_zero_follow_newton_exactly() {
    let bodies = vec![body(0, -17, 40, 3), body(1, 25, -9, 8)];
    let region = bounding_region(&bodies);
    let tree = construct_tree(&bodies, region);
    let c = config(123_456_789, 0, 1);
    let on_first = get_approx_gravity(bodies[0], &tree, region.side(), &c);
    let on_second = get_approx_gravity(bodies[1], &tree, region.side(), &c);
    assert_eq!(on_first, newton_gravity_acceleration(&bodies[0].position, &bodies[1].position, 8, 123_456_789));
    assert_eq!(on_second, newton_gravity_acceleration(&bodies[1].position, &bodies[0].position, 3, 123_456_789));
    assert_eq!(on_first, Vec2::new(155_617, -181_554));
    assert_eq!(on_second, Vec2::new(-58_356, 68_082));
}

#[test]
fn with_a_larger_theta_far_bodies_are_lumped() {
    let bodies = five();
    let region = bounding_region(&bodies);
    let tree = construct_tree(&bodies, region);
    let half = [(98_367, 300_819), (-235_425, -114_201), (102_817, -75_490), (-795, 811), (26_717, 124_104)];
    let three_halves = [(98_367, 300_819), (-235_425, -114_201), (102_817, -75_490), (-1003, 1013), (8418, 116_681)];
    for (i, b) in bodies.iter().enumerate() {
        assert_eq!(get_approx_gravity(*b, &tree, region.side(), &config(1_000_000, 1, 2)), Vec2::new(half[i].0, half[i].1));
        assert_eq!(
            get_approx_gravity(*b, &tree, region.side(), &config(1_000_000, 3, 2)),
            Vec2::new(three_halves[i].0, three_halves[i].1)
        );
    }
}

#[test]
fn the_pulls_of_the_corners_of_a_square_cancel_at_its_centre() {
    let corners = vec![body(0, 5, 5, 3), body(1, -5, -5, 3), body(2, -5, 5, 3), body(3, 5, -5, 3)];
    let region = Region { x0: -8, x1: 8, y0: -8, y1: 8 };
    let tree = construct_tree(&corners, region);
    for (num, den) in [(0, 1), (1, 2), (1, 1), (3, 2)] {
        let c = config(1_000_000, num, den);
        assert_eq!(get_approx_gravity(body(9, 0, 0, 1), &tree, 16, &c), Vec2::new(0, 0));
    }
    assert_eq!(direct_gravity(body(9, 0, 0, 1), &corners, 1_000_000), Vec2::new(0, 0));
    assert_eq!(
        newton_gravity_acceleration(&Vec2::new(0, 0), &Vec2::new(5, 5), 3, 1_000_000),
        Vec2::new(42_857, 42_857)
    );
}

#[test]
fn a_body_at_the_centre_of_a_square_of_bodies_is_not_accelerated() {
    let bodies = vec![body(0, 5, 5, 3), body(1, -5, -5, 3), body(2, -5, 5, 3), body(3, 5, -5, 3), body(4, 0, 0, 3)];
    let region = Region { x0: -8, x1: 8, y0: -8, y1: 8 };
    let tree = construct_tree(&bodies, region);
    let c = config(1_000_000, 1, 2);
    assert_eq!(get_approx_gravity(bodies[4], &tree, 16, &c), Vec2::new(0, 0));
    assert_eq!(get_approx_gravity(bodies[0], &tree, 16, &c), Vec2::new(-83_571, -83_571));
    assert_eq!(get_approx_gravity(bodies[1], &tree, 16, &c), Vec2::new(83_571, 83_571));
    assert_eq!(get_approx_gravity(bodies[2], &tree, 16, &c), Vec2::new(83_571, -83_571));
    assert_eq!(get_approx_gravity(bodies[3], &tree, 16, &c), Vec2::new(-83_571, 83_571));
}

#[test]
fn the_same_tree_gives_the_same_acceleration_every_time() {
    let bodies = five();
    let region = bounding_region(&bodies);
    let tree = construct_tree(&bodies, region);
    let again = construct_tree(&bodies, region);
    let c = config(1_000_000, 1, 2);
    for b in &bodies {
        let first = get_approx_gravity(*b, &tree, region.side(), &c);
        assert_eq!(first, get_approx_gravity(*b, &tree, region.side(), &c));
        assert_eq!(first, get_approx_gravity(*b, &again, region.side(), &c));
    }
}

#[test]
fn a_large_theta_lumps_a_light_body_with_its_heavy_neighbour() {
    let bodies = vec![body(0, 0, 0, 1), body(1, 100, 0, 1000)];
    let region = bounding_region(&bodies);
    let tree = construct_tree(&bodies, region);
    assert_eq!(region.side(), 101);
    let exact = newton_gravity_acceleration(&bodies[0].position, &bodies[1].position, 1000, 1_000_000);
    assert_eq!(exact, Vec2::new(100_000, 0));
    assert_eq!(get_approx_gravity(bodies[0], &tree, 101, &config(1_000_000, 0, 1)), exact);
    assert_eq!(get_approx_gravity(bodies[0], &tree, 101, &config(1_000_000, 1, 2)), exact);
    // With theta 3/2 the root, whose centre of gravity is at (99, 0), is far
    // enough for the light body: it is pulled by all the mass, its own too.
    assert_eq!(get_approx_gravity(bodies[0], &tree, 101, &config(1_000_000, 3, 2)), Vec2::new(102_132, 0));
    assert_eq!(get_approx_gravity(bodies[1], &tree, 101, &config(1_000_000, 3, 2)), Vec2::new(-100, 0));
}

#[test]
fn a_node_of_any_size_can_be_tested() {
    let bodies = vec![body(0, 0, 0, 1000), body(1, 10_000, 0, 1000)];
    let tree = construct_tree(&bodies, bounding_region(&bodies));
    let c = Config { theta_num: 65_535, theta_den: 65_535, ..config(1_000_000, 1, 1) };
    assert_eq!(get_approx_gravity(bodies[0], &tree, u64::MAX, &c), Vec2::new(10, 0));
    assert_eq!(get_approx_gravity(bodies[0], &tree, 0x4_0000_0000_0000, &config(1_000_000, 1, 1)), Vec2::new(10, 0));
    // A probe far from both, and a node of size zero: lumped.
    let probe = body(9, 5000, 1_000_000, 1);
    assert_eq!(get_approx_gravity(probe, &tree, 0, &config(1_000_000_000_000, 1, 1)), Vec2::new(0, -2000));
    assert_eq!(get_approx_gravity(probe, &tree, u64::MAX, &config(1_000_000_000_000, 1, 1)), Vec2::new(0, -1998));
}

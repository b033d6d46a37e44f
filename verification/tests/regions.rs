use barnes_hut::{bounding_region, Body, Quadrant, Region, Vec2};

fn body(id: usize, x: i64, y: i64, mass: u64) -> Body {
    Body::at_rest(id, Vec2::new(x, y), mass)
}

#[test]
fn a_region_needs_ordered_bounds_within_the_limit() {
    assert_eq!(Region::new(0, 8, -4, 4), Some(Region { x0: 0, x1: 8, y0: -4, y1: 4 }));
    assert_eq!(Region::new(3, 3, 0, 0), Some(Region { x0: 3, x1: 3, y0: 0, y1: 0 }));
    assert_eq!(Region::new(8, 0, -4, 4), None);
    assert_eq!(Region::new(0, 8, 4, -4), None);
    assert_eq!(Region::new(0, 0x2_0000_0001, 0, 1), None);
    assert_eq!(Region::new(-0x2_0000_0001, 0, 0, 1), None);
    assert!(Region::new(-0x2_0000_0000, 0x2_0000_0000, -0x2_0000_0000, 0x2_0000_0000).is_some());
}

#[test]
fn the_side_of_a_region_is_its_longer_side() {
    assert_eq!(Region { x0: 0, x1: 8, y0: -4, y1: 0 }.side(), 8);
    assert_eq!(Region { x0: 0, x1: 3, y0: -4, y1: 5 }.side(), 9);
    assert_eq!(Region { x0: 2, x1: 2, y0: 1, y1: 1 }.side(), 0);
}

#[test]
fn a_region_holds_its_low_bounds_and_not_its_high_bounds() {
    let r = Region { x0: -2, x1: 2, y0: 0, y1: 4 };
    assert!(r.contains(Vec2::new(-2, 0)));
    assert!(r.contains(Vec2::new(1, 3)));
    assert!(!r.contains(Vec2::new(2, 0)));
    assert!(!r.contains(Vec2::new(0, 4)));
    assert!(!r.contains(Vec2::new(-3, 1)));
}

#[test]
fn a_point_on_a_split_line_goes_east_and_south() {
    let r = Region { x0: -8, x1: 8, y0: -8, y1: 8 };
    assert_eq!(r.quadrant_of(Vec2::new(0, 0)), Quadrant::SE);
    assert_eq!(r.quadrant_of(Vec2::new(-1, 0)), Quadrant::SW);
    assert_eq!(r.quadrant_of(Vec2::new(0, -1)), Quadrant::NE);
    assert_eq!(r.quadrant_of(Vec2::new(-1, -1)), Quadrant::NW);
}

#[test]
fn a_point_outside_the_region_is_assigned_by_the_same_comparisons() {
    let r = Region { x0: 0, x1: 4, y0: 0, y1: 4 };
    assert_eq!(r.quadrant_of(Vec2::new(-100, -100)), Quadrant::NW);
    assert_eq!(r.quadrant_of(Vec2::new(100, -100)), Quadrant::NE);
    assert_eq!(r.quadrant_of(Vec2::new(-100, 100)), Quadrant::SW);
    assert_eq!(r.quadrant_of(Vec2::new(100, 100)), Quadrant::SE);
}

#[test]
fn the_four_quadrants_share_out_the_region() {
    let r = Region { x0: -3, x1: 4, y0: 10, y1: 15 };
    assert_eq!(r.child(Quadrant::NW), Region { x0: -3, x1: 0, y0: 10, y1: 12 });
    assert_eq!(r.child(Quadrant::NE), Region { x0: 0, x1: 4, y0: 10, y1: 12 });
    assert_eq!(r.child(Quadrant::SW), Region { x0: -3, x1: 0, y0: 12, y1: 15 });
    assert_eq!(r.child(Quadrant::SE), Region { x0: 0, x1: 4, y0: 12, y1: 15 });
    for x in -3..4 {
        for y in 10..15 {
            let p = Vec2::new(x, y);
            let q = r.quadrant_of(p);
            for c in [Quadrant::NW, Quadrant::NE, Quadrant::SW, Quadrant::SE] {
                assert_eq!(r.child(c).contains(p), c == q);
            }
        }
    }
}

#[test]
fn a_region_of_one_lattice_point_cannot_be_split() {
    assert!(!Region { x0: 5, x1: 6, y0: 5, y1: 6 }.can_split());
    assert!(!Region { x0: 5, x1: 5, y0: 5, y1: 6 }.can_split());
    assert!(Region { x0: 5, x1: 7, y0: 5, y1: 6 }.can_split());
    assert!(Region { x0: 5, x1: 6, y0: 5, y1: 7 }.can_split());
}

#[test]
fn the_bounding_region_is_a_square_with_one_unit_to_spare() {
    let bodies = vec![body(0, 0, 0, 5), body(1, 3, 4, 7), body(2, -6, 8, 11), body(3, 100, -100, 2), body(4, -3, -9, 1)];
    let r = bounding_region(&bodies);
    assert_eq!(r, Region { x0: -6, x1: 103, y0: -100, y1: 9 });
    for b in &bodies {
        assert!(r.contains(b.position));
    }
}

#[test]
fn the_bounding_region_of_one_point_is_one_lattice_point() {
    let bodies = vec![body(0, 7, -7, 1), body(1, 7, -7, 1)];
    assert_eq!(bounding_region(&bodies), Region { x0: 7, x1: 8, y0: -7, y1: -6 });
}

#[test]
fn the_bounding_region_of_no_body_is_the_unit_square() {
    assert_eq!(bounding_region(&Vec::new()), Region { x0: 0, x1: 1, y0: 0, y1: 1 });
}

#[test]
fn the_bounding_region_reaches_the_coordinate_limits() {
    let l = barnes_hut::body::COORD_LIMIT;
    let bodies = vec![body(0, -l, l, 1), body(1, l, -l, 1)];
    let r = bounding_region(&bodies);
    assert_eq!(r, Region { x0: -l, x1: l + 1, y0: -l, y1: l + 1 });
    assert_eq!(r.side(), 0x1_0000_0001);
}

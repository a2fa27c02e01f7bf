use hexgrid::AxialCoordinate;

fn at(q: isize, r: isize) -> AxialCoordinate {
    AxialCoordinate { q, r }
}

fn six_neighbors(c: AxialCoordinate) -> [AxialCoordinate; 6] {
    [
        c.down(),
        c.right_lower(),
        c.right_upper(),
        c.up(),
        c.left_upper(),
        c.left_lower(),
    ]
}

#[test]
fn round_trip_holds_away_from_the_origin() {
    for (q, r) in [(3, -7), (-12, 5), (41, 41), (-9, -9), (0, 1000)] {
        let c = at(q, r);
        assert_eq!(c.to_cubic().to_axial(), c);
    }
}

#[test]
fn round_trip_holds_at_the_ends_of_the_range() {
    for c in [
        at(isize::MAX, isize::MAX),
        at(isize::MIN, isize::MIN),
        at(isize::MAX, isize::MIN),
        at(isize::MIN, isize::MAX),
    ] {
        assert_eq!(c.to_cubic().to_axial(), c);
    }
}

#[test]
fn cubic_forms_are_equal_exactly_for_equal_coordinates() {
    assert_eq!(at(2, -5).to_cubic(), at(2, -5).to_cubic());
    assert_ne!(at(2, -5).to_cubic(), at(-5, 2).to_cubic());
    assert_ne!(at(2, -5).to_cubic(), at(2, -4).to_cubic());
}

#[test]
fn cubic_distance_agrees_with_axial_distance() {
    let a = at(-4, 9);
    let b = at(6, -1);
    assert_eq!(a.to_cubic().distance_from(b.to_cubic()), 10);
    assert_eq!(a.distance_from(b), 10);
}

#[test]
fn each_move_adds_its_offset() {
    let c = at(10, -20);
    assert_eq!(c.down(), at(11, -20));
    assert_eq!(c.right_lower(), at(11, -21));
    assert_eq!(c.right_upper(), at(10, -21));
    assert_eq!(c.up(), at(9, -20));
    assert_eq!(c.left_upper(), at(9, -19));
    assert_eq!(c.left_lower(), at(10, -19));
}

#[test]
fn moves_leave_the_receiver_unchanged() {
    let c = at(5, 6);
    let _ = c.down();
    let _ = c.left_upper();
    assert_eq!(c, at(5, 6));
}

#[test]
fn neighbors_are_at_unit_distance_from_any_coordinate() {
    for c in [at(0, 0), at(7, -3), at(-100, 250), at(-1, -1)] {
        for n in six_neighbors(c) {
            assert_eq!(c.distance_from(n), 1);
            assert_eq!(n.distance_from(c), 1);
        }
    }
}

#[test]
fn neighbors_are_distinct_around_any_coordinate() {
    for c in [at(7, -3), at(-100, 250), at(-1, -1)] {
        let ns = six_neighbors(c);
        for i in 0..6 {
            assert_ne!(ns[i], c);
            for j in (i + 1)..6 {
                assert_ne!(ns[i], ns[j]);
            }
        }
    }
}

#[test]
fn the_six_moves_in_turn_lead_back() {
    let c = at(-8, 13);
    let back = c
        .down()
        .right_lower()
        .right_upper()
        .up()
        .left_upper()
        .left_lower();
    assert_eq!(back, c);
}

#[test]
fn chained_moves_compose() {
    let c = at(0, 0);
    let moved = c.left_upper().down().right_upper();
    assert_eq!(moved, at(0, 0));
    assert_eq!(c.distance_from(moved), 0);
}

#[test]
fn distance_to_itself_is_zero() {
    for c in [at(0, 0), at(17, -4), at(isize::MAX, isize::MIN)] {
        assert_eq!(c.distance_from(c), 0);
    }
}

#[test]
fn distance_is_the_largest_cubic_difference() {
    // differences (3, -1, -2), (2, 2, -4), (-5, 0, 5), (-3, 7, -4)
    assert_eq!(at(0, 0).distance_from(at(3, -2)), 3);
    assert_eq!(at(0, 0).distance_from(at(2, -4)), 4);
    assert_eq!(at(1, 1).distance_from(at(-4, 6)), 5);
    assert_eq!(at(2, 3).distance_from(at(-1, -1)), 7);
}

#[test]
fn distance_is_symmetric() {
    let points = [at(0, 0), at(3, -2), at(-5, 5), at(12, 7), at(-9, -30)];
    for a in points {
        for b in points {
            assert_eq!(a.distance_from(b), b.distance_from(a));
        }
    }
}

#[test]
fn distance_is_never_negative() {
    let points = [at(0, 0), at(3, -2), at(-5, 5), at(12, 7), at(-9, -30)];
    for a in points {
        for b in points {
            assert!(a.distance_from(b) >= 0);
            assert_eq!(a.distance_from(b) == 0, a == b);
        }
    }
}

#[test]
fn distance_obeys_the_triangle_inequality() {
    let points = [at(0, 0), at(3, -2), at(-5, 5), at(12, 7), at(-9, -30)];
    for a in points {
        for b in points {
            for c in points {
                assert!(a.distance_from(c) <= a.distance_from(b) + b.distance_from(c));
            }
        }
    }
}

#[test]
fn distance_grows_by_one_with_each_move_down_from_anywhere() {
    let start = at(-6, 11);
    let mut c = start;
    for k in 1..=25 {
        c = c.down();
        assert_eq!(start.distance_from(c), k);
    }
}

#[test]
fn distance_across_the_whole_range_of_one_axis() {
    let low = at(0, 0);
    let high = at(isize::MAX, 0);
    assert_eq!(low.distance_from(high), isize::MAX);
    assert_eq!(at(-1, 0).distance_from(at(isize::MAX - 1, 0)), isize::MAX);
}

#[test]
fn distance_between_far_coordinates_that_are_close() {
    let a = at(isize::MAX, isize::MAX);
    let b = at(isize::MAX - 1, isize::MAX);
    assert_eq!(a.distance_from(b), 1);
    let c = at(isize::MIN, isize::MIN);
    assert_eq!(c.distance_from(at(isize::MIN + 2, isize::MIN + 3)), 5);
}

#[test]
fn moves_reach_the_ends_of_the_range() {
    assert_eq!(at(isize::MAX - 1, 0).down(), at(isize::MAX, 0));
    assert_eq!(at(isize::MIN + 1, 0).up(), at(isize::MIN, 0));
    assert_eq!(at(0, isize::MAX - 1).left_lower(), at(0, isize::MAX));
    assert_eq!(at(0, isize::MIN + 1).right_upper(), at(0, isize::MIN));
}

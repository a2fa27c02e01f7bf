use hexgrid::AxialCoordinate;
use std::collections::HashSet;

fn at(q: isize, r: isize) -> AxialCoordinate {
    AxialCoordinate { q, r }
}

#[test]
fn radius_zero_is_the_center_alone() {
    let c = at(-3, 8);
    assert_eq!(c.all_hexes_within_distance(0), vec![c]);
}

#[test]
fn negative_radius_gives_nothing() {
    assert!(at(0, 0).all_hexes_within_distance(-1).is_empty());
    assert!(at(5, 5).all_hexes_within_distance(-40).is_empty());
    assert!(at(isize::MAX, isize::MIN)
        .all_hexes_within_distance(isize::MIN)
        .is_empty());
}

#[test]
fn radius_one_comes_by_ascending_q_then_descending_r() {
    let cells = at(0, 0).all_hexes_within_distance(1);
    assert_eq!(
        cells,
        vec![
            at(-1, 1),
            at(-1, 0),
            at(0, 1),
            at(0, 0),
            at(0, -1),
            at(1, 0),
            at(1, -1),
        ]
    );
}

#[test]
fn radius_one_around_another_center_is_shifted() {
    let cells = at(10, -4).all_hexes_within_distance(1);
    assert_eq!(
        cells,
        vec![
            at(9, -3),
            at(9, -4),
            at(10, -3),
            at(10, -4),
            at(10, -5),
            at(11, -4),
            at(11, -5),
        ]
    );
}

#[test]
fn radius_two_comes_in_order() {
    let cells = at(0, 0).all_hexes_within_distance(2);
    assert_eq!(
        cells,
        vec![
            at(-2, 2),
            at(-2, 1),
            at(-2, 0),
            at(-1, 2),
            at(-1, 1),
            at(-1, 0),
            at(-1, -1),
            at(0, 2),
            at(0, 1),
            at(0, 0),
            at(0, -1),
            at(0, -2),
            at(1, 1),
            at(1, 0),
            at(1, -1),
            at(1, -2),
            at(2, 0),
            at(2, -1),
            at(2, -2),
        ]
    );
}

#[test]
fn radius_counts_follow_the_formula() {
    let c = at(4, -9);
    for n in 0..=12 {
        let cells = c.all_hexes_within_distance(n);
        assert_eq!(cells.len() as isize, 3 * n * n + 3 * n + 1);
    }
    assert_eq!(c.all_hexes_within_distance(3).len(), 37);
    assert_eq!(c.all_hexes_within_distance(10).len(), 331);
}

#[test]
fn radius_holds_no_coordinate_twice() {
    let cells = at(-2, 6).all_hexes_within_distance(6);
    let distinct: HashSet<AxialCoordinate> = cells.iter().copied().collect();
    assert_eq!(distinct.len(), cells.len());
}

#[test]
fn radius_holds_exactly_the_coordinates_in_reach() {
    let c = at(3, -1);
    let n = 4;
    let cells: HashSet<AxialCoordinate> = c.all_hexes_within_distance(n).into_iter().collect();
    for q in -8..=14 {
        for r in -12..=10 {
            let p = at(q, r);
            assert_eq!(cells.contains(&p), c.distance_from(p) <= n);
        }
    }
}

#[test]
fn radius_rings_hold_six_times_their_distance() {
    let c = at(0, 0);
    let cells = c.all_hexes_within_distance(5);
    assert_eq!(cells.len(), 91);
    for ring in 1..=5 {
        let on_ring = cells.iter().filter(|p| c.distance_from(**p) == ring).count();
        assert_eq!(on_ring as isize, 6 * ring);
    }
    assert_eq!(cells.iter().filter(|p| c.distance_from(**p) == 0).count(), 1);
}

#[test]
fn radius_at_the_corner_of_the_range() {
    let c = at(isize::MAX - 1, isize::MIN + 1);
    let cells = c.all_hexes_within_distance(1);
    assert_eq!(cells.len(), 7);
    assert_eq!(cells[0], at(isize::MAX - 2, isize::MIN + 2));
    assert_eq!(cells[6], at(isize::MAX, isize::MIN));
}

#[test]
fn cubic_radius_matches_axial_radius() {
    let c = at(2, 2);
    let cubes = c.to_cubic().all_hexes_within_distance(3);
    let cells = c.all_hexes_within_distance(3);
    assert_eq!(cubes.len(), cells.len());
    for (cube, cell) in cubes.iter().zip(cells.iter()) {
        assert_eq!(cube.to_axial(), *cell);
        assert_eq!(*cube, cell.to_cubic());
    }
}

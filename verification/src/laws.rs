//! What holds of the coordinate algebra and of the grid, proved over the
//! plane of unbounded integers.
use crate::hex::AxialCoordinate;
use crate::plane::{
    cells_before_row, disc_size, enumerates_disc, in_enumeration_order, is_walk, CubePoint,
    HexPoint,
};
use vstd::prelude::*;

verus! {

/// Going from axial to cubic form and back gives the point one started
/// from, and the cubic form lies on the plane.
pub proof fn lemma_axial_cubic_round_trip(q: int, r: int)
    ensures
        (HexPoint { q, r }).to_cube().to_hex() == (HexPoint { q, r }),
        (HexPoint { q, r }).to_cube().on_plane(),
{
}

/// Going from a cubic point on the plane to axial form and back gives the
/// point one started from: the two forms correspond one to one.
pub proof fn lemma_cubic_axial_round_trip(c: CubePoint)
    requires
        c.on_plane(),
    ensures
        c.to_hex().to_cube() == c,
{
}

/// Each of the six neighbours of a cell is at distance 1 from it.
pub proof fn lemma_neighbors_at_unit_distance(c: HexPoint)
    ensures
        c.distance(c.down()) == 1,
        c.distance(c.right_lower()) == 1,
        c.distance(c.right_upper()) == 1,
        c.distance(c.up()) == 1,
        c.distance(c.left_upper()) == 1,
        c.distance(c.left_lower()) == 1,
        forall|i: int| 0 <= i < 6 ==> c.distance(#[trigger] c.neighbors()[i]) == 1,
{
}

/// The six neighbours of a cell are six different cells.
pub proof fn lemma_neighbors_distinct(c: HexPoint)
    ensures
        c.neighbors().len() == 6,
        c.neighbors().no_duplicates(),
        forall|i: int| 0 <= i < 6 ==> #[trigger] c.neighbors()[i] != c,
{
}

/// The cells at distance 1 from a cell are its six neighbours and no
/// others.
pub proof fn lemma_adjacent_is_unit_distance(a: HexPoint, b: HexPoint)
    ensures
        a.adjacent(b) <==> a.distance(b) == 1,
        a.adjacent(b) <==> a.neighbors().contains(b),
        a.adjacent(b) <==> b.adjacent(a),
{
    if a.adjacent(b) {
        let i: int = if b == a.down() {
            0
        } else if b == a.right_lower() {
            1
        } else if b == a.right_upper() {
            2
        } else if b == a.up() {
            3
        } else if b == a.left_upper() {
            4
        } else {
            5
        };
        assert(a.neighbors()[i] == b);
    }
}

/// The six moves, one after the other, lead back to the start: their
/// offsets sum to zero.
pub proof fn lemma_six_moves_return(c: HexPoint)
    ensures
        c.down().right_lower().right_upper().up().left_upper().left_lower() == c,
{
}

/// The distance from `a` to `b` is the distance from `b` to `a`.
pub proof fn lemma_distance_symmetric(a: HexPoint, b: HexPoint)
    ensures
        a.distance(b) == b.distance(a),
{
}

/// A distance is never negative, and it is zero between a cell and itself
/// only.
pub proof fn lemma_distance_zero_iff_same(a: HexPoint, b: HexPoint)
    ensures
        a.distance(b) >= 0,
        a.distance(b) == 0 <==> a == b,
{
}

/// Going through a third cell is never shorter.
pub proof fn lemma_distance_triangle(a: HexPoint, b: HexPoint, c: HexPoint)
    ensures
        a.distance(c) <= a.distance(b) + b.distance(c),
{
}

/// After `k` moves down, a cell is at distance `k` from where it started.
pub proof fn lemma_distance_after_moves_down(c: HexPoint, k: nat)
    ensures
        c.down_by(k) == (HexPoint { q: c.q + k, r: c.r }),
        c.distance(c.down_by(k)) == k,
    decreases k,
{
    if k > 0 {
        lemma_distance_after_moves_down(c, (k - 1) as nat);
    }
}

/// No walk is shorter than the distance between its ends.
pub proof fn lemma_walk_not_shorter_than_distance(path: Seq<HexPoint>)
    requires
        path.len() >= 1,
        is_walk(path),
    ensures
        path.first().distance(path.last()) <= path.len() - 1,
    decreases path.len(),
{
    if path.len() > 1 {
        let shorter = path.drop_last();
        assert forall|i: int| 0 <= i < shorter.len() - 1 implies (#[trigger] shorter[i]).adjacent(
            shorter[i + 1],
        ) by {
            assert(path[i].adjacent(path[i + 1]));
        }
        lemma_walk_not_shorter_than_distance(shorter);
        let i = path.len() - 2;
        assert(path[i].adjacent(path[i + 1]));
        lemma_adjacent_is_unit_distance(path[i], path.last());
        lemma_distance_triangle(path.first(), shorter.last(), path.last());
    }
}

/// Between any two cells there is a walk of as many steps as their
/// distance: with the law above, the distance is the least number of steps
/// from one to the other.
pub proof fn lemma_walk_of_distance_steps(a: HexPoint, b: HexPoint)
    ensures
        is_walk(a.walk_to(b)),
        a.walk_to(b).len() == a.distance(b) + 1,
        a.walk_to(b).first() == a,
        a.walk_to(b).last() == b,
    decreases a.distance(b),
{
    if a != b {
        let next = a.step_toward(b);
        lemma_walk_of_distance_steps(next, b);
        let rest = next.walk_to(b);
        let path = a.walk_to(b);
        assert(path == seq![a] + rest);
        assert(a.adjacent(next));
        assert forall|i: int| 0 <= i < path.len() - 1 implies (#[trigger] path[i]).adjacent(
            path[i + 1],
        ) by {
            if i > 0 {
                assert(rest[i - 1].adjacent(rest[i - 1 + 1]));
            }
        }
    }
}

/// The rows along the first cubic axis, from `-n` up to but not including
/// `dx`, hold `(dx + n)(dx + 3n + 1) / 2` cells where `dx <= 0`, and
/// `n(3n + 1) / 2 + dx(2n + 1) - dx(dx - 1) / 2` where `dx >= 0`.
pub proof fn lemma_cells_before_row(n: int, dx: int)
    requires
        n >= 0,
        -n <= dx <= n + 1,
    ensures
        dx <= 0 ==> 2 * cells_before_row(n, dx) == (dx + n) * (dx + 3 * n + 1),
        dx >= 0 ==> 2 * cells_before_row(n, dx) == n * (3 * n + 1) + 2 * dx * (2 * n + 1) - dx * (
        dx - 1),
    decreases dx + n,
{
    if dx > -n {
        lemma_cells_before_row(n, dx - 1);
        if dx <= 0 {
            assert((dx + n) * (dx + 3 * n + 1) == (dx - 1 + n) * (dx - 1 + 3 * n + 1) + 2 * (2 * n
                + 1 + (dx - 1))) by (nonlinear_arith);
        } else {
            assert(n * (3 * n + 1) + 2 * dx * (2 * n + 1) - dx * (dx - 1) == n * (3 * n + 1) + 2
                * (dx - 1) * (2 * n + 1) - (dx - 1) * (dx - 2) + 2 * (2 * n + 1 - (dx - 1)))
                by (nonlinear_arith);
        }
    }
    if dx == 0 {
        assert((dx + n) * (dx + 3 * n + 1) == n * (3 * n + 1) + 2 * dx * (2 * n + 1) - dx * (dx
            - 1)) by (nonlinear_arith)
            requires
                dx == 0,
        ;
    }
    if dx == -n {
        assert((dx + n) * (dx + 3 * n + 1) == 0) by (nonlinear_arith)
            requires
                dx + n == 0,
        ;
    }
}

/// The rows from `-n` to `n` together hold `3n² + 3n + 1` cells.
pub proof fn lemma_rows_fill_disc(n: int)
    requires
        n >= 0,
    ensures
        cells_before_row(n, n + 1) == disc_size(n),
{
    lemma_cells_before_row(n, n + 1);
    assert(n * (3 * n + 1) + 2 * (n + 1) * (2 * n + 1) - (n + 1) * (n + 1 - 1) == 2 * (3 * n * n
        + 3 * n + 1)) by (nonlinear_arith);
}

/// Two sequences in enumeration order that hold the same cells are the
/// same sequence.
pub proof fn lemma_enumeration_order_unique(a: Seq<HexPoint>, b: Seq<HexPoint>)
    requires
        in_enumeration_order(a),
        in_enumeration_order(b),
        forall|p: HexPoint| a.contains(p) <==> b.contains(p),
    ensures
        a == b,
    decreases a.len(),
{
    if a.len() == 0 {
        if b.len() > 0 {
            assert(b.contains(b[0]));
        }
        assert(a =~= b);
    } else {
        let top = a.last();
        assert(a.contains(top));
        assert(b.contains(top));
        let other = b.last();
        assert(b.contains(other));
        assert(a.contains(other));
        let i = choose|i: int| 0 <= i < a.len() && a[i] == other;
        let j = choose|j: int| 0 <= j < b.len() && b[j] == top;
        if i < a.len() - 1 {
            assert(a[i].precedes(a[a.len() - 1]));
        }
        if j < b.len() - 1 {
            assert(b[j].precedes(b[b.len() - 1]));
        }
        assert(top == other);
        let a0 = a.drop_last();
        let b0 = b.drop_last();
        assert forall|p: HexPoint| a0.contains(p) <==> b0.contains(p) by {
            if a0.contains(p) {
                let k = choose|k: int| 0 <= k < a0.len() && a0[k] == p;
                assert(a[k].precedes(a[a.len() - 1]));
                assert(a.contains(p));
                let m = choose|m: int| 0 <= m < b.len() && b[m] == p;
                assert(b0[m] == p);
            }
            if b0.contains(p) {
                let k = choose|k: int| 0 <= k < b0.len() && b0[k] == p;
                assert(b[k].precedes(b[b.len() - 1]));
                assert(b.contains(p));
                let m = choose|m: int| 0 <= m < a.len() && a[m] == p;
                assert(a0[m] == p);
            }
        }
        assert forall|x: int, y: int| 0 <= x < y < a0.len() implies (#[trigger] a0[x]).precedes(
            #[trigger] a0[y],
        ) by {
            assert(a[x].precedes(a[y]));
        }
        assert forall|x: int, y: int| 0 <= x < y < b0.len() implies (#[trigger] b0[x]).precedes(
            #[trigger] b0[y],
        ) by {
            assert(b[x].precedes(b[y]));
        }
        lemma_enumeration_order_unique(a0, b0);
        assert(a =~= a0.push(top));
        assert(b =~= b0.push(other));
    }
}

/// The cells within a distance of a cell have one enumeration only.
pub proof fn lemma_disc_enumeration_unique(
    a: Seq<HexPoint>,
    b: Seq<HexPoint>,
    center: HexPoint,
    n: int,
)
    requires
        enumerates_disc(a, center, n),
        enumerates_disc(b, center, n),
    ensures
        a == b,
{
    lemma_enumeration_order_unique(a, b);
}

/// The cells within distance 0 of a cell are that cell alone, and those
/// within distance 1 are the cell and its six neighbours.
pub proof fn lemma_smallest_discs(cells: Seq<HexPoint>, center: HexPoint, n: int)
    requires
        enumerates_disc(cells, center, n),
    ensures
        n < 0 ==> cells.len() == 0,
        n == 0 ==> cells == seq![center],
        n == 1 ==> cells.len() == 7 && forall|p: HexPoint|
            cells.contains(p) <==> p == center || center.adjacent(p),
{
    if n == 0 {
        assert(cells.contains(center));
        assert(cells =~= seq![center]);
    }
    if n == 1 {
        assert forall|p: HexPoint| cells.contains(p) <==> p == center || center.adjacent(p) by {
            lemma_adjacent_is_unit_distance(center, p);
            lemma_distance_zero_iff_same(center, p);
        }
    }
}

/// A grid with no cell occupied holds nothing at any cell.
pub proof fn lemma_empty_grid_holds_nothing<T>(c: AxialCoordinate)
    ensures
        !Map::<AxialCoordinate, T>::empty().contains_key(c),
{
}

/// After an insertion at a cell, the grid holds the inserted payload
/// there, whatever it held before.
pub proof fn lemma_insert_then_get<T>(grid: Map<AxialCoordinate, T>, c: AxialCoordinate, t: T)
    ensures
        grid.insert(c, t).contains_key(c),
        grid.insert(c, t)[c] == t,
{
}

/// Of two insertions at one cell the second one stays: the grid is as if
/// the first had not been made.
pub proof fn lemma_second_insert_wins<T>(
    grid: Map<AxialCoordinate, T>,
    c: AxialCoordinate,
    first: T,
    second: T,
)
    ensures
        grid.insert(c, first).insert(c, second) == grid.insert(c, second),
        grid.insert(c, first).insert(c, second)[c] == second,
{
    assert(grid.insert(c, first).insert(c, second) =~= grid.insert(c, second));
}

/// An insertion at a cell changes no other cell: one that was empty stays
/// empty, and one that was occupied keeps its payload.
pub proof fn lemma_insert_keeps_other_cells<T>(
    grid: Map<AxialCoordinate, T>,
    c: AxialCoordinate,
    t: T,
    other: AxialCoordinate,
)
    requires
        other != c,
    ensures
        grid.insert(c, t).contains_key(other) == grid.contains_key(other),
        grid.contains_key(other) ==> grid.insert(c, t)[other] == grid[other],
{
}

} // verus!

//! Axial and cubic coordinates on machine integers.
use crate::laws::lemma_rows_fill_disc;
use crate::plane::{abs, cells_before_row, enumerates_disc, CubePoint, HexPoint};
use vstd::prelude::*;

verus! {

/// A cell of a hexagonal grid, addressed by `(q, r)`.
///
/// Two coordinates are equal when both components are. The value is never
/// changed in place: each move returns a new coordinate.
#[derive(Debug, PartialEq, Eq, Hash, Clone, Copy, Structural)]
pub struct AxialCoordinate {
    pub q: isize,
    pub r: isize,
}

impl View for AxialCoordinate {
    type V = HexPoint;

    open spec fn view(&self) -> HexPoint {
        HexPoint { q: self.q as int, r: self.r as int }
    }
}

/// The cubic form of an [`AxialCoordinate`].
///
/// Every value is the image of an axial coordinate: `x` and `z` fit in an
/// `isize`, and `y` is `-x - z`, so the three components sum to zero.
#[derive(Debug, PartialEq, Eq, Hash)]
pub struct CubicCoordinate {
    x: i128,
    y: i128,
    z: i128,
}

impl View for CubicCoordinate {
    type V = CubePoint;

    closed spec fn view(&self) -> CubePoint {
        CubePoint { x: self.x as int, y: self.y as int, z: self.z as int }
    }
}

/// The cells that a sequence of axial coordinates stands for.
pub open spec fn hex_points(cells: Seq<AxialCoordinate>) -> Seq<HexPoint> {
    Seq::new(cells.len(), |i: int| cells[i]@)
}

/// The cells that a sequence of cubic coordinates stands for.
pub open spec fn cube_points(cells: Seq<CubicCoordinate>) -> Seq<HexPoint> {
    Seq::new(cells.len(), |i: int| cells[i]@.to_hex())
}

impl AxialCoordinate {
    /// The cubic form `(q, -q - r, r)`. It lies on the plane, and
    /// [`CubicCoordinate::to_axial`] leads back to `self`.
    pub fn to_cubic(&self) -> (cube: CubicCoordinate)
        ensures
            cube@ == self@.to_cube(),
            cube@.on_plane(),
            cube@.to_hex() == self@,
    {
        let q: i128 = self.q as i128;
        let r: i128 = self.r as i128;
        CubicCoordinate { x: q, y: -q - r, z: r }
    }

    /// The neighbour at `(q + 1, r)`.
    pub fn down(&self) -> (next: AxialCoordinate)
        requires
            self@.down().representable(),
        ensures
            next@ == self@.down(),
    {
        AxialCoordinate { q: self.q + 1, r: self.r }
    }

    /// The neighbour at `(q + 1, r - 1)`.
    pub fn right_lower(&self) -> (next: AxialCoordinate)
        requires
            self@.right_lower().representable(),
        ensures
            next@ == self@.right_lower(),
    {
        AxialCoordinate { q: self.q + 1, r: self.r - 1 }
    }

    /// The neighbour at `(q, r - 1)`.
    pub fn right_upper(&self) -> (next: AxialCoordinate)
        requires
            self@.right_upper().representable(),
        ensures
            next@ == self@.right_upper(),
    {
        AxialCoordinate { q: self.q, r: self.r - 1 }
    }

    /// The neighbour at `(q - 1, r)`.
    pub fn up(&self) -> (next: AxialCoordinate)
        requires
            self@.up().representable(),
        ensures
            next@ == self@.up(),
    {
        AxialCoordinate { q: self.q - 1, r: self.r }
    }

    /// The neighbour at `(q - 1, r + 1)`.
    pub fn left_upper(&self) -> (next: AxialCoordinate)
        requires
            self@.left_upper().representable(),
        ensures
            next@ == self@.left_upper(),
    {
        AxialCoordinate { q: self.q - 1, r: self.r + 1 }
    }

    /// The neighbour at `(q, r + 1)`.
    pub fn left_lower(&self) -> (next: AxialCoordinate)
        requires
            self@.left_lower().representable(),
        ensures
            next@ == self@.left_lower(),
    {
        AxialCoordinate { q: self.q, r: self.r + 1 }
    }

    /// The distance to `other`: the largest absolute difference of the two
    /// cubic forms over the three axes.
    pub fn distance_from(&self, other: AxialCoordinate) -> (steps: isize)
        requires
            self@.distance(other@) <= isize::MAX,
        ensures
            steps == self@.distance(other@),
    {
        self.to_cubic().distance_from(other.to_cubic())
    }

    /// Every cell within `distance` of `self`, `self` among them: each
    /// once, by ascending `q` and within one `q` by descending `r`. There
    /// are `3 * distance² + 3 * distance + 1` of them, and none where
    /// `distance` is negative.
    pub fn all_hexes_within_distance(&self, distance: isize) -> (cells: Vec<AxialCoordinate>)
        requires
            self@.disc_representable(distance as int),
        ensures
            enumerates_disc(hex_points(cells@), self@, distance as int),
    {
        let cubes = self.to_cubic().all_hexes_within_distance(distance);
        let mut cells: Vec<AxialCoordinate> = Vec::new();
        let mut i: usize = 0;
        while i < cubes.len()
            invariant
                i <= cubes.len(),
                cells.len() == i,
                forall|k: int| 0 <= k < i ==> (#[trigger] cells[k])@ == cubes[k]@.to_hex(),
            decreases cubes.len() - i,
        {
            cells.push(cubes[i].to_axial());
            i += 1;
        }
        assert(hex_points(cells@) =~= cube_points(cubes@));
        cells
    }
}

impl CubicCoordinate {
    #[verifier::type_invariant]
    spec fn is_image_of_axial(&self) -> bool {
        &&& isize::MIN <= self.x <= isize::MAX
        &&& isize::MIN <= self.z <= isize::MAX
        &&& self.y == -self.x - self.z
    }

    /// The axial form `(x, z)`. [`AxialCoordinate::to_cubic`] leads back
    /// to `self`.
    pub fn to_axial(&self) -> (hex: AxialCoordinate)
        ensures
            hex@ == self@.to_hex(),
            hex@.to_cube() == self@,
            self@.on_plane(),
    {
        proof {
            use_type_invariant(self);
        }
        AxialCoordinate { q: self.x as isize, r: self.z as isize }
    }

    /// The largest absolute difference to `other` over the three axes.
    pub fn distance_from(&self, other: CubicCoordinate) -> (steps: isize)
        requires
            self@.distance(other@) <= isize::MAX,
        ensures
            steps == self@.distance(other@),
    {
        proof {
            use_type_invariant(self);
            use_type_invariant(&other);
        }
        let dx: i128 = magnitude(self.x - other.x);
        let dy: i128 = magnitude(self.y - other.y);
        let dz: i128 = magnitude(self.z - other.z);
        let mut longest: i128 = dx;
        if dy > longest {
            longest = dy;
        }
        if dz > longest {
            longest = dz;
        }
        longest as isize
    }

    /// Every cell within `distance` of `self`, in cubic form: for each
    /// offset `dx` from `-distance` to `distance` along the first axis, the
    /// offsets `dy` along the second from `max(-distance, -dx - distance)`
    /// to `min(distance, -dx + distance)`, and `-dx - dy` along the third.
    pub fn all_hexes_within_distance(&self, distance: isize) -> (cells: Vec<CubicCoordinate>)
        requires
            self@.to_hex().disc_representable(distance as int),
        ensures
            enumerates_disc(cube_points(cells@), self@.to_hex(), distance as int),
    {
        proof {
            use_type_invariant(self);
        }
        let mut cells: Vec<CubicCoordinate> = Vec::new();
        if distance < 0 {
            assert forall|p: HexPoint| self@.to_hex().distance(p) <= distance implies cube_points(
                cells@,
            ).contains(p) by {}
            return cells;
        }
        let n: i128 = distance as i128;
        let ghost center = self@.to_hex();
        let mut dx: i128 = -n;
        while dx <= n
            invariant
                0 <= n <= isize::MAX,
                center == self@.to_hex(),
                center.disc_representable(n as int),
                isize::MIN <= self.x <= isize::MAX,
                isize::MIN <= self.z <= isize::MAX,
                self.y == -self.x - self.z,
                -n <= dx <= n + 1,
                cells.len() == cells_before_row(n as int, dx as int),
                forall|i: int|
                    0 <= i < cells.len() ==> {
                        &&& center.distance(#[trigger] cube_points(cells@)[i]) <= n
                        &&& cube_points(cells@)[i].q - center.q < dx
                    },
                forall|p: HexPoint|
                    center.distance(p) <= n && p.q - center.q < dx ==> cube_points(
                        cells@,
                    ).contains(p),
                forall|i: int, j: int|
                    0 <= i < j < cells.len() ==> (#[trigger] cube_points(cells@)[i]).precedes(
                        #[trigger] cube_points(cells@)[j],
                    ),
            decreases n + 1 - dx,
        {
            let lower: i128 = if -n >= -dx - n {
                -n
            } else {
                -dx - n
            };
            let upper: i128 = if n <= -dx + n {
                n
            } else {
                -dx + n
            };
            let mut dy: i128 = lower;
            while dy <= upper
                invariant
                    0 <= n <= isize::MAX,
                    center == self@.to_hex(),
                    center.disc_representable(n as int),
                    isize::MIN <= self.x <= isize::MAX,
                    isize::MIN <= self.z <= isize::MAX,
                    self.y == -self.x - self.z,
                    -n <= dx <= n,
                    dx <= 0 ==> lower == -dx - n && upper == n,
                    dx >= 0 ==> lower == -n && upper == -dx + n,
                    lower <= dy <= upper + 1,
                    cells.len() == cells_before_row(n as int, dx as int) + (dy - lower),
                    forall|i: int|
                        0 <= i < cells.len() ==> {
                            &&& center.distance(#[trigger] cube_points(cells@)[i]) <= n
                            &&& cube_points(cells@)[i].q - center.q <= dx
                            &&& cube_points(cells@)[i].q - center.q == dx ==> center.r
                                - cube_points(cells@)[i].r - dx < dy
                        },
                    forall|p: HexPoint|
                        center.distance(p) <= n && (p.q - center.q < dx || (p.q - center.q == dx
                            && center.r - p.r - dx < dy)) ==> cube_points(cells@).contains(p),
                    forall|i: int, j: int|
                        0 <= i < j < cells.len() ==> (#[trigger] cube_points(cells@)[i]).precedes(
                            #[trigger] cube_points(cells@)[j],
                        ),
                decreases upper + 1 - dy,
            {
                let dz: i128 = -dx - dy;
                let ghost before = cube_points(cells@);
                let cell = CubicCoordinate { x: self.x + dx, y: self.y + dy, z: self.z + dz };
                cells.push(cell);
                proof {
                    let after = cube_points(cells@);
                    let last = before.len() as int;
                    assert(after.len() == last + 1);
                    assert(after[last] == HexPoint { q: center.q + dx, r: center.r + dz });
                    assert forall|i: int| 0 <= i < last implies after[i] == before[i] by {}
                    assert forall|p: HexPoint|
                        center.distance(p) <= n && (p.q - center.q < dx || (p.q - center.q == dx
                            && center.r - p.r - dx < dy + 1)) implies after.contains(p) by {
                        if p.q - center.q == dx && center.r - p.r - dx == dy {
                            assert(after[last] == p);
                        } else {
                            assert(before.contains(p));
                            let i = choose|i: int| 0 <= i < before.len() && before[i] == p;
                            assert(after[i] == p);
                        }
                    }
                }
                dy += 1;
            }
            dx += 1;
        }
        proof {
            lemma_rows_fill_disc(n as int);
            let points = cube_points(cells@);
            assert forall|i: int, j: int| 0 <= i < j < points.len() implies points[i]
                != points[j] by {
                assert(points[i].precedes(points[j]));
            }
        }
        cells
    }
}

/// The absolute value of a difference of two components.
fn magnitude(v: i128) -> (m: i128)
    requires
        v > i128::MIN,
    ensures
        m == abs(v as int),
{
    if v < 0 {
        -v
    } else {
        v
    }
}

} // verus!

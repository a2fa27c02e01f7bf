//! The hexagonal plane over unbounded integers: the model that every
//! contract of this crate speaks of.
use vstd::prelude::*;

verus! {

/// A cell of the hexagonal plane in axial form.
pub struct HexPoint {
    pub q: int,
    pub r: int,
}

/// A cell of the hexagonal plane in cubic form. Only the points with
/// `x + y + z == 0` stand for a cell.
pub struct CubePoint {
    pub x: int,
    pub y: int,
    pub z: int,
}

/// The absolute value of an integer.
pub open spec fn abs(v: int) -> int {
    if v < 0 {
        -v
    } else {
        v
    }
}

/// The largest of three integers.
pub open spec fn max3(a: int, b: int, c: int) -> int {
    if a >= b && a >= c {
        a
    } else if b >= c {
        b
    } else {
        c
    }
}

impl CubePoint {
    /// Whether the point lies on the plane `x + y + z == 0`.
    pub open spec fn on_plane(self) -> bool {
        self.x + self.y + self.z == 0
    }

    /// The axial form: `q` is `x` and `r` is `z`.
    pub open spec fn to_hex(self) -> HexPoint {
        HexPoint { q: self.x, r: self.z }
    }

    /// The largest absolute difference over the three axes.
    pub open spec fn distance(self, other: CubePoint) -> int {
        max3(abs(self.x - other.x), abs(self.y - other.y), abs(self.z - other.z))
    }

    /// The point moved by `(dx, dy)` along the first two axes, and by
    /// `-dx - dy` along the third, which keeps it on the plane.
    pub open spec fn shifted(self, dx: int, dy: int) -> CubePoint {
        CubePoint { x: self.x + dx, y: self.y + dy, z: self.z - dx - dy }
    }
}

impl HexPoint {
    /// The cubic form `(q, -q - r, r)`.
    pub open spec fn to_cube(self) -> CubePoint {
        CubePoint { x: self.q, y: -self.q - self.r, z: self.r }
    }

    pub open spec fn down(self) -> HexPoint {
        HexPoint { q: self.q + 1, r: self.r }
    }

    pub open spec fn right_lower(self) -> HexPoint {
        HexPoint { q: self.q + 1, r: self.r - 1 }
    }

    pub open spec fn right_upper(self) -> HexPoint {
        HexPoint { q: self.q, r: self.r - 1 }
    }

    pub open spec fn up(self) -> HexPoint {
        HexPoint { q: self.q - 1, r: self.r }
    }

    pub open spec fn left_upper(self) -> HexPoint {
        HexPoint { q: self.q - 1, r: self.r + 1 }
    }

    pub open spec fn left_lower(self) -> HexPoint {
        HexPoint { q: self.q, r: self.r + 1 }
    }

    /// The six neighbours, in the order of the six directions above.
    pub open spec fn neighbors(self) -> Seq<HexPoint> {
        seq![
            self.down(),
            self.right_lower(),
            self.right_upper(),
            self.up(),
            self.left_upper(),
            self.left_lower(),
        ]
    }

    /// Whether `other` is one of the six neighbours.
    pub open spec fn adjacent(self, other: HexPoint) -> bool {
        ||| other == self.down()
        ||| other == self.right_lower()
        ||| other == self.right_upper()
        ||| other == self.up()
        ||| other == self.left_upper()
        ||| other == self.left_lower()
    }

    /// The distance between two cells: that of their cubic forms.
    pub open spec fn distance(self, other: HexPoint) -> int {
        self.to_cube().distance(other.to_cube())
    }

    /// The cell reached by `k` moves down.
    pub open spec fn down_by(self, k: nat) -> HexPoint
        decreases k,
    {
        if k == 0 {
            self
        } else {
            self.down_by((k - 1) as nat).down()
        }
    }

    /// A neighbour that is one step nearer to `target`; `self` where the
    /// two are the same cell.
    pub open spec fn step_toward(self, target: HexPoint) -> HexPoint {
        let dq = target.q - self.q;
        let dr = target.r - self.r;
        if dq > 0 && dr < 0 {
            self.right_lower()
        } else if dq < 0 && dr > 0 {
            self.left_upper()
        } else if dq > 0 {
            self.down()
        } else if dq < 0 {
            self.up()
        } else if dr > 0 {
            self.left_lower()
        } else if dr < 0 {
            self.right_upper()
        } else {
            self
        }
    }

    /// A walk from `self` to `target` that takes a step toward it each
    /// time: the cells passed, both ends included.
    pub open spec fn walk_to(self, target: HexPoint) -> Seq<HexPoint>
        decreases self.distance(target),
    {
        if self == target {
            seq![self]
        } else {
            seq![self] + self.step_toward(target).walk_to(target)
        }
    }

    /// Whether both components fit in an `isize`.
    pub open spec fn representable(self) -> bool {
        &&& isize::MIN <= self.q <= isize::MAX
        &&& isize::MIN <= self.r <= isize::MAX
    }

    /// Whether every cell within distance `n` has both components in the
    /// range of `isize`. The cells `(q - n, r + n)` and `(q + n, r - n)` are
    /// among them, so this is `q - n`, `q + n`, `r - n` and `r + n` in range.
    pub open spec fn disc_representable(self, n: int) -> bool {
        n >= 0 ==> {
            &&& (HexPoint { q: self.q - n, r: self.r - n }).representable()
            &&& (HexPoint { q: self.q + n, r: self.r + n }).representable()
        }
    }

    /// The order in which a radius is enumerated: by ascending `q`, and
    /// within one `q` by descending `r`.
    pub open spec fn precedes(self, other: HexPoint) -> bool {
        self.q < other.q || (self.q == other.q && self.r > other.r)
    }
}

/// Whether each cell of `path` but the first is a neighbour of the one
/// before it.
pub open spec fn is_walk(path: Seq<HexPoint>) -> bool {
    forall|i: int| 0 <= i < path.len() - 1 ==> (#[trigger] path[i]).adjacent(path[i + 1])
}

/// Whether no cell precedes itself in `cells` and each precedes all that
/// follow it.
pub open spec fn in_enumeration_order(cells: Seq<HexPoint>) -> bool {
    forall|i: int, j: int|
        0 <= i < j < cells.len() ==> (#[trigger] cells[i]).precedes(#[trigger] cells[j])
}

/// The number of cells within distance `n` of any cell: `3n² + 3n + 1`,
/// and none for a negative `n`.
pub open spec fn disc_size(n: int) -> int {
    if n < 0 {
        0
    } else {
        3 * n * n + 3 * n + 1
    }
}

/// The number of cells within distance `n` of a cell that lie `dx` away
/// from it along the first cubic axis, for `-n <= dx <= n`.
pub open spec fn row_size(n: int, dx: int) -> int {
    2 * n + 1 - abs(dx)
}

/// The number of cells within distance `n` of a cell that lie less than
/// `dx` away from it along the first cubic axis, counted with sign.
pub open spec fn cells_before_row(n: int, dx: int) -> int
    decreases dx + n,
{
    if dx <= -n {
        0
    } else {
        cells_before_row(n, dx - 1) + row_size(n, dx - 1)
    }
}

/// Whether `cells` lists the cells within distance `n` of `center`: each of
/// them, nothing else, each once, in the order of `precedes`. This holds of
/// exactly one sequence.
pub open spec fn enumerates_disc(cells: Seq<HexPoint>, center: HexPoint, n: int) -> bool {
    &&& forall|p: HexPoint| cells.contains(p) <==> center.distance(p) <= n
    &&& in_enumeration_order(cells)
    &&& cells.no_duplicates()
    &&& cells.len() == disc_size(n)
}

} // verus!

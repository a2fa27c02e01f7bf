//! A sparse grid: one payload per occupied cell.
use crate::hex::AxialCoordinate;
use std::collections::HashMap;
use vstd::prelude::*;

verus! {

broadcast use vstd::std_specs::hash::group_hash_axioms;

/// The number under which a cell is stored: `q` and `r`, each moved into
/// the non-negative range, side by side in one 128-bit word.
spec fn cell_key(c: AxialCoordinate) -> int {
    (c.q + 0x8000_0000_0000_0000) * 0x1_0000_0000_0000_0000 + (c.r + 0x8000_0000_0000_0000)
}

/// Two cells with one key are the same cell.
proof fn lemma_cell_key_injective(a: AxialCoordinate, b: AxialCoordinate)
    requires
        cell_key(a) == cell_key(b),
    ensures
        a == b,
{
    let aq = a.q + 0x8000_0000_0000_0000;
    let bq = b.q + 0x8000_0000_0000_0000;
    let ar = a.r + 0x8000_0000_0000_0000;
    let br = b.r + 0x8000_0000_0000_0000;
    assert(0 <= ar < 0x1_0000_0000_0000_0000 && 0 <= br < 0x1_0000_0000_0000_0000);
    assert(aq == bq) by (nonlinear_arith)
        requires
            aq * 0x1_0000_0000_0000_0000 + ar == bq * 0x1_0000_0000_0000_0000 + br,
            0 <= ar < 0x1_0000_0000_0000_0000,
            0 <= br < 0x1_0000_0000_0000_0000,
    ;
}

/// The key of a cell fits in 128 bits.
proof fn lemma_cell_key_in_range(c: AxialCoordinate)
    ensures
        0 <= cell_key(c) <= u128::MAX,
{
    let q = c.q + 0x8000_0000_0000_0000;
    let r = c.r + 0x8000_0000_0000_0000;
    assert(0 <= q * 0x1_0000_0000_0000_0000 <= 0xffff_ffff_ffff_ffff * 0x1_0000_0000_0000_0000)
        by (nonlinear_arith)
        requires
            0 <= q <= 0xffff_ffff_ffff_ffff,
    ;
}

/// Computes the key of a cell.
fn key_of(c: &AxialCoordinate) -> (key: u128)
    ensures
        key == cell_key(*c),
{
    proof {
        lemma_cell_key_in_range(*c);
    }
    let q: u128 = (c.q as i128 + 0x8000_0000_0000_0000) as u128;
    let r: u128 = (c.r as i128 + 0x8000_0000_0000_0000) as u128;
    assert(q * 0x1_0000_0000_0000_0000 <= 0xffff_ffff_ffff_ffff * 0x1_0000_0000_0000_0000)
        by (nonlinear_arith)
        requires
            0 <= q <= 0xffff_ffff_ffff_ffff,
    ;
    q * 0x1_0000_0000_0000_0000 + r
}

/// A mapping from cells to payloads. A cell holds at most one payload: the
/// one that was inserted there last.
#[derive(Debug)]
pub struct HexGrid<T> {
    grid: HashMap<u128, T>,
}

impl<T> View for HexGrid<T> {
    type V = Map<AxialCoordinate, T>;

    closed spec fn view(&self) -> Map<AxialCoordinate, T> {
        Map::new(
            |c: AxialCoordinate| self.grid@.contains_key(cell_key(c) as u128),
            |c: AxialCoordinate| self.grid@[cell_key(c) as u128],
        )
    }
}

impl<T> HexGrid<T> {
    /// A grid with no cell occupied.
    pub fn new() -> (grid: HexGrid<T>)
        ensures
            grid@ == Map::<AxialCoordinate, T>::empty(),
    {
        let grid = HexGrid { grid: HashMap::new() };
        assert(grid@ =~= Map::<AxialCoordinate, T>::empty());
        grid
    }

    /// The payload at `coordinate`, or `None` where the cell is not
    /// occupied.
    pub fn get(&self, coordinate: &AxialCoordinate) -> (found: Option<&T>)
        ensures
            match found {
                Some(t) => self@.contains_key(*coordinate) && *t == self@[*coordinate],
                None => !self@.contains_key(*coordinate),
            },
    {
        let key = key_of(coordinate);
        self.grid.get(&key)
    }

    /// Puts `t` at `coordinate` in place of what was there. No other cell
    /// changes.
    pub fn insert(&mut self, coordinate: AxialCoordinate, t: T)
        ensures
            final(self)@ == old(self)@.insert(coordinate, t),
    {
        let key = key_of(&coordinate);
        self.grid.insert(key, t);
        proof {
            assert forall|c: AxialCoordinate| c != coordinate implies cell_key(c) as u128
                != key by {
                lemma_cell_key_in_range(c);
                lemma_cell_key_in_range(coordinate);
                if cell_key(c) == cell_key(coordinate) {
                    lemma_cell_key_injective(c, coordinate);
                }
            }
            assert(self@ =~= old(self)@.insert(coordinate, t));
        }
    }
}

} // verus!

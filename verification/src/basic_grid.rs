//! Cell, corner and edge coordinates for the two supported tilings.
//!
//! Corners are identified purely by their coordinates: two cells share a
//! vertex exactly when they compute equal corner values, with no separate
//! corner registry. Edges are ordered corner pairs, oriented counter-
//! clockwise around the cell they were derived from; the same physical
//! boundary seen from the other cell is the reversed pair.

use vstd::prelude::*;

use crate::board::Polygon;
use crate::geom::Point2;
use crate::util::MinMax;

verus! {

/// Largest cell coordinate magnitude accepted by the coordinate formulas;
/// keeps every derived position within `i64`.
pub const CELL_LIMIT: i64 = 1_000_000_000_000;

/// An ordered pair of corners bounding one side of a cell.
#[derive(Clone, Copy, PartialEq, Eq, Structural, Debug)]
pub struct Edge<C> {
    pub a: C,
    pub b: C,
}

impl<C> Edge<C> {
    /// The same physical edge as seen from the cell on the other side.
    pub open spec fn reverse_spec(self) -> Edge<C> {
        Edge { a: self.b, b: self.a }
    }

    pub fn reverse(self) -> (r: Edge<C>)
        ensures
            r == self.reverse_spec(),
    {
        Edge { a: self.b, b: self.a }
    }
}

/// A cell of either tiling. The tilings never mix: a square cell is
/// adjacent only to square cells, a hex cell only to hex cells.
#[derive(Clone, Copy, PartialEq, Eq, Structural, Debug)]
pub enum GridCell {
    Square(square::Cell),
    Hex(hex::Cell),
}

/// A corner of either tiling.
#[derive(Clone, Copy, PartialEq, Eq, Structural, Debug)]
pub enum GridCorner {
    Square(square::Corner),
    Hex(hex::Corner),
}

impl GridCell {
    pub open spec fn in_limit(self) -> bool {
        match self {
            GridCell::Square(c) => c.in_limit(),
            GridCell::Hex(c) => c.in_limit(),
        }
    }

    /// How many geometric neighbors (and corners, edges, shape points)
    /// a cell of this tiling has.
    pub open spec fn side_count(self) -> int {
        match self {
            GridCell::Square(_) => 4,
            GridCell::Hex(_) => 6,
        }
    }

    pub open spec fn is_neighbor(self, other: GridCell) -> bool {
        match (self, other) {
            (GridCell::Square(a), GridCell::Square(b)) => a.is_neighbor(b),
            (GridCell::Hex(a), GridCell::Hex(b)) => a.is_neighbor(b),
            _ => false,
        }
    }

    pub open spec fn neighbor_spec(self, k: int) -> GridCell
        recommends
            self.in_limit(),
            0 <= k < self.side_count(),
    {
        match self {
            GridCell::Square(c) => GridCell::Square(c.neighbor_spec(k)),
            GridCell::Hex(c) => GridCell::Hex(c.neighbor_spec(k)),
        }
    }

    pub open spec fn center_spec(self) -> Point2
        recommends
            self.in_limit(),
    {
        match self {
            GridCell::Square(c) => c.center_spec(),
            GridCell::Hex(c) => c.center_spec(),
        }
    }

    pub open spec fn shape_point_spec(self, k: int) -> Point2
        recommends
            self.in_limit(),
            0 <= k < self.side_count(),
    {
        match self {
            GridCell::Square(c) => c.shape_point_spec(k),
            GridCell::Hex(c) => c.shape_point_spec(k),
        }
    }

    /// Which edge of `self` borders the neighbor `other`.
    pub open spec fn shared_edge_spec(self, other: GridCell) -> Edge<GridCorner>
        recommends
            self.in_limit(),
            self.is_neighbor(other),
    {
        match (self, other) {
            (GridCell::Square(a), GridCell::Square(b)) => {
                let e = a.shared_edge_spec(b);
                Edge { a: GridCorner::Square(e.a), b: GridCorner::Square(e.b) }
            },
            (GridCell::Hex(a), GridCell::Hex(b)) => {
                let e = a.shared_edge_spec(b);
                Edge { a: GridCorner::Hex(e.a), b: GridCorner::Hex(e.b) }
            },
            (a, _) => Edge { a: a.fallback_corner(), b: a.fallback_corner() },
        }
    }

    /// Some corner of the cell itself; only stands in for the shared edge
    /// of cells of different tilings, which are never adjacent.
    pub open spec fn fallback_corner(self) -> GridCorner {
        match self {
            GridCell::Square(a) => GridCorner::Square(a.corner_spec(0)),
            GridCell::Hex(a) => GridCorner::Hex(a.corner_spec(0)),
        }
    }

    pub fn position(&self) -> (r: Point2)
        requires
            self.in_limit(),
        ensures
            r == self.center_spec(),
    {
        match self {
            GridCell::Square(c) => c.position(),
            GridCell::Hex(c) => c.position(),
        }
    }

    pub fn neighbors(&self) -> (r: Vec<GridCell>)
        requires
            self.in_limit(),
        ensures
            r@.len() == self.side_count(),
            forall|k: int| 0 <= k < r@.len() ==> r@[k] == self.neighbor_spec(k),
            forall|k: int| 0 <= k < r@.len() ==> self.is_neighbor(#[trigger] r@[k]),
    {
        match self {
            GridCell::Square(c) => {
                let ns = c.neighbors();
                let mut r: Vec<GridCell> = Vec::new();
                let mut i: usize = 0;
                while i < ns.len()
                    invariant
                        0 <= i <= ns@.len(),
                        ns@.len() == 4,
                        *self == GridCell::Square(*c),
                        c.in_limit(),
                        forall|k: int| 0 <= k < 4 ==> ns@[k] == c.neighbor_spec(k),
                        r@.len() == i,
                        forall|k: int| 0 <= k < i ==> r@[k] == self.neighbor_spec(k),
                    decreases ns@.len() - i,
                {
                    r.push(GridCell::Square(ns[i]));
                    i = i + 1;
                }
                proof {
                    assert forall|k: int| 0 <= k < r@.len() implies self.is_neighbor(
                        #[trigger] r@[k],
                    ) by {
                        assert(*self == GridCell::Square(*c));
                        assert(r@[k] == self.neighbor_spec(k));
                        assert(self.neighbor_spec(k) == GridCell::Square(c.neighbor_spec(k)));
                        assert(ns@[k] == c.neighbor_spec(k));
                        assert(c.is_neighbor(ns@[k]));
                    }
                }
                r
            },
            GridCell::Hex(c) => {
                let ns = c.neighbors();
                let mut r: Vec<GridCell> = Vec::new();
                let mut i: usize = 0;
                while i < ns.len()
                    invariant
                        0 <= i <= ns@.len(),
                        ns@.len() == 6,
                        *self == GridCell::Hex(*c),
                        c.in_limit(),
                        forall|k: int| 0 <= k < 6 ==> ns@[k] == c.neighbor_spec(k),
                        r@.len() == i,
                        forall|k: int| 0 <= k < i ==> r@[k] == self.neighbor_spec(k),
                    decreases ns@.len() - i,
                {
                    r.push(GridCell::Hex(ns[i]));
                    i = i + 1;
                }
                proof {
                    assert forall|k: int| 0 <= k < r@.len() implies self.is_neighbor(
                        #[trigger] r@[k],
                    ) by {
                        assert(*self == GridCell::Hex(*c));
                        assert(r@[k] == self.neighbor_spec(k));
                        assert(self.neighbor_spec(k) == GridCell::Hex(c.neighbor_spec(k)));
                        assert(ns@[k] == c.neighbor_spec(k));
                        assert(c.is_neighbor(ns@[k]));
                    }
                }
                r
            },
        }
    }

    pub fn adjacent_to(&self, other: &GridCell) -> (r: bool)
        ensures
            r == self.is_neighbor(*other),
    {
        match (self, other) {
            (GridCell::Square(a), GridCell::Square(b)) => a.adjacent_to(b),
            (GridCell::Hex(a), GridCell::Hex(b)) => a.adjacent_to(b),
            _ => false,
        }
    }

    /// The cell boundary as world-space points, counter-clockwise.
    pub fn shape(&self) -> (r: Polygon)
        requires
            self.in_limit(),
        ensures
            r.points@.len() == self.side_count(),
            forall|k: int| 0 <= k < r.points@.len() ==> r.points@[k] == self.shape_point_spec(k),
    {
        match self {
            GridCell::Square(c) => c.shape(),
            GridCell::Hex(c) => c.shape(),
        }
    }

    /// The edge of this cell whose reverse bounds the adjacent cell
    /// `other`. Calling this on non-adjacent cells is a programming error,
    /// which the precondition rules out.
    pub fn neighboring_edge(&self, other: &GridCell) -> (r: Edge<GridCorner>)
        requires
            self.in_limit(),
            self.is_neighbor(*other),
        ensures
            r == self.shared_edge_spec(*other),
    {
        match (self, other) {
            (GridCell::Square(a), GridCell::Square(b)) => {
                let e = a.neighboring_edge(b);
                Edge { a: GridCorner::Square(e.a), b: GridCorner::Square(e.b) }
            },
            (GridCell::Hex(a), GridCell::Hex(b)) => {
                let e = a.neighboring_edge(b);
                Edge { a: GridCorner::Hex(e.a), b: GridCorner::Hex(e.b) }
            },
            (GridCell::Square(a), GridCell::Hex(_)) => {
                proof {
                    assert(false);
                }
                let c = GridCorner::Square(square::Corner { x: a.x, y: a.y });
                Edge { a: c, b: c }
            },
            (GridCell::Hex(a), GridCell::Square(_)) => {
                proof {
                    assert(false);
                }
                let c = GridCorner::Hex(hex::Corner { q: a.q, r: a.r, left: false });
                Edge { a: c, b: c }
            },
        }
    }
}

/// Neighbor symmetry law, lifted over both tilings: adjacency is mutual,
/// and cells of different tilings are adjacent to nothing of the other.
pub proof fn lemma_neighbor_symmetry(a: GridCell, b: GridCell)
    ensures
        a.is_neighbor(b) <==> b.is_neighbor(a),
{
}

impl GridCorner {
    pub open spec fn in_limit(self) -> bool {
        match self {
            GridCorner::Square(c) => c.in_limit(),
            GridCorner::Hex(c) => c.in_limit(),
        }
    }

    pub open spec fn position_spec(self) -> Point2
        recommends
            self.in_limit(),
    {
        match self {
            GridCorner::Square(c) => c.position_spec(),
            GridCorner::Hex(c) => c.position_spec(),
        }
    }

    pub fn position(&self) -> (r: Point2)
        requires
            self.in_limit(),
        ensures
            r == self.position_spec(),
    {
        match self {
            GridCorner::Square(c) => c.position(),
            GridCorner::Hex(c) => c.position(),
        }
    }
}

impl MinMax for GridCorner {
    /// Square corners order before hex corners; within one tiling the
    /// corner coordinates order lexicographically.
    open spec fn le_spec(self, other: Self) -> bool {
        match (self, other) {
            (GridCorner::Square(a), GridCorner::Square(b)) => a.le_spec(b),
            (GridCorner::Hex(a), GridCorner::Hex(b)) => a.le_spec(b),
            (GridCorner::Square(_), GridCorner::Hex(_)) => true,
            (GridCorner::Hex(_), GridCorner::Square(_)) => false,
        }
    }

    fn min_max(self, other: Self) -> (r: (Self, Self)) {
        match (self, other) {
            (GridCorner::Square(a), GridCorner::Square(b)) => {
                let (lo, hi) = a.min_max(b);
                (GridCorner::Square(lo), GridCorner::Square(hi))
            },
            (GridCorner::Hex(a), GridCorner::Hex(b)) => {
                let (lo, hi) = a.min_max(b);
                (GridCorner::Hex(lo), GridCorner::Hex(hi))
            },
            (GridCorner::Square(_), GridCorner::Hex(_)) => (self, other),
            (GridCorner::Hex(_), GridCorner::Square(_)) => (other, self),
        }
    }
}

} // verus!

pub mod hex;
pub mod square;

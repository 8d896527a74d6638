//! The square tiling: cells on an integer lattice with centers two world
//! units (2000 coordinate steps) apart.

use vstd::prelude::*;

use crate::basic_grid::{Edge, CELL_LIMIT};
use crate::board::Polygon;
use crate::geom::Point2;
use crate::num::{lemma_round_div_exact, lemma_round_div_near, round_div, round_div_i128};
use crate::util::MinMax;

verus! {

/// Distance between adjacent cell centers, in coordinate steps.
pub const SPACING: i64 = 2000;

/// Half a cell: offset from a cell center to its boundary.
pub const HALF: i64 = 1000;

#[derive(Clone, Copy, PartialEq, Eq, Structural, Debug)]
pub struct Cell {
    pub x: i64,
    pub y: i64,
}

/// The corner immediately below-left of cell `(x, y)`; the corner lattice
/// is offset from the cell lattice by half a cell on both axes.
#[derive(Clone, Copy, PartialEq, Eq, Structural, Debug)]
pub struct Corner {
    pub x: i64,
    pub y: i64,
}

impl Cell {
    pub open spec fn in_limit(self) -> bool {
        -CELL_LIMIT <= self.x <= CELL_LIMIT && -CELL_LIMIT <= self.y <= CELL_LIMIT
    }

    /// The world-space center of this cell.
    pub open spec fn center_spec(self) -> Point2
        recommends
            self.in_limit(),
    {
        Point2 { x: (SPACING * self.x) as i64, y: (SPACING * self.y) as i64 }
    }

    /// Which cell a world position rounds to, per axis: the nearest center.
    pub open spec fn pick_x_spec(pos: Point2) -> int {
        round_div(pos.x as int, SPACING as int)
    }

    pub open spec fn pick_y_spec(pos: Point2) -> int {
        round_div(pos.y as int, SPACING as int)
    }

    /// Maps a world position to the cell whose center is nearest (total:
    /// every position picks some cell).
    pub fn pick(pos: Point2) -> (r: Cell)
        ensures
            r.x == Self::pick_x_spec(pos),
            r.y == Self::pick_y_spec(pos),
    {
        proof {
            lemma_round_div_near(pos.x as int, SPACING as int);
            lemma_round_div_near(pos.y as int, SPACING as int);
        }
        let rx = round_div_i128(pos.x as i128, SPACING as i128);
        let ry = round_div_i128(pos.y as i128, SPACING as i128);
        Cell { x: rx as i64, y: ry as i64 }
    }

    pub fn position(&self) -> (r: Point2)
        requires
            self.in_limit(),
        ensures
            r == self.center_spec(),
    {
        Point2 { x: SPACING * self.x, y: SPACING * self.y }
    }

    /// True exactly when `other` is one of the four axis-aligned unit
    /// offsets from `self`.
    pub open spec fn is_neighbor(self, other: Cell) -> bool {
        ||| other.x == self.x + 1 && other.y == self.y
        ||| other.x == self.x && other.y == self.y + 1
        ||| other.x == self.x - 1 && other.y == self.y
        ||| other.x == self.x && other.y == self.y - 1
    }

    /// The `k`-th geometric neighbor, in the fixed scan order right, up,
    /// left, down.
    pub open spec fn neighbor_spec(self, k: int) -> Cell
        recommends
            self.in_limit(),
            0 <= k < 4,
    {
        if k == 0 {
            Cell { x: (self.x + 1) as i64, y: self.y }
        } else if k == 1 {
            Cell { x: self.x, y: (self.y + 1) as i64 }
        } else if k == 2 {
            Cell { x: (self.x - 1) as i64, y: self.y }
        } else {
            Cell { x: self.x, y: (self.y - 1) as i64 }
        }
    }

    pub fn neighbors(&self) -> (r: Vec<Cell>)
        requires
            self.in_limit(),
        ensures
            r@.len() == 4,
            forall|k: int| 0 <= k < 4 ==> r@[k] == self.neighbor_spec(k),
            forall|k: int| 0 <= k < 4 ==> self.is_neighbor(#[trigger] r@[k]),
    {
        let mut r: Vec<Cell> = Vec::new();
        r.push(Cell { x: self.x + 1, y: self.y });
        r.push(Cell { x: self.x, y: self.y + 1 });
        r.push(Cell { x: self.x - 1, y: self.y });
        r.push(Cell { x: self.x, y: self.y - 1 });
        r
    }

    pub fn adjacent_to(&self, other: &Cell) -> (r: bool)
        ensures
            r == self.is_neighbor(*other),
    {
        let dx = other.x as i128 - self.x as i128;
        let dy = other.y as i128 - self.y as i128;
        (dx == 1 && dy == 0) || (dx == 0 && dy == 1) || (dx == -1 && dy == 0) || (dx == 0 && dy
            == -1)
    }

    /// The `k`-th corner, counter-clockwise from the below-left corner.
    pub open spec fn corner_spec(self, k: int) -> Corner
        recommends
            self.in_limit(),
            0 <= k < 4,
    {
        if k == 0 {
            Corner { x: self.x, y: self.y }
        } else if k == 1 {
            Corner { x: (self.x + 1) as i64, y: self.y }
        } else if k == 2 {
            Corner { x: (self.x + 1) as i64, y: (self.y + 1) as i64 }
        } else {
            Corner { x: self.x, y: (self.y + 1) as i64 }
        }
    }

    pub fn corners(&self) -> (r: Vec<Corner>)
        requires
            self.in_limit(),
        ensures
            r@.len() == 4,
            forall|k: int| 0 <= k < 4 ==> r@[k] == self.corner_spec(k),
    {
        let mut r: Vec<Corner> = Vec::new();
        r.push(Corner { x: self.x, y: self.y });
        r.push(Corner { x: self.x + 1, y: self.y });
        r.push(Corner { x: self.x + 1, y: self.y + 1 });
        r.push(Corner { x: self.x, y: self.y + 1 });
        r
    }

    /// The `k`-th boundary edge: from corner `k` to corner `k + 1`
    /// (wrapping), counter-clockwise around the cell.
    pub open spec fn edge_spec(self, k: int) -> Edge<Corner>
        recommends
            self.in_limit(),
            0 <= k < 4,
    {
        Edge {
            a: self.corner_spec(k),
            b: self.corner_spec(if k == 3 { 0 } else { k + 1 }),
        }
    }

    pub fn lines(&self) -> (r: Vec<Edge<Corner>>)
        requires
            self.in_limit(),
        ensures
            r@.len() == 4,
            forall|k: int| 0 <= k < 4 ==> r@[k] == self.edge_spec(k),
    {
        let c = self.corners();
        let mut r: Vec<Edge<Corner>> = Vec::new();
        r.push(Edge { a: c[0], b: c[1] });
        r.push(Edge { a: c[1], b: c[2] });
        r.push(Edge { a: c[2], b: c[3] });
        r.push(Edge { a: c[3], b: c[0] });
        r
    }

    /// The `k`-th shape point: cell center plus the `k`-th unit-square
    /// corner offset, same rotational order as `corner_spec`.
    pub open spec fn shape_point_spec(self, k: int) -> Point2
        recommends
            self.in_limit(),
            0 <= k < 4,
    {
        if k == 0 {
            Point2 { x: (SPACING * self.x - HALF) as i64, y: (SPACING * self.y - HALF) as i64 }
        } else if k == 1 {
            Point2 { x: (SPACING * self.x + HALF) as i64, y: (SPACING * self.y - HALF) as i64 }
        } else if k == 2 {
            Point2 { x: (SPACING * self.x + HALF) as i64, y: (SPACING * self.y + HALF) as i64 }
        } else {
            Point2 { x: (SPACING * self.x - HALF) as i64, y: (SPACING * self.y + HALF) as i64 }
        }
    }

    /// The cell boundary as world-space points, counter-clockwise.
    pub fn shape(&self) -> (r: Polygon)
        requires
            self.in_limit(),
        ensures
            r.points@.len() == 4,
            forall|k: int| 0 <= k < 4 ==> r.points@[k] == self.shape_point_spec(k),
    {
        let p = self.position();
        let mut points: Vec<Point2> = Vec::new();
        points.push(Point2 { x: p.x - HALF, y: p.y - HALF });
        points.push(Point2 { x: p.x + HALF, y: p.y - HALF });
        points.push(Point2 { x: p.x + HALF, y: p.y + HALF });
        points.push(Point2 { x: p.x - HALF, y: p.y + HALF });
        Polygon { points }
    }

    /// Which edge of `self` borders the neighbor `other`.
    pub open spec fn shared_edge_spec(self, other: Cell) -> Edge<Corner>
        recommends
            self.in_limit(),
            self.is_neighbor(other),
    {
        if other.x == self.x + 1 {
            self.edge_spec(1)
        } else if other.y == self.y + 1 {
            self.edge_spec(2)
        } else if other.x == self.x - 1 {
            self.edge_spec(3)
        } else {
            self.edge_spec(0)
        }
    }

    /// The edge of this cell whose reverse bounds the adjacent cell
    /// `other`. Calling this on non-adjacent cells is a programming error,
    /// which the precondition rules out.
    pub fn neighboring_edge(&self, other: &Cell) -> (r: Edge<Corner>)
        requires
            self.in_limit(),
            self.is_neighbor(*other),
        ensures
            r == self.shared_edge_spec(*other),
    {
        let dx = other.x as i128 - self.x as i128;
        let dy = other.y as i128 - self.y as i128;
        let c = self.corners();
        if dx == 1 {
            Edge { a: c[1], b: c[2] }
        } else if dy == 1 {
            Edge { a: c[2], b: c[3] }
        } else if dx == -1 {
            Edge { a: c[3], b: c[0] }
        } else {
            Edge { a: c[0], b: c[1] }
        }
    }
}

impl Corner {
    pub open spec fn in_limit(self) -> bool {
        -CELL_LIMIT - 1 <= self.x <= CELL_LIMIT + 1 && -CELL_LIMIT - 1 <= self.y <= CELL_LIMIT + 1
    }

    /// World position of the corner: half a cell below-left of the center
    /// of the cell with the same coordinates.
    pub open spec fn position_spec(self) -> Point2
        recommends
            self.in_limit(),
    {
        Point2 { x: (SPACING * self.x - HALF) as i64, y: (SPACING * self.y - HALF) as i64 }
    }

    pub fn position(&self) -> (r: Point2)
        requires
            self.in_limit(),
        ensures
            r == self.position_spec(),
    {
        Point2 { x: SPACING * self.x - HALF, y: SPACING * self.y - HALF }
    }
}

impl MinMax for Corner {
    open spec fn le_spec(self, other: Self) -> bool {
        self.x < other.x || (self.x == other.x && self.y <= other.y)
    }

    fn min_max(self, other: Self) -> (r: (Self, Self)) {
        if self.x < other.x || (self.x == other.x && self.y <= other.y) {
            (self, other)
        } else {
            (other, self)
        }
    }
}

/// Round-trip law: picking the position of any in-range cell returns that
/// cell exactly.
pub proof fn lemma_pick_round_trip(c: Cell)
    requires
        c.in_limit(),
    ensures
        Cell::pick_x_spec(c.center_spec()) == c.x,
        Cell::pick_y_spec(c.center_spec()) == c.y,
{
    lemma_round_div_exact(c.x as int, 0, SPACING as int);
    lemma_round_div_exact(c.y as int, 0, SPACING as int);
}

/// Neighbor symmetry law: adjacency of square cells is mutual.
pub proof fn lemma_neighbor_symmetry(a: Cell, b: Cell)
    ensures
        a.is_neighbor(b) <==> b.is_neighbor(a),
{
}

/// Edge reciprocity law: the edge `a` shares with `b`, reversed, is the
/// edge `b` shares with `a`.
pub proof fn lemma_edge_reciprocity(a: Cell, b: Cell)
    requires
        a.in_limit(),
        b.in_limit(),
        a.is_neighbor(b),
    ensures
        a.shared_edge_spec(b).reverse_spec() == b.shared_edge_spec(a),
{
}

} // verus!

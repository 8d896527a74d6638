//! The hexagonal tiling: flat-top hexes addressed by axial coordinates
//! `(q, r)` with the implicit cube coordinate `s = -q - r`.
//!
//! The square root of three, which relates the two world axes of a hex
//! grid, is carried as the fixed-point constant `1732` (steps per world
//! unit), consistently in positions, corners, shapes and picking.

use vstd::prelude::*;

use crate::basic_grid::{Edge, CELL_LIMIT};
use crate::board::Polygon;
use crate::geom::Point2;
use crate::num::{abs, lemma_round_div_exact, lemma_round_div_near, round_div, round_div_i128};
use crate::util::MinMax;

verus! {

/// Fixed-point square root of three: world-axis scale of the hex lattice.
pub const SQRT3: i64 = 1732;

/// Half of `SQRT3`, the vertical offset of the slanted hex corners.
pub const HALF_SQRT3: i64 = 866;

/// Horizontal distance between hex columns: one and a half world units.
pub const X_STEP: i64 = 1500;

/// Half a world unit: horizontal offset of the slanted hex corners.
pub const HALF_X: i64 = 500;

/// One world unit: horizontal offset of the flat hex corners.
pub const UNIT: i64 = 1000;

/// Common denominator of the fractional cube coordinates used by `pick`:
/// the product of the column step (1500) and the fixed-point square root
/// of three (1732), over which `2x / 3` and `-x / 3 + y / sqrt(3)` both
/// scale to integer numerators that invert the center map exactly.
pub const PICK_DEN: i64 = 2_598_000;

#[derive(Clone, Copy, PartialEq, Eq, Structural, Debug)]
pub struct Cell {
    pub q: i64,
    pub r: i64,
}

/// One of the two corners associated with axial coordinate `(q, r)`:
/// `left` selects the left member of the pair. Adjacent hexes compute
/// identical triples for shared corners.
#[derive(Clone, Copy, PartialEq, Eq, Structural, Debug)]
pub struct Corner {
    pub q: i64,
    pub r: i64,
    pub left: bool,
}

impl Cell {
    pub open spec fn in_limit(self) -> bool {
        -CELL_LIMIT <= self.q <= CELL_LIMIT && -CELL_LIMIT <= self.r <= CELL_LIMIT
    }

    /// The world-space center: `(3q/2, sqrt(3) (q/2 + r))` in world units.
    pub open spec fn center_spec(self) -> Point2
        recommends
            self.in_limit(),
    {
        Point2 {
            x: (X_STEP * self.q) as i64,
            y: (HALF_SQRT3 * self.q + SQRT3 * self.r) as i64,
        }
    }

    /// Numerator of the fractional cube coordinate `cq = 2x/3` over
    /// `PICK_DEN`: one whole `cq` per column step of 1500.
    pub open spec fn frac_q(pos: Point2) -> int {
        SQRT3 * pos.x
    }

    /// Numerator of `cr = -x/3 + y/sqrt(3)` over `PICK_DEN`, the exact
    /// rational inverse of the center map: on a cell center it is a whole
    /// multiple of `PICK_DEN`.
    pub open spec fn frac_r(pos: Point2) -> int {
        X_STEP * pos.y - HALF_SQRT3 * pos.x
    }

    /// Numerator of `cs = -cq - cr` over `PICK_DEN`.
    pub open spec fn frac_s(pos: Point2) -> int {
        -Self::frac_q(pos) - Self::frac_r(pos)
    }

    /// Cube rounding: round each fractional cube coordinate to the nearest
    /// integer independently; then, because independent rounding can break
    /// `q + r + s == 0`, recompute the coordinate with the largest rounding
    /// error from the other two (ties keep the later coordinates).
    pub open spec fn pick_spec(pos: Point2) -> (int, int) {
        let q0 = round_div(Self::frac_q(pos), PICK_DEN as int);
        let r0 = round_div(Self::frac_r(pos), PICK_DEN as int);
        let s0 = round_div(Self::frac_s(pos), PICK_DEN as int);
        let dq = abs(Self::frac_q(pos) - q0 * PICK_DEN);
        let dr = abs(Self::frac_r(pos) - r0 * PICK_DEN);
        let ds = abs(Self::frac_s(pos) - s0 * PICK_DEN);
        if dq > dr && dq > ds {
            (-r0 - s0, r0)
        } else if dr > ds {
            (q0, -q0 - s0)
        } else {
            (q0, r0)
        }
    }

    /// Maps a world position to the nearest hex cell (total: every
    /// position picks some cell).
    pub fn pick(pos: Point2) -> (c: Cell)
        ensures
            (c.q as int, c.r as int) == Self::pick_spec(pos),
    {
        let px = pos.x as i128;
        let py = pos.y as i128;
        let cqn = 1732 * px;
        let crn = 1500 * py - 866 * px;
        let csn = -cqn - crn;
        proof {
            lemma_round_div_near(cqn as int, PICK_DEN as int);
            lemma_round_div_near(crn as int, PICK_DEN as int);
            lemma_round_div_near(csn as int, PICK_DEN as int);
        }
        let q0 = round_div_i128(cqn, 2_598_000);
        let r0 = round_div_i128(crn, 2_598_000);
        let s0 = round_div_i128(csn, 2_598_000);
        proof {
            assert(-20_000_000_000_000_000 < q0 < 20_000_000_000_000_000);
            assert(-20_000_000_000_000_000 < r0 < 20_000_000_000_000_000);
            assert(-20_000_000_000_000_000 < s0 < 20_000_000_000_000_000);
        }
        let dq = if cqn >= q0 * 2_598_000 {
            cqn - q0 * 2_598_000
        } else {
            q0 * 2_598_000 - cqn
        };
        let dr = if crn >= r0 * 2_598_000 {
            crn - r0 * 2_598_000
        } else {
            r0 * 2_598_000 - crn
        };
        let ds = if csn >= s0 * 2_598_000 {
            csn - s0 * 2_598_000
        } else {
            s0 * 2_598_000 - csn
        };
        if dq > dr && dq > ds {
            Cell { q: (-r0 - s0) as i64, r: r0 as i64 }
        } else if dr > ds {
            Cell { q: q0 as i64, r: (-q0 - s0) as i64 }
        } else {
            Cell { q: q0 as i64, r: r0 as i64 }
        }
    }

    pub fn position(&self) -> (r: Point2)
        requires
            self.in_limit(),
        ensures
            r == self.center_spec(),
    {
        Point2 { x: X_STEP * self.q, y: HALF_SQRT3 * self.q + SQRT3 * self.r }
    }

    /// True exactly when `other` is one of the six axial unit offsets from
    /// `self`.
    pub open spec fn is_neighbor(self, other: Cell) -> bool {
        ||| other.q == self.q - 1 && other.r == self.r
        ||| other.q == self.q - 1 && other.r == self.r + 1
        ||| other.q == self.q && other.r == self.r - 1
        ||| other.q == self.q && other.r == self.r + 1
        ||| other.q == self.q + 1 && other.r == self.r - 1
        ||| other.q == self.q + 1 && other.r == self.r
    }

    /// The `k`-th geometric neighbor, in the fixed axial scan order.
    pub open spec fn neighbor_spec(self, k: int) -> Cell
        recommends
            self.in_limit(),
            0 <= k < 6,
    {
        if k == 0 {
            Cell { q: (self.q - 1) as i64, r: self.r }
        } else if k == 1 {
            Cell { q: (self.q - 1) as i64, r: (self.r + 1) as i64 }
        } else if k == 2 {
            Cell { q: self.q, r: (self.r - 1) as i64 }
        } else if k == 3 {
            Cell { q: self.q, r: (self.r + 1) as i64 }
        } else if k == 4 {
            Cell { q: (self.q + 1) as i64, r: (self.r - 1) as i64 }
        } else {
            Cell { q: (self.q + 1) as i64, r: self.r }
        }
    }

    pub fn neighbors(&self) -> (r: Vec<Cell>)
        requires
            self.in_limit(),
        ensures
            r@.len() == 6,
            forall|k: int| 0 <= k < 6 ==> r@[k] == self.neighbor_spec(k),
            forall|k: int| 0 <= k < 6 ==> self.is_neighbor(#[trigger] r@[k]),
    {
        let mut r: Vec<Cell> = Vec::new();
        r.push(Cell { q: self.q - 1, r: self.r });
        r.push(Cell { q: self.q - 1, r: self.r + 1 });
        r.push(Cell { q: self.q, r: self.r - 1 });
        r.push(Cell { q: self.q, r: self.r + 1 });
        r.push(Cell { q: self.q + 1, r: self.r - 1 });
        r.push(Cell { q: self.q + 1, r: self.r });
        r
    }

    pub fn adjacent_to(&self, other: &Cell) -> (r: bool)
        ensures
            r == self.is_neighbor(*other),
    {
        let dq = other.q as i128 - self.q as i128;
        let dr = other.r as i128 - self.r as i128;
        (dq == -1 && dr == 0) || (dq == -1 && dr == 1) || (dq == 0 && dr == -1) || (dq == 0 && dr
            == 1) || (dq == 1 && dr == -1) || (dq == 1 && dr == 0)
    }

    /// The `k`-th corner, counter-clockwise from the right corner.
    pub open spec fn corner_spec(self, k: int) -> Corner
        recommends
            self.in_limit(),
            0 <= k < 6,
    {
        if k == 0 {
            Corner { q: self.q, r: self.r, left: false }
        } else if k == 1 {
            Corner { q: (self.q + 1) as i64, r: self.r, left: true }
        } else if k == 2 {
            Corner { q: (self.q - 1) as i64, r: (self.r + 1) as i64, left: false }
        } else if k == 3 {
            Corner { q: self.q, r: self.r, left: true }
        } else if k == 4 {
            Corner { q: (self.q - 1) as i64, r: self.r, left: false }
        } else {
            Corner { q: (self.q + 1) as i64, r: (self.r - 1) as i64, left: true }
        }
    }

    pub fn corners(&self) -> (r: Vec<Corner>)
        requires
            self.in_limit(),
        ensures
            r@.len() == 6,
            forall|k: int| 0 <= k < 6 ==> r@[k] == self.corner_spec(k),
    {
        let mut r: Vec<Corner> = Vec::new();
        r.push(Corner { q: self.q, r: self.r, left: false });
        r.push(Corner { q: self.q + 1, r: self.r, left: true });
        r.push(Corner { q: self.q - 1, r: self.r + 1, left: false });
        r.push(Corner { q: self.q, r: self.r, left: true });
        r.push(Corner { q: self.q - 1, r: self.r, left: false });
        r.push(Corner { q: self.q + 1, r: self.r - 1, left: true });
        r
    }

    /// The `k`-th boundary edge: from corner `k` to corner `k + 1`
    /// (wrapping), counter-clockwise around the cell.
    pub open spec fn edge_spec(self, k: int) -> Edge<Corner>
        recommends
            self.in_limit(),
            0 <= k < 6,
    {
        Edge {
            a: self.corner_spec(k),
            b: self.corner_spec(if k == 5 { 0 } else { k + 1 }),
        }
    }

    pub fn lines(&self) -> (r: Vec<Edge<Corner>>)
        requires
            self.in_limit(),
        ensures
            r@.len() == 6,
            forall|k: int| 0 <= k < 6 ==> r@[k] == self.edge_spec(k),
    {
        let c = self.corners();
        let mut r: Vec<Edge<Corner>> = Vec::new();
        r.push(Edge { a: c[0], b: c[1] });
        r.push(Edge { a: c[1], b: c[2] });
        r.push(Edge { a: c[2], b: c[3] });
        r.push(Edge { a: c[3], b: c[4] });
        r.push(Edge { a: c[4], b: c[5] });
        r.push(Edge { a: c[5], b: c[0] });
        r
    }

    /// The `k`-th shape point: cell center plus the `k`-th unit-hex corner
    /// offset, same rotational order as `corner_spec`.
    pub open spec fn shape_point_spec(self, k: int) -> Point2
        recommends
            self.in_limit(),
            0 <= k < 6,
    {
        let cx = X_STEP * self.q;
        let cy = HALF_SQRT3 * self.q + SQRT3 * self.r;
        if k == 0 {
            Point2 { x: (cx + UNIT) as i64, y: cy as i64 }
        } else if k == 1 {
            Point2 { x: (cx + HALF_X) as i64, y: (cy + HALF_SQRT3) as i64 }
        } else if k == 2 {
            Point2 { x: (cx - HALF_X) as i64, y: (cy + HALF_SQRT3) as i64 }
        } else if k == 3 {
            Point2 { x: (cx - UNIT) as i64, y: cy as i64 }
        } else if k == 4 {
            Point2 { x: (cx - HALF_X) as i64, y: (cy - HALF_SQRT3) as i64 }
        } else {
            Point2 { x: (cx + HALF_X) as i64, y: (cy - HALF_SQRT3) as i64 }
        }
    }

    /// The cell boundary as world-space points, counter-clockwise from the
    /// right corner.
    pub fn shape(&self) -> (r: Polygon)
        requires
            self.in_limit(),
        ensures
            r.points@.len() == 6,
            forall|k: int| 0 <= k < 6 ==> r.points@[k] == self.shape_point_spec(k),
    {
        let p = self.position();
        let mut points: Vec<Point2> = Vec::new();
        points.push(Point2 { x: p.x + UNIT, y: p.y });
        points.push(Point2 { x: p.x + HALF_X, y: p.y + HALF_SQRT3 });
        points.push(Point2 { x: p.x - HALF_X, y: p.y + HALF_SQRT3 });
        points.push(Point2 { x: p.x - UNIT, y: p.y });
        points.push(Point2 { x: p.x - HALF_X, y: p.y - HALF_SQRT3 });
        points.push(Point2 { x: p.x + HALF_X, y: p.y - HALF_SQRT3 });
        Polygon { points }
    }

    /// Which edge of `self` borders the neighbor `other`.
    pub open spec fn shared_edge_spec(self, other: Cell) -> Edge<Corner>
        recommends
            self.in_limit(),
            self.is_neighbor(other),
    {
        if other.q == self.q + 1 && other.r == self.r {
            self.edge_spec(0)
        } else if other.q == self.q && other.r == self.r + 1 {
            self.edge_spec(1)
        } else if other.q == self.q - 1 && other.r == self.r + 1 {
            self.edge_spec(2)
        } else if other.q == self.q - 1 && other.r == self.r {
            self.edge_spec(3)
        } else if other.q == self.q && other.r == self.r - 1 {
            self.edge_spec(4)
        } else {
            self.edge_spec(5)
        }
    }

    /// The edge of this cell whose reverse bounds the adjacent cell
    /// `other`. Calling this on non-adjacent cells is a programming error,
    /// which the precondition rules out.
    pub fn neighboring_edge(&self, other: &Cell) -> (r: Edge<Corner>)
        requires
            self.in_limit(),
            self.is_neighbor(*other),
        ensures
            r == self.shared_edge_spec(*other),
    {
        let dq = other.q as i128 - self.q as i128;
        let dr = other.r as i128 - self.r as i128;
        let c = self.corners();
        if dq == 1 && dr == 0 {
            Edge { a: c[0], b: c[1] }
        } else if dq == 0 && dr == 1 {
            Edge { a: c[1], b: c[2] }
        } else if dq == -1 && dr == 1 {
            Edge { a: c[2], b: c[3] }
        } else if dq == -1 && dr == 0 {
            Edge { a: c[3], b: c[4] }
        } else if dq == 0 && dr == -1 {
            Edge { a: c[4], b: c[5] }
        } else {
            Edge { a: c[5], b: c[0] }
        }
    }
}

impl Corner {
    pub open spec fn in_limit(self) -> bool {
        -CELL_LIMIT - 1 <= self.q <= CELL_LIMIT + 1 && -CELL_LIMIT - 1 <= self.r <= CELL_LIMIT + 1
    }

    /// World position: the center of the cell with the same axial
    /// coordinates, shifted one world unit left or right.
    pub open spec fn position_spec(self) -> Point2
        recommends
            self.in_limit(),
    {
        Point2 {
            x: (X_STEP * self.q + if self.left {
                -UNIT as int
            } else {
                UNIT as int
            }) as i64,
            y: (HALF_SQRT3 * self.q + SQRT3 * self.r) as i64,
        }
    }

    pub fn position(&self) -> (r: Point2)
        requires
            self.in_limit(),
        ensures
            r == self.position_spec(),
    {
        let dx: i64 = if self.left {
            -UNIT
        } else {
            UNIT
        };
        Point2 { x: X_STEP * self.q + dx, y: HALF_SQRT3 * self.q + SQRT3 * self.r }
    }
}

impl MinMax for Corner {
    open spec fn le_spec(self, other: Self) -> bool {
        ||| self.q < other.q
        ||| (self.q == other.q && self.r < other.r)
        ||| (self.q == other.q && self.r == other.r && (other.left || !self.left))
    }

    fn min_max(self, other: Self) -> (r: (Self, Self)) {
        if self.q < other.q || (self.q == other.q && self.r < other.r) || (self.q == other.q
            && self.r == other.r && (other.left || !self.left)) {
            (self, other)
        } else {
            (other, self)
        }
    }
}

/// Round-trip law: picking the center of any in-range hex cell returns
/// that cell exactly. The fractional cube coordinates of `pick` are the
/// exact rational inverse of the fixed-point center map, so on a center
/// all three rounding errors vanish and the cube-rounding correction has
/// nothing to repair.
pub proof fn lemma_pick_round_trip(c: Cell)
    requires
        c.in_limit(),
    ensures
        Cell::pick_spec(c.center_spec()) == (c.q as int, c.r as int),
{
    let p = c.center_spec();
    let den = PICK_DEN as int;
    assert(Cell::frac_q(p) == c.q * den);
    assert(Cell::frac_r(p) == c.r * den);
    assert(Cell::frac_s(p) == (-c.q - c.r) * den);
    lemma_round_div_exact(c.q as int, 0, den);
    lemma_round_div_exact(c.r as int, 0, den);
    lemma_round_div_exact(-c.q - c.r, 0, den);
}

/// Neighbor symmetry law: adjacency of hex cells is mutual.
pub proof fn lemma_neighbor_symmetry(a: Cell, b: Cell)
    ensures
        a.is_neighbor(b) <==> b.is_neighbor(a),
{
}

/// Edge reciprocity law: the edge `a` shares with `b`, reversed, is the
/// edge `b` shares with `a`.
pub proof fn lemma_edge_reciprocity(a: Cell, b: Cell)
    requires
        a.in_limit(),
        b.in_limit(),
        a.is_neighbor(b),
    ensures
        a.shared_edge_spec(b).reverse_spec() == b.shared_edge_spec(a),
{
}

} // verus!

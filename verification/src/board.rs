//! The exported board artifact: cell records with adjacency paths, polygon
//! shapes, and renderable line/triangle meshes.

use vstd::prelude::*;

use crate::geom::{Point2, Point3};

verus! {

/// A point on an interpolation curve: a totally ordered parameter in
/// fixed-point steps, 0 meaning the start of the curve and 1000 its end.
#[derive(Clone, Copy, PartialEq, Eq, Structural, PartialOrd, Ord, Debug)]
pub struct Keyframe(pub i64);

/// First keyframe of a simple path.
pub const KEY_START: i64 = 0;

/// Last keyframe of a simple path: one whole unit of parameter time.
pub const KEY_END: i64 = 1000;

/// A piecewise-linear interpolation curve: keyframes mapped to 2-D
/// positions, kept sorted by keyframe.
#[derive(Clone, Debug)]
pub struct Path(pub Vec<(Keyframe, Point2)>);

impl Path {
    /// Keyframes strictly increase, so the curve is a function of the
    /// parameter.
    pub open spec fn wf(self) -> bool {
        forall|i: int, j: int|
            0 <= i < j < self.0@.len() ==> (#[trigger] self.0@[i]).0.0 < (#[trigger] self.0@[j]).0.0
    }

    /// The two-keyframe path that moves straight from `start` to `end`.
    pub fn simple(start: Point2, end: Point2) -> (r: Path)
        ensures
            r.0@ == seq![(Keyframe(KEY_START), start), (Keyframe(KEY_END), end)],
            r.wf(),
    {
        let mut v: Vec<(Keyframe, Point2)> = Vec::new();
        v.push((Keyframe(KEY_START), start));
        v.push((Keyframe(KEY_END), end));
        proof {
            assert(v@ =~= seq![(Keyframe(KEY_START), start), (Keyframe(KEY_END), end)]);
        }
        Path(v)
    }
}

/// An ordered, implicitly closed sequence of 2-D points (the last point
/// connects back to the first). A well-formed cell shape has at least
/// three points.
#[derive(Clone, Debug)]
pub struct Polygon {
    pub points: Vec<Point2>,
}

/// End point of the polygon segment starting at `points[i]`: the next
/// point, wrapping to the first.
pub open spec fn seg_end(points: Seq<Point2>, i: int) -> Point2
    recommends
        0 <= i < points.len(),
{
    if i + 1 == points.len() {
        points[0]
    } else {
        points[i + 1]
    }
}

/// Whether the ray from `o` in the +X direction properly crosses the
/// segment from `a` to `b`: the standard perp-dot solution of the 2x2
/// system, requiring the ray parameter to be at least 0 and the segment
/// parameter within [0, 1]. A segment parallel to the ray (no change in
/// `y`) never counts; a point exactly on the boundary is a documented
/// precision limitation, not a contract.
pub open spec fn ray_crosses(o: Point2, a: Point2, b: Point2) -> bool {
    let aby = b.y - a.y;
    let t_num = o.y - a.y;
    let u_num = (a.x - o.x) * aby - (a.y - o.y) * (b.x - a.x);
    if aby > 0 {
        0 <= t_num <= aby && u_num >= 0
    } else if aby < 0 {
        aby <= t_num <= 0 && u_num <= 0
    } else {
        false
    }
}

/// Number of polygon segments among the first `n` that the +X ray from
/// `o` crosses.
pub open spec fn crossings_upto(points: Seq<Point2>, o: Point2, n: int) -> nat
    decreases n,
{
    if n <= 0 {
        0
    } else {
        crossings_upto(points, o, n - 1) + if ray_crosses(o, points[n - 1], seg_end(points, n - 1)) {
            1nat
        } else {
            0nat
        }
    }
}

/// The parity rule: `o` is inside the polygon exactly when the +X ray
/// from it crosses an odd number of boundary segments.
pub open spec fn contains_spec(points: Seq<Point2>, o: Point2) -> bool {
    crossings_upto(points, o, points.len() as int) % 2 == 1
}

pub open spec fn points_bounded(points: Seq<Point2>) -> bool {
    forall|i: int| 0 <= i < points.len() ==> (#[trigger] points[i]).bounded()
}

/// Exact crossing test for one segment.
fn seg_crosses(o: Point2, a: Point2, b: Point2) -> (r: bool)
    requires
        o.bounded(),
        a.bounded(),
        b.bounded(),
    ensures
        r == ray_crosses(o, a, b),
{
    let aby = b.y as i128 - a.y as i128;
    let abx = b.x as i128 - a.x as i128;
    let t_num = o.y as i128 - a.y as i128;
    let dx = a.x as i128 - o.x as i128;
    let dy = a.y as i128 - o.y as i128;
    proof {
        assert(dx * aby <= 0x400_0000_0000_0000_0000_0000_0000_0000
            && dx * aby >= -0x400_0000_0000_0000_0000_0000_0000_0000) by (nonlinear_arith)
            requires
                -0x2000_0000_0000_0000 <= dx <= 0x2000_0000_0000_0000,
                -0x2000_0000_0000_0000 <= aby <= 0x2000_0000_0000_0000,
        ;
        assert(dy * abx <= 0x400_0000_0000_0000_0000_0000_0000_0000
            && dy * abx >= -0x400_0000_0000_0000_0000_0000_0000_0000) by (nonlinear_arith)
            requires
                -0x2000_0000_0000_0000 <= dy <= 0x2000_0000_0000_0000,
                -0x2000_0000_0000_0000 <= abx <= 0x2000_0000_0000_0000,
        ;
    }
    let u_num = dx * aby - dy * abx;
    if aby > 0 {
        0 <= t_num && t_num <= aby && u_num >= 0
    } else if aby < 0 {
        aby <= t_num && t_num <= 0 && u_num <= 0
    } else {
        false
    }
}

impl Polygon {
    pub open spec fn bounded(self) -> bool {
        points_bounded(self.points@)
    }

    /// Point-in-polygon by the parity (odd/even) ray-cast rule. Total for
    /// any closed point sequence; points exactly on the boundary are a
    /// documented precision limitation of the rule.
    pub fn contains(&self, pos: Point2) -> (r: bool)
        requires
            self.bounded(),
            pos.bounded(),
        ensures
            r == contains_spec(self.points@, pos),
    {
        let n = self.points.len();
        let mut count: usize = 0;
        let mut i: usize = 0;
        while i < n
            invariant
                0 <= i <= n,
                n == self.points@.len(),
                count <= i,
                count == crossings_upto(self.points@, pos, i as int),
                self.bounded(),
                pos.bounded(),
            decreases n - i,
        {
            let a = self.points[i];
            let b = if i + 1 == n {
                self.points[0]
            } else {
                self.points[i + 1]
            };
            if seg_crosses(pos, a, b) {
                count = count + 1;
            }
            i = i + 1;
        }
        count % 2 == 1
    }
}

/// Color directive for a rendered board mesh: either the owning player's
/// color, or a fixed color with red, green and blue channels given in
/// fixed-point steps of a full channel (0 to 1000).
#[derive(Clone, Copy, PartialEq, Eq, Structural, Debug)]
pub enum BoardColor {
    PlayerColor,
    StaticColor(u16, u16, u16),
}

/// An indexed render mesh with 3-D vertices: either a list of line
/// segments or a list of triangles, both indexing into the vertex buffer.
#[derive(Clone, Debug)]
pub enum Mesh {
    IndexedLineMesh { vertices: Vec<Point3>, lines: Vec<(usize, usize)> },
    IndexedTriMesh { vertices: Vec<Point3>, triangles: Vec<(usize, usize, usize)> },
}

/// A renderable mesh plus its color directive.
#[derive(Clone, Debug)]
pub struct BoardMesh {
    pub color: BoardColor,
    pub mesh: Mesh,
}

/// One cell record of an exported board: adjacency (by cell index, each
/// mapping to an interpolation path), the cell's shape, and its position.
#[derive(Clone, Debug)]
pub struct Cell {
    pub neighbors: Vec<(usize, Path)>,
    pub shape: Polygon,
    pub position: Point2,
}

/// The complete exported artifact: an ordered cell sequence and the
/// meshes that render the board.
#[derive(Clone, Debug)]
pub struct Board {
    pub cells: Vec<Cell>,
    pub meshes: Vec<BoardMesh>,
}

impl Default for Board {
    fn default() -> (r: Board)
        ensures
            r.cells@.len() == 0,
            r.meshes@.len() == 0,
    {
        Board { cells: Vec::new(), meshes: Vec::new() }
    }
}

impl Board {
    /// Every neighbor index refers to a cell of this board and no cell is
    /// its own neighbor.
    pub open spec fn wf(self) -> bool {
        forall|i: int, k: int|
            0 <= i < self.cells@.len() && 0 <= k < self.cells@[i].neighbors@.len() ==> {
                let n = (#[trigger] self.cells@[i].neighbors@[k]).0;
                n < self.cells@.len() && n != i
            }
    }

    pub open spec fn shapes_bounded(self) -> bool {
        forall|i: int|
            0 <= i < self.cells@.len() ==> points_bounded(
                (#[trigger] self.cells@[i]).shape.points@,
            )
    }

    /// Index of the first cell whose shape contains `pos`, if any.
    pub fn pick(&self, pos: Point2) -> (r: Option<usize>)
        requires
            self.shapes_bounded(),
            pos.bounded(),
        ensures
            match r {
                Some(i) => 0 <= i < self.cells@.len() && contains_spec(
                    self.cells@[i as int].shape.points@,
                    pos,
                ) && forall|j: int|
                    0 <= j < i ==> !contains_spec((#[trigger] self.cells@[j]).shape.points@, pos),
                None => forall|j: int|
                    0 <= j < self.cells@.len() ==> !contains_spec(
                        (#[trigger] self.cells@[j]).shape.points@,
                        pos,
                    ),
            },
    {
        let n = self.cells.len();
        let mut i: usize = 0;
        while i < n
            invariant
                0 <= i <= n,
                n == self.cells@.len(),
                self.shapes_bounded(),
                pos.bounded(),
                forall|j: int|
                    0 <= j < i ==> !contains_spec((#[trigger] self.cells@[j]).shape.points@, pos),
            decreases n - i,
        {
            if self.cells[i].shape.contains(pos) {
                return Some(i);
            }
            i = i + 1;
        }
        None
    }
}

} // verus!

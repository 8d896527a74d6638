//! Mesh loop extraction: reconstructs closed polygonal cell faces and
//! their adjacency from an unstructured set of line segments, as exported
//! from 3-D authoring tools. Works on raw vertex positions and indices,
//! independent of the grid coordinate systems.

use vstd::prelude::*;

use crate::board::{Cell, Keyframe, Mesh, Path, Polygon, KEY_END, KEY_START};
use crate::geom::{Point2, Point3};
use crate::num::{lemma_round_div_near, round_div, round_div_i128};

verus! {

/// Largest vertex coordinate magnitude accepted by the import pipeline:
/// keeps squared distances and angle cross products within range.
pub const MESH_LIMIT: i64 = 1_000_000_000_000;

pub open spec fn vert_bounded(p: Point3) -> bool {
    &&& -MESH_LIMIT <= p.x <= MESH_LIMIT
    &&& -MESH_LIMIT <= p.y <= MESH_LIMIT
    &&& -MESH_LIMIT <= p.z <= MESH_LIMIT
}

pub open spec fn verts_bounded(vs: Seq<Point3>) -> bool {
    forall|i: int| 0 <= i < vs.len() ==> vert_bounded(#[trigger] vs[i])
}

/// An unstructured indexed line mesh: vertex positions plus undirected
/// vertex-index pairs.
#[derive(Clone, Debug)]
pub struct IndexedLineMesh {
    pub vertices: Vec<Point3>,
    pub lines: Vec<(usize, usize)>,
}

/// The neighbor list of vertex `v` after looking at the first `i` lines:
/// for every line touching `v`, its other endpoint, in line order.
pub open spec fn neighbors_upto(lines: Seq<(usize, usize)>, v: usize, i: int) -> Seq<usize>
    decreases i,
{
    if i <= 0 {
        Seq::<usize>::empty()
    } else {
        let prev = neighbors_upto(lines, v, i - 1);
        let l = lines[i - 1];
        if l.0 == v {
            prev.push(l.1)
        } else if l.1 == v {
            prev.push(l.0)
        } else {
            prev
        }
    }
}

pub open spec fn neighbors_spec(lines: Seq<(usize, usize)>, v: usize) -> Seq<usize> {
    neighbors_upto(lines, v, lines.len() as int)
}

impl IndexedLineMesh {
    /// Every line endpoint indexes a vertex.
    pub open spec fn wf(self) -> bool {
        forall|j: int|
            0 <= j < self.lines@.len() ==> (#[trigger] self.lines@[j]).0 < self.vertices@.len()
                && self.lines@[j].1 < self.vertices@.len()
    }

    pub open spec fn bounded(self) -> bool {
        verts_bounded(self.vertices@)
    }

    /// The mesh-neighbors of vertex `v`: the other endpoint of every line
    /// that touches `v`.
    pub fn neighbors(&self, v: usize) -> (r: Vec<usize>)
        ensures
            r@ == neighbors_spec(self.lines@, v),
            self.wf() ==> forall|t: int| 0 <= t < r@.len() ==> #[trigger] r@[t] < self.vertices@.len(),
    {
        let n = self.lines.len();
        let mut r: Vec<usize> = Vec::new();
        let mut i: usize = 0;
        proof {
            assert(r@ =~= neighbors_upto(self.lines@, v, 0));
        }
        while i < n
            invariant
                0 <= i <= n,
                n == self.lines@.len(),
                r@ == neighbors_upto(self.lines@, v, i as int),
                self.wf() ==> forall|t: int|
                    0 <= t < r@.len() ==> #[trigger] r@[t] < self.vertices@.len(),
            decreases n - i,
        {
            let l = self.lines[i];
            if l.0 == v {
                r.push(l.1);
            } else if l.1 == v {
                r.push(l.0);
            }
            i = i + 1;
        }
        r
    }
}

/// A cyclic rotation of `s` starting at position `m`.
pub open spec fn rotation_at(s: Seq<usize>, m: int) -> Seq<usize>
    recommends
        0 <= m <= s.len(),
{
    s.subrange(m, s.len() as int) + s.subrange(0, m)
}

/// Position of the first occurrence of the minimum of a nonempty
/// sequence.
pub open spec fn first_min_index(s: Seq<usize>) -> int
    recommends
        s.len() > 0,
    decreases s.len(),
{
    if s.len() <= 1 {
        0
    } else {
        let m = first_min_index(s.drop_last());
        if s.last() < s[m] {
            s.len() - 1
        } else {
            m
        }
    }
}

/// The canonical form of a cyclic vertex list: rotated to begin at the
/// first occurrence of its minimum.
pub open spec fn rotate_min(s: Seq<usize>) -> Seq<usize>
    recommends
        s.len() > 0,
{
    rotation_at(s, first_min_index(s))
}

/// The first-minimum position is in range, minimal, and preceded only by
/// strictly larger elements.
pub proof fn lemma_first_min_index(s: Seq<usize>)
    requires
        s.len() > 0,
    ensures
        0 <= first_min_index(s) < s.len(),
        forall|j: int| 0 <= j < s.len() ==> s[first_min_index(s)] <= #[trigger] s[j],
        forall|j: int| 0 <= j < first_min_index(s) ==> #[trigger] s[j] > s[first_min_index(s)],
    decreases s.len(),
{
    if s.len() <= 1 {
    } else {
        lemma_first_min_index(s.drop_last());
        let m0 = first_min_index(s.drop_last());
        assert(forall|j: int| 0 <= j < s.len() - 1 ==> #[trigger] s[j] == s.drop_last()[j]);
    }
}

/// A closed loop of vertex indices, canonicalized to begin at its
/// minimum-valued vertex index: a stable, coordinate-free identity, so the
/// same physical face discovered from different starting edges compares
/// equal.
#[derive(Clone, Debug)]
pub struct Loop(pub Vec<usize>);

impl Loop {
    /// Canonicalizes a vertex cycle by rotating it to begin at the first
    /// occurrence of its minimum vertex index.
    pub fn new(vertices: Vec<usize>) -> (r: Loop)
        requires
            vertices@.len() > 0,
        ensures
            r.0@ == rotate_min(vertices@),
            r.0@.len() == vertices@.len(),
    {
        let n = vertices.len();
        let mut m: usize = 0;
        let mut i: usize = 1;
        proof {
            assert(vertices@.subrange(0, 1).len() == 1);
        }
        while i < n
            invariant
                0 <= m < i <= n,
                n == vertices@.len(),
                m as int == first_min_index(vertices@.subrange(0, i as int)),
                forall|j: int| 0 <= j < i ==> vertices@[m as int] <= #[trigger] vertices@[j],
                forall|j: int| 0 <= j < m ==> #[trigger] vertices@[j] > vertices@[m as int],
            decreases n - i,
        {
            let ghost prefix = vertices@.subrange(0, i as int);
            let ghost m_pre = m as int;
            if vertices[i] < vertices[m] {
                m = i;
            }
            i = i + 1;
            proof {
                let prefix2 = vertices@.subrange(0, i as int);
                assert(prefix2.drop_last() =~= prefix);
                assert(prefix2.last() == vertices@[i - 1]);
                lemma_first_min_index(prefix);
                assert(prefix2[m_pre] == vertices@[m_pre]);
            }
        }
        proof {
            assert(vertices@.subrange(0, n as int) =~= vertices@);
        }
        let mut out: Vec<usize> = Vec::new();
        let mut k: usize = m;
        while k < n
            invariant
                m <= k <= n,
                n == vertices@.len(),
                out@ == vertices@.subrange(m as int, k as int),
            decreases n - k,
        {
            out.push(vertices[k]);
            k = k + 1;
            proof {
                assert(out@ =~= vertices@.subrange(m as int, k as int));
            }
        }
        let mut k2: usize = 0;
        while k2 < m
            invariant
                0 <= k2 <= m <= n,
                n == vertices@.len(),
                out@ == vertices@.subrange(m as int, n as int) + vertices@.subrange(0, k2 as int),
            decreases m - k2,
        {
            out.push(vertices[k2]);
            k2 = k2 + 1;
            proof {
                assert(out@ =~= vertices@.subrange(m as int, n as int) + vertices@.subrange(
                    0,
                    k2 as int,
                ));
            }
        }
        proof {
            assert(out@ == rotation_at(vertices@, m as int));
        }
        Loop(out)
    }

    /// The undirected boundary segments of the loop, one per vertex, each
    /// normalized with the lower index first.
    pub fn edges(&self) -> (r: Vec<(usize, usize)>)
        requires
            self.0@.len() > 0,
        ensures
            r@.len() == self.0@.len(),
            forall|j: int| 0 <= j < r@.len() ==> #[trigger] r@[j] == loop_edge(self.0@, j),
    {
        let n = self.0.len();
        let mut r: Vec<(usize, usize)> = Vec::new();
        let mut j: usize = 0;
        while j < n
            invariant
                0 <= j <= n,
                n == self.0@.len(),
                r@.len() == j,
                forall|t: int| 0 <= t < j ==> #[trigger] r@[t] == loop_edge(self.0@, t),
            decreases n - j,
        {
            let a = self.0[j];
            let b = if j + 1 == n {
                self.0[0]
            } else {
                self.0[j + 1]
            };
            if a <= b {
                r.push((a, b));
            } else {
                r.push((b, a));
            }
            j = j + 1;
        }
        r
    }

    /// The loop perimeter: the sum of the Euclidean distances between
    /// successive vertices (wrapping), each rounded down to whole
    /// coordinate steps.
    pub fn perimeter(&self, vertices: &Vec<Point3>) -> (r: u128)
        requires
            self.0@.len() > 0,
            verts_bounded(vertices@),
            forall|j: int| 0 <= j < self.0@.len() ==> #[trigger] self.0@[j] < vertices@.len(),
        ensures
            r == perimeter_spec(self.0@, vertices@),
    {
        let n = self.0.len();
        let mut sum: u128 = 0;
        let mut j: usize = 0;
        while j < n
            invariant
                0 <= j <= n,
                n == self.0@.len(),
                verts_bounded(vertices@),
                forall|t: int| 0 <= t < n ==> #[trigger] self.0@[t] < vertices@.len(),
                sum == perimeter_upto(self.0@, vertices@, j as int),
                sum <= j * 4_000_000_000_000,
            decreases n - j,
        {
            let a = self.0[j];
            let b = if j + 1 == n {
                self.0[0]
            } else {
                self.0[j + 1]
            };
            let d = dist(&vertices[a], &vertices[b]);
            sum = sum + d as u128;
            j = j + 1;
        }
        sum
    }
}

/// The `j`-th undirected loop segment, lower index first.
pub open spec fn loop_edge(l: Seq<usize>, j: int) -> (usize, usize)
    recommends
        0 <= j < l.len(),
{
    let a = l[j];
    let b = if j + 1 == l.len() {
        l[0]
    } else {
        l[j + 1]
    };
    if a <= b {
        (a, b)
    } else {
        (b, a)
    }
}

/// `r` is the integer square root of `n`: the largest integer whose
/// square does not exceed `n`.
pub open spec fn is_sqrt(n: nat, r: nat) -> bool {
    r * r <= n < (r + 1) * (r + 1)
}

pub open spec fn sqrt_floor(n: nat) -> nat {
    choose|r: nat| is_sqrt(n, r)
}

/// The distance between two mesh vertices, rounded down to whole
/// coordinate steps.
pub open spec fn dist_spec(p: Point3, q: Point3) -> nat {
    sqrt_floor(((p.x - q.x) * (p.x - q.x) + (p.y - q.y) * (p.y - q.y) + (p.z - q.z) * (p.z
        - q.z)) as nat)
}

pub open spec fn perimeter_upto(l: Seq<usize>, vs: Seq<Point3>, j: int) -> nat
    decreases j,
{
    if j <= 0 {
        0
    } else {
        perimeter_upto(l, vs, j - 1) + dist_spec(
            vs[l[j - 1] as int],
            vs[l[if j == l.len() {
                0int
            } else {
                j
            }] as int],
        )
    }
}

pub open spec fn perimeter_spec(l: Seq<usize>, vs: Seq<Point3>) -> nat {
    perimeter_upto(l, vs, l.len() as int)
}

/// Binary search for the integer square root.
fn isqrt(n: u128) -> (r: u64)
    requires
        n < 0x4000_0000_0000_0000_0000_0000_0000_0000,
    ensures
        is_sqrt(n as nat, r as nat),
        r == sqrt_floor(n as nat),
{
    let mut lo: u64 = 0;
    let mut hi: u64 = 0x8000_0000_0000_0000;
    proof {
        assert((hi as nat) * (hi as nat) > n) by (nonlinear_arith)
            requires
                hi == 0x8000_0000_0000_0000,
                n < 0x4000_0000_0000_0000_0000_0000_0000_0000,
        ;
    }
    while lo + 1 < hi
        invariant
            lo < hi,
            hi <= 0x8000_0000_0000_0000,
            (lo as nat) * (lo as nat) <= n as nat,
            (hi as nat) * (hi as nat) > n as nat,
        decreases hi - lo,
    {
        let mid = lo + (hi - lo) / 2;
        proof {
            assert((mid as nat) * (mid as nat) < 0x8000_0000_0000_0000_0000_0000_0000_0000)
                by (nonlinear_arith)
                requires
                    mid <= 0x8000_0000_0000_0000,
            ;
        }
        let sq = (mid as u128) * (mid as u128);
        if sq <= n {
            lo = mid;
        } else {
            hi = mid;
        }
    }
    proof {
        assert(is_sqrt(n as nat, lo as nat));
        let w = sqrt_floor(n as nat);
        assert(is_sqrt(n as nat, w));
        assert(lo as nat == w) by (nonlinear_arith)
            requires
                is_sqrt(n as nat, lo as nat),
                is_sqrt(n as nat, w),
        ;
    }
    lo
}

/// Exact fixed-point distance between two bounded vertices.
fn dist(p: &Point3, q: &Point3) -> (r: u64)
    requires
        vert_bounded(*p),
        vert_bounded(*q),
    ensures
        r == dist_spec(*p, *q),
        r <= 4_000_000_000_000,
{
    let dx = p.x as i128 - q.x as i128;
    let dy = p.y as i128 - q.y as i128;
    let dz = p.z as i128 - q.z as i128;
    proof {
        assert(0 <= dx * dx <= 4_000_000_000_000_000_000_000_000 && 0 <= dy * dy
            <= 4_000_000_000_000_000_000_000_000 && 0 <= dz * dz
            <= 4_000_000_000_000_000_000_000_000) by (nonlinear_arith)
            requires
                -2_000_000_000_000 <= dx <= 2_000_000_000_000,
                -2_000_000_000_000 <= dy <= 2_000_000_000_000,
                -2_000_000_000_000 <= dz <= 2_000_000_000_000,
        ;
    }
    let n = (dx * dx + dy * dy + dz * dz) as u128;
    let r = isqrt(n);
    proof {
        assert(r as nat * (r as nat) <= n as nat);
        assert(r <= 4_000_000_000_000) by (nonlinear_arith)
            requires
                (r as nat) * (r as nat) <= n as nat,
                n <= 12_000_000_000_000_000_000_000_000,
        ;
    }
    r
}


/// Vertex `y` follows `x` along some mesh line, in either direction.
pub open spec fn is_mesh_edge(lines: Seq<(usize, usize)>, x: usize, y: usize) -> bool {
    exists|j: int| 0 <= j < lines.len() && (#[trigger] lines[j] == (x, y) || lines[j] == (y, x))
}

/// Every listed neighbor of `v` shares a mesh line with `v`.
pub proof fn lemma_neighbors_are_edges(lines: Seq<(usize, usize)>, v: usize, i: int)
    requires
        0 <= i <= lines.len(),
    ensures
        forall|t: int|
            0 <= t < neighbors_upto(lines, v, i).len() ==> is_mesh_edge(
                lines,
                v,
                #[trigger] neighbors_upto(lines, v, i)[t],
            ),
    decreases i,
{
    if i <= 0 {
    } else {
        lemma_neighbors_are_edges(lines, v, i - 1);
        let prev = neighbors_upto(lines, v, i - 1);
        let cur = neighbors_upto(lines, v, i);
        let l = lines[i - 1];
        assert forall|t: int| 0 <= t < cur.len() implies is_mesh_edge(
            lines,
            v,
            #[trigger] cur[t],
        ) by {
            if t < prev.len() {
                assert(cur[t] == prev[t]);
            } else {
                assert(l == (v, cur[t]) || l == (cur[t], v));
            }
        }
    }
}

/// Planar cross product: positive when `w` is counter-clockwise from `u`.
pub open spec fn cross2(ux: int, uy: int, wx: int, wy: int) -> int {
    ux * wy - uy * wx
}

pub open spec fn dot2(ux: int, uy: int, wx: int, wy: int) -> int {
    ux * wx + uy * wy
}

/// Which band of the signed angle range the direction `(cr, d)` =
/// (cross, dot) falls in, ordered by angle value in (-pi, pi]: below zero,
/// zero, between zero and pi, or pi itself. The zero vector counts as
/// angle zero.
pub open spec fn angle_class(cr: int, d: int) -> int {
    if cr > 0 {
        2
    } else if cr < 0 {
        0
    } else if d >= 0 {
        1
    } else {
        3
    }
}

/// Exact comparison of signed turn angles: whether the angle from `u` to
/// `w1` is at most the angle from `u` to `w2`, both measured in (-pi, pi].
/// Angles in different bands compare by band; within an open band, `w2` is
/// at least as far counter-clockwise exactly when the cross product of
/// `w1` and `w2` is not negative.
pub open spec fn angle_le(
    ux: int,
    uy: int,
    w1x: int,
    w1y: int,
    w2x: int,
    w2y: int,
) -> bool {
    let c1 = angle_class(cross2(ux, uy, w1x, w1y), dot2(ux, uy, w1x, w1y));
    let c2 = angle_class(cross2(ux, uy, w2x, w2y), dot2(ux, uy, w2x, w2y));
    if c1 != c2 {
        c1 < c2
    } else if c1 == 0 || c1 == 2 {
        cross2(w1x, w1y, w2x, w2y) >= 0
    } else {
        true
    }
}

/// Exact executable angle comparison over bounded fixed-point vectors.
fn angle_le_exec(ux: i64, uy: i64, w1x: i64, w1y: i64, w2x: i64, w2y: i64) -> (r: bool)
    requires
        -4_000_000_000_000 <= ux <= 4_000_000_000_000,
        -4_000_000_000_000 <= uy <= 4_000_000_000_000,
        -4_000_000_000_000 <= w1x <= 4_000_000_000_000,
        -4_000_000_000_000 <= w1y <= 4_000_000_000_000,
        -4_000_000_000_000 <= w2x <= 4_000_000_000_000,
        -4_000_000_000_000 <= w2y <= 4_000_000_000_000,
    ensures
        r == angle_le(ux as int, uy as int, w1x as int, w1y as int, w2x as int, w2y as int),
{
    let cr1 = mul_i64(ux, w1y) - mul_i64(uy, w1x);
    let d1 = mul_i64(ux, w1x) + mul_i64(uy, w1y);
    let cr2 = mul_i64(ux, w2y) - mul_i64(uy, w2x);
    let d2 = mul_i64(ux, w2x) + mul_i64(uy, w2y);
    let c1: u8 = if cr1 > 0 {
        2
    } else if cr1 < 0 {
        0
    } else if d1 >= 0 {
        1
    } else {
        3
    };
    let c2: u8 = if cr2 > 0 {
        2
    } else if cr2 < 0 {
        0
    } else if d2 >= 0 {
        1
    } else {
        3
    };
    if c1 != c2 {
        c1 < c2
    } else if c1 == 0 || c1 == 2 {
        let cr12 = mul_i64(w1x, w2y) - mul_i64(w1y, w2x);
        cr12 >= 0
    } else {
        true
    }
}

/// Widening product of two bounded coordinates.
fn mul_i64(a: i64, b: i64) -> (r: i128)
    requires
        -4_000_000_000_000 <= a <= 4_000_000_000_000,
        -4_000_000_000_000 <= b <= 4_000_000_000_000,
    ensures
        r == a * b,
        -0x1000_0000_0000_0000_0000_0000_0000 <= r <= 0x1000_0000_0000_0000_0000_0000_0000,
{
    proof {
        assert(a * b <= 16_000_000_000_000_000_000_000_000 && a * b
            >= -16_000_000_000_000_000_000_000_000) by (nonlinear_arith)
            requires
                -4_000_000_000_000 <= a <= 4_000_000_000_000,
                -4_000_000_000_000 <= b <= 4_000_000_000_000,
        ;
    }
    a as i128 * b as i128
}

/// The successor the greedy face walk picks among the first `i` neighbors
/// of `b`, having arrived from `a`: the neighbor (other than `a`) whose
/// outgoing direction forms the largest signed angle with the incoming
/// direction, later candidates winning ties.
pub open spec fn select_upto(
    vs: Seq<Point3>,
    ns: Seq<usize>,
    avoid: usize,
    apos: Point3,
    bpos: Point3,
    i: int,
) -> Option<usize>
    decreases i,
{
    if i <= 0 {
        None
    } else {
        let prev = select_upto(vs, ns, avoid, apos, bpos, i - 1);
        let c = ns[i - 1];
        if c == avoid {
            prev
        } else {
            match prev {
                None => Some(c),
                Some(p) => {
                    if angle_le(
                        bpos.x - apos.x,
                        bpos.y - apos.y,
                        vs[p as int].x - bpos.x,
                        vs[p as int].y - bpos.y,
                        vs[c as int].x - bpos.x,
                        vs[c as int].y - bpos.y,
                    ) {
                        Some(c)
                    } else {
                        Some(p)
                    }
                },
            }
        }
    }
}

/// The successor the walk picks at `b`, having arrived from `a`, on the
/// whole neighbor list.
pub open spec fn select_spec(
    vs: Seq<Point3>,
    lines: Seq<(usize, usize)>,
    a: usize,
    b: usize,
) -> Option<usize> {
    select_upto(
        vs,
        neighbors_spec(lines, b),
        a,
        vs[a as int],
        vs[b as int],
        neighbors_spec(lines, b).len() as int,
    )
}

/// The whole greedy face walk as a function of the mesh: from the walk
/// state (collected cycle `current`, visited set `seen`, position `a`,
/// successor `b`), with `fuel` steps allowed, the canonicalized loop the
/// walk yields. Mirrors the walk exactly: append the position; close and
/// canonicalize when the successor is the start; abandon on a revisited
/// position or a dead end; otherwise advance along the angle-maximal
/// neighbor.
pub open spec fn walk_spec(
    vs: Seq<Point3>,
    lines: Seq<(usize, usize)>,
    v: usize,
    current: Seq<usize>,
    seen: Seq<bool>,
    a: usize,
    b: usize,
    fuel: nat,
) -> Option<Seq<usize>>
    decreases fuel,
{
    if fuel == 0 {
        None
    } else {
        let cur2 = current.push(a);
        if b == v {
            Some(rotate_min(cur2))
        } else if seen[a as int] {
            None
        } else {
            match select_spec(vs, lines, a, b) {
                None => None,
                Some(c) => walk_spec(
                    vs,
                    lines,
                    v,
                    cur2,
                    seen.update(a as int, true),
                    b,
                    c,
                    (fuel - 1) as nat,
                ),
            }
        }
    }
}

/// The walk launched along the directed edge `v -> start`, with nothing
/// collected or visited and one step of fuel per vertex plus the closing
/// step.
pub open spec fn walk_from(
    vs: Seq<Point3>,
    lines: Seq<(usize, usize)>,
    v: usize,
    start: usize,
) -> Option<Seq<usize>> {
    walk_spec(
        vs,
        lines,
        v,
        Seq::<usize>::empty(),
        Seq::new(vs.len(), |i: int| false),
        v,
        start,
        (vs.len() + 1) as nat,
    )
}

/// Picks the walk's next vertex after the step from `a` to `b`: the
/// mesh-neighbor of `b`, other than `a`, forming the largest turn angle.
fn select_next(mesh: &IndexedLineMesh, a: usize, b: usize) -> (r: Option<usize>)
    requires
        mesh.wf(),
        mesh.bounded(),
        a < mesh.vertices@.len(),
        b < mesh.vertices@.len(),
    ensures
        r == select_spec(mesh.vertices@, mesh.lines@, a, b),
        (r matches Some(c) ==> c < mesh.vertices@.len() && c != a && is_mesh_edge(
            mesh.lines@,
            b,
            c,
        )),
{
    let ns = mesh.neighbors(b);
    proof {
        lemma_neighbors_are_edges(mesh.lines@, b, mesh.lines@.len() as int);
    }
    let apos = mesh.vertices[a];
    let bpos = mesh.vertices[b];
    let n = ns.len();
    let mut best: Option<usize> = None;
    let mut i: usize = 0;
    while i < n
        invariant
            0 <= i <= n,
            n == neighbors_spec(mesh.lines@, b).len(),
            ns@ == neighbors_spec(mesh.lines@, b),
            mesh.wf(),
            mesh.bounded(),
            a < mesh.vertices@.len(),
            b < mesh.vertices@.len(),
            apos == mesh.vertices@[a as int],
            bpos == mesh.vertices@[b as int],
            forall|t: int| 0 <= t < n ==> #[trigger] ns@[t] < mesh.vertices@.len(),
            forall|t: int| 0 <= t < n ==> is_mesh_edge(mesh.lines@, b, #[trigger] ns@[t]),
            best == select_upto(mesh.vertices@, ns@, a, apos, bpos, i as int),
            (best matches Some(p) ==> p < mesh.vertices@.len() && p != a && is_mesh_edge(
                mesh.lines@,
                b,
                p,
            )),
        decreases n - i,
    {
        let c = ns[i];
        if c != a {
            match best {
                None => {
                    best = Some(c);
                },
                Some(p) => {
                    let ppos = mesh.vertices[p];
                    let cpos = mesh.vertices[c];
                    if angle_le_exec(
                        bpos.x - apos.x,
                        bpos.y - apos.y,
                        ppos.x - bpos.x,
                        ppos.y - bpos.y,
                        cpos.x - bpos.x,
                        cpos.y - bpos.y,
                    ) {
                        best = Some(c);
                    }
                },
            }
        }
        i = i + 1;
    }
    best
}

/// The wrapping successor of position `i` in a cyclic vertex list.
pub open spec fn cyclic_next(l: Seq<usize>, i: int) -> usize
    recommends
        0 <= i < l.len(),
{
    if i + 1 == l.len() {
        l[0]
    } else {
        l[i + 1]
    }
}

/// A reconstructed face: a nonempty cyclic vertex list whose consecutive
/// vertices (wrapping) all share mesh lines, indexing real vertices, and
/// canonically rotated to begin at its minimum vertex index.
pub open spec fn loop_ok(lines: Seq<(usize, usize)>, nverts: int, l: Seq<usize>) -> bool {
    &&& l.len() >= 1
    &&& (forall|i: int| 0 <= i < l.len() ==> #[trigger] l[i] < nverts)
    &&& (forall|i: int| 0 <= i < l.len() ==> is_mesh_edge(lines, #[trigger] l[i], cyclic_next(l, i)))
    &&& (forall|i: int| 0 <= i < l.len() ==> l[0] <= #[trigger] l[i])
}

/// Rotating a cyclic vertex list keeps its cyclic adjacency.
#[verifier::rlimit(40)]
pub proof fn lemma_rotation_keeps_cycle(
    lines: Seq<(usize, usize)>,
    raw: Seq<usize>,
    m: int,
)
    requires
        0 <= m < raw.len(),
        forall|i: int|
            0 <= i < raw.len() ==> is_mesh_edge(lines, #[trigger] raw[i], cyclic_next(raw, i)),
    ensures
        forall|i: int|
            0 <= i < rotation_at(raw, m).len() ==> is_mesh_edge(
                lines,
                #[trigger] rotation_at(raw, m)[i],
                cyclic_next(rotation_at(raw, m), i),
            ),
{
    let n = raw.len() as int;
    let rot = rotation_at(raw, m);
    assert(rot.len() == n);
    assert forall|i: int| 0 <= i < n implies is_mesh_edge(
        lines,
        #[trigger] rot[i],
        cyclic_next(rot, i),
    ) by {
        let j = if i + m < n {
            i + m
        } else {
            i + m - n
        };
        assert(rot[i] == raw[j]);
        if i + 1 == n {
            assert(cyclic_next(rot, i) == rot[0]);
            assert(rot[0] == raw[m]);
            if j + 1 == n {
                assert(cyclic_next(raw, j) == raw[0]);
                assert(m == 0);
            } else {
                assert(cyclic_next(raw, j) == raw[j + 1]);
                assert(j + 1 == m);
            }
        } else {
            let j2 = if i + 1 + m < n {
                i + 1 + m
            } else {
                i + 1 + m - n
            };
            assert(cyclic_next(rot, i) == rot[i + 1]);
            assert(rot[i + 1] == raw[j2]);
            if j + 1 == n {
                assert(j2 == 0);
                assert(cyclic_next(raw, j) == raw[0]);
            } else {
                assert(j2 == j + 1);
                assert(cyclic_next(raw, j) == raw[j + 1]);
            }
        }
        assert(is_mesh_edge(lines, raw[j], cyclic_next(raw, j)));
    }
}

/// One greedy face walk: starting along the directed edge `v -> start`,
/// repeatedly steps to the neighbor forming the largest turn angle. If the
/// walk returns to `v` it yields the canonicalized loop; a revisited
/// vertex, or a vertex with no onward neighbor, abandons the walk with no
/// loop (the mesh is not a closed planar loop from this edge).
fn walk_loop(mesh: &IndexedLineMesh, v: usize, start: usize) -> (r: Option<Loop>)
    requires
        mesh.wf(),
        mesh.bounded(),
        v < mesh.vertices@.len(),
        start < mesh.vertices@.len(),
        is_mesh_edge(mesh.lines@, v, start),
    ensures
        (r matches Some(lp) ==> loop_ok(mesh.lines@, mesh.vertices@.len() as int, lp.0@)),
        match r {
            Some(lp) => walk_from(mesh.vertices@, mesh.lines@, v, start) == Some(lp.0@),
            None => walk_from(mesh.vertices@, mesh.lines@, v, start) is None,
        },
{
    let nverts = mesh.vertices.len();
    let mut current: Vec<usize> = Vec::new();
    let mut seen: Vec<bool> = Vec::new();
    let mut t: usize = 0;
    while t < nverts
        invariant
            0 <= t <= nverts,
            seen@.len() == t,
            forall|s: int| 0 <= s < t ==> #[trigger] seen@[s] == false,
        decreases nverts - t,
    {
        seen.push(false);
        t = t + 1;
    }
    proof {
        assert(seen@ =~= Seq::new(mesh.vertices@.len(), |i: int| false));
    }
    let mut a = v;
    let mut b = start;
    // Each continuing iteration marks one more vertex visited, so the
    // walk can take at most one step per vertex plus the closing step.
    let mut fuel: u128 = nverts as u128 + 1;
    while fuel > 0
        invariant
            seen@.len() == nverts,
            nverts == mesh.vertices@.len(),
            mesh.wf(),
            mesh.bounded(),
            v < nverts,
            a < nverts,
            b < nverts,
            is_mesh_edge(mesh.lines@, a, b),
            walk_from(mesh.vertices@, mesh.lines@, v, start) == walk_spec(
                mesh.vertices@,
                mesh.lines@,
                v,
                current@,
                seen@,
                a,
                b,
                fuel as nat,
            ),
            forall|i: int| 0 <= i < current@.len() ==> #[trigger] current@[i] < nverts,
            forall|i: int|
                0 <= i < current@.len() - 1 ==> is_mesh_edge(
                    mesh.lines@,
                    #[trigger] current@[i],
                    current@[i + 1],
                ),
            current@.len() > 0 ==> current@[0] == v && is_mesh_edge(
                mesh.lines@,
                current@.last(),
                a,
            ),
            current@.len() == 0 ==> a == v,
        decreases fuel,
    {
        let ghost pre = current@;
        let ghost pre_seen = seen@;
        let ghost pre_fuel = fuel as nat;
        current.push(a);
        if b == v {
            let lp = Loop::new(current);
            proof {
                let raw = pre.push(a);
                assert(walk_spec(mesh.vertices@, mesh.lines@, v, pre, pre_seen, a, b, pre_fuel)
                    == Some(rotate_min(raw)));
                assert forall|i: int| 0 <= i < raw.len() implies is_mesh_edge(
                    mesh.lines@,
                    #[trigger] raw[i],
                    cyclic_next(raw, i),
                ) by {
                    if i + 1 == raw.len() {
                        assert(raw[i] == a);
                        assert(cyclic_next(raw, i) == raw[0]);
                        assert(raw[0] == v);
                    } else {
                        if i + 1 == raw.len() - 1 {
                            assert(raw[i] == pre.last());
                            assert(raw[i + 1] == a);
                        } else {
                            assert(raw[i] == pre[i] && raw[i + 1] == pre[i + 1]);
                        }
                    }
                }
                lemma_first_min_index(raw);
                let m = first_min_index(raw);
                assert(lp.0@ == rotation_at(raw, m));
                lemma_rotation_keeps_cycle(mesh.lines@, raw, m);
                assert forall|i: int| 0 <= i < lp.0@.len() implies #[trigger] lp.0@[i]
                    < nverts by {
                    if i < raw.len() - m {
                        assert(lp.0@[i] == raw[m + i]);
                    } else {
                        assert(lp.0@[i] == raw[i - (raw.len() - m)]);
                    }
                }
                assert forall|i: int| 0 <= i < lp.0@.len() implies lp.0@[0]
                    <= #[trigger] lp.0@[i] by {
                    assert(lp.0@[0] == raw[m]);
                    if i < raw.len() - m {
                        assert(lp.0@[i] == raw[m + i]);
                    } else {
                        assert(lp.0@[i] == raw[i - (raw.len() - m)]);
                    }
                }
            }
            return Some(lp);
        }
        if seen[a] {
            proof {
                assert(walk_spec(mesh.vertices@, mesh.lines@, v, pre, pre_seen, a, b, pre_fuel)
                    is None);
            }
            return None;
        }
        seen.set(a, true);
        match select_next(mesh, a, b) {
            None => {
                proof {
                    assert(walk_spec(
                        mesh.vertices@,
                        mesh.lines@,
                        v,
                        pre,
                        pre_seen,
                        a,
                        b,
                        pre_fuel,
                    ) is None);
                }
                return None;
            },
            Some(c) => {
                proof {
                    assert(walk_spec(mesh.vertices@, mesh.lines@, v, pre, pre_seen, a, b, pre_fuel)
                        == walk_spec(
                        mesh.vertices@,
                        mesh.lines@,
                        v,
                        pre.push(a),
                        pre_seen.update(a as int, true),
                        b,
                        c,
                        (pre_fuel - 1) as nat,
                    ));
                    assert(seen@ == pre_seen.update(a as int, true));
                }
                a = b;
                b = c;
            },
        }
        fuel = fuel - 1;
    }
    None
}

fn loops_equal(x: &Loop, y: &Loop) -> (r: bool)
    ensures
        r == (x.0@ == y.0@),
{
    let n = x.0.len();
    if n != y.0.len() {
        proof {
            assert(x.0@ != y.0@);
        }
        return false;
    }
    let mut i: usize = 0;
    while i < n
        invariant
            0 <= i <= n,
            n == x.0@.len(),
            n == y.0@.len(),
            forall|t: int| 0 <= t < i ==> #[trigger] x.0@[t] == y.0@[t],
        decreases n - i,
    {
        if x.0[i] != y.0[i] {
            return false;
        }
        i = i + 1;
    }
    proof {
        assert(x.0@ =~= y.0@);
    }
    true
}

fn loops_list_contains(loops: &Vec<Loop>, lp: &Loop) -> (r: bool)
    ensures
        r == exists|t: int| 0 <= t < loops@.len() && (#[trigger] loops@[t]).0@ == lp.0@,
{
    let n = loops.len();
    let mut i: usize = 0;
    while i < n
        invariant
            0 <= i <= n,
            n == loops@.len(),
            forall|t: int| 0 <= t < i ==> (#[trigger] loops@[t]).0@ != lp.0@,
        decreases n - i,
    {
        if loops_equal(&loops[i], lp) {
            return true;
        }
        i = i + 1;
    }
    false
}

/// The vertex sequences of a loop list.
pub open spec fn loop_views(loops: Seq<Loop>) -> Seq<Seq<usize>> {
    loops.map_values(|lp: Loop| lp.0@)
}

/// The distinct face list after also walking the first `k` directed edges
/// out of vertex `v`, appended to `acc` in first-discovery order.
pub open spec fn loops_fold_at(
    vs: Seq<Point3>,
    lines: Seq<(usize, usize)>,
    acc: Seq<Seq<usize>>,
    v: usize,
    k: int,
) -> Seq<Seq<usize>>
    decreases k,
{
    if k <= 0 {
        acc
    } else {
        let prev = loops_fold_at(vs, lines, acc, v, k - 1);
        match walk_from(vs, lines, v, neighbors_spec(lines, v)[k - 1]) {
            Some(l) => if prev.contains(l) {
                prev
            } else {
                prev.push(l)
            },
            None => prev,
        }
    }
}

/// The distinct face list discovered from every directed edge out of the
/// first `i` vertices, in scan order.
pub open spec fn loops_fold(vs: Seq<Point3>, lines: Seq<(usize, usize)>, i: int) -> Seq<
    Seq<usize>,
>
    decreases i,
{
    if i <= 0 {
        Seq::<Seq<usize>>::empty()
    } else {
        loops_fold_at(
            vs,
            lines,
            loops_fold(vs, lines, i - 1),
            (i - 1) as usize,
            neighbors_spec(lines, (i - 1) as usize).len() as int,
        )
    }
}

/// Every face the greedy walk discovers on the mesh, one walk per directed
/// edge (every vertex, every neighbor, in scan order), deduplicated in
/// first-discovery order.
pub open spec fn loops_spec(vs: Seq<Point3>, lines: Seq<(usize, usize)>) -> Seq<Seq<usize>> {
    loops_fold(vs, lines, vs.len() as int)
}

/// Walks every directed mesh edge and collects the distinct closed faces
/// it discovers, in first-discovery order: exactly `loops_spec` of the
/// mesh. Each returned loop is a closed cycle of mesh lines, canonically
/// rotated; no loop is returned twice, so each physical face found is
/// retained exactly once.
pub fn extract_loops(mesh: &IndexedLineMesh) -> (r: Vec<Loop>)
    requires
        mesh.wf(),
        mesh.bounded(),
    ensures
        loop_views(r@) == loops_spec(mesh.vertices@, mesh.lines@),
        forall|t: int|
            0 <= t < r@.len() ==> loop_ok(
                mesh.lines@,
                mesh.vertices@.len() as int,
                (#[trigger] r@[t]).0@,
            ),
        forall|t1: int, t2: int|
            0 <= t1 < t2 < r@.len() ==> (#[trigger] r@[t1]).0@ != (#[trigger] r@[t2]).0@,
{
    let nverts = mesh.vertices.len();
    let mut loops: Vec<Loop> = Vec::new();
    let mut v: usize = 0;
    while v < nverts
        invariant
            0 <= v <= nverts,
            nverts == mesh.vertices@.len(),
            mesh.wf(),
            mesh.bounded(),
            forall|t: int|
                0 <= t < loops@.len() ==> loop_ok(
                    mesh.lines@,
                    mesh.vertices@.len() as int,
                    (#[trigger] loops@[t]).0@,
                ),
            forall|t1: int, t2: int|
                0 <= t1 < t2 < loops@.len() ==> (#[trigger] loops@[t1]).0@ != (
                #[trigger] loops@[t2]).0@,
            loop_views(loops@) == loops_fold(mesh.vertices@, mesh.lines@, v as int),
        decreases nverts - v,
    {
        let ns = mesh.neighbors(v);
        proof {
            lemma_neighbors_are_edges(mesh.lines@, v, mesh.lines@.len() as int);
        }
        let ghost acc0 = loops_fold(mesh.vertices@, mesh.lines@, v as int);
        let m = ns.len();
        let mut k: usize = 0;
        while k < m
            invariant
                0 <= k <= m,
                m == ns@.len(),
                nverts == mesh.vertices@.len(),
                mesh.wf(),
                mesh.bounded(),
                v < nverts,
                ns@ == neighbors_spec(mesh.lines@, v),
                forall|t: int| 0 <= t < m ==> #[trigger] ns@[t] < nverts,
                forall|t: int|
                    0 <= t < m ==> is_mesh_edge(mesh.lines@, v, #[trigger] ns@[t]),
                forall|t: int|
                    0 <= t < loops@.len() ==> loop_ok(
                        mesh.lines@,
                        mesh.vertices@.len() as int,
                        (#[trigger] loops@[t]).0@,
                    ),
                forall|t1: int, t2: int|
                    0 <= t1 < t2 < loops@.len() ==> (#[trigger] loops@[t1]).0@ != (
                    #[trigger] loops@[t2]).0@,
                loop_views(loops@) == loops_fold_at(
                    mesh.vertices@,
                    mesh.lines@,
                    acc0,
                    v,
                    k as int,
                ),
            decreases m - k,
        {
            let next = ns[k];
            let ghost fold_pre = loop_views(loops@);
            match walk_loop(mesh, v, next) {
                Some(lp) => {
                    let present = loops_list_contains(&loops, &lp);
                    proof {
                        if present {
                            let t = choose|t: int|
                                0 <= t < loops@.len() && (#[trigger] loops@[t]).0@ == lp.0@;
                            assert(fold_pre[t] == lp.0@);
                            assert(fold_pre.contains(lp.0@));
                        } else {
                            assert forall|t: int|
                                0 <= t < fold_pre.len() implies #[trigger] fold_pre[t]
                                != lp.0@ by {
                                assert(fold_pre[t] == loops@[t].0@);
                            }
                            assert(!fold_pre.contains(lp.0@));
                        }
                    }
                    if !present {
                        let ghost pre = loops@;
                        loops.push(lp);
                        proof {
                            assert forall|t1: int, t2: int|
                                0 <= t1 < t2 < loops@.len() implies (#[trigger] loops@[t1]).0@ != (
                            #[trigger] loops@[t2]).0@ by {
                                if t2 < pre.len() {
                                    assert(loops@[t1] == pre[t1] && loops@[t2] == pre[t2]);
                                } else {
                                    assert(loops@[t1] == pre[t1]);
                                    assert(loops@[t2] == lp);
                                }
                            }
                            assert(loop_views(loops@) =~= fold_pre.push(lp.0@));
                        }
                    }
                },
                None => {},
            }
            k = k + 1;
            proof {
                assert(loops_fold_at(mesh.vertices@, mesh.lines@, acc0, v, k as int)
                    == match walk_from(
                    mesh.vertices@,
                    mesh.lines@,
                    v,
                    neighbors_spec(mesh.lines@, v)[k - 1],
                ) {
                    Some(l) => if loops_fold_at(
                        mesh.vertices@,
                        mesh.lines@,
                        acc0,
                        v,
                        k - 1,
                    ).contains(l) {
                        loops_fold_at(mesh.vertices@, mesh.lines@, acc0, v, k - 1)
                    } else {
                        loops_fold_at(mesh.vertices@, mesh.lines@, acc0, v, k - 1).push(l)
                    },
                    None => loops_fold_at(mesh.vertices@, mesh.lines@, acc0, v, k - 1),
                });
            }
        }
        v = v + 1;
        proof {
            assert(loops_fold(mesh.vertices@, mesh.lines@, v as int) == loops_fold_at(
                mesh.vertices@,
                mesh.lines@,
                loops_fold(mesh.vertices@, mesh.lines@, v - 1),
                (v - 1) as usize,
                neighbors_spec(mesh.lines@, (v - 1) as usize).len() as int,
            ));
        }
    }
    loops
}


/// The largest perimeter among the first `i` loops.
pub open spec fn max_per_upto(loops: Seq<Seq<usize>>, vs: Seq<Point3>, i: int) -> nat
    decreases i,
{
    if i <= 0 {
        0
    } else {
        let prev = max_per_upto(loops, vs, i - 1);
        let p = perimeter_spec(loops[i - 1], vs);
        if p > prev {
            p
        } else {
            prev
        }
    }
}

/// Indices of the loops that survive the boundary cut: every loop whose
/// perimeter is strictly below the global maximum. The maximum-perimeter
/// loop is the traced mesh's outer boundary, not a playable cell; when
/// only one loop exists it is itself the boundary, and nothing survives.
pub open spec fn surviving_upto(loops: Seq<Seq<usize>>, vs: Seq<Point3>, i: int) -> Seq<int>
    decreases i,
{
    if i <= 0 {
        Seq::<int>::empty()
    } else {
        let prev = surviving_upto(loops, vs, i - 1);
        if perimeter_spec(loops[i - 1], vs) < max_per_upto(loops, vs, loops.len() as int) {
            prev.push(i - 1)
        } else {
            prev
        }
    }
}

pub open spec fn surviving(loops: Seq<Seq<usize>>, vs: Seq<Point3>) -> Seq<int> {
    surviving_upto(loops, vs, loops.len() as int)
}

/// Sum of the x coordinates of the first `i` loop vertices.
pub open spec fn sum_x_upto(l: Seq<usize>, vs: Seq<Point3>, i: int) -> int
    decreases i,
{
    if i <= 0 {
        0
    } else {
        sum_x_upto(l, vs, i - 1) + vs[l[i - 1] as int].x
    }
}

pub open spec fn sum_y_upto(l: Seq<usize>, vs: Seq<Point3>, i: int) -> int
    decreases i,
{
    if i <= 0 {
        0
    } else {
        sum_y_upto(l, vs, i - 1) + vs[l[i - 1] as int].y
    }
}

/// The unweighted centroid of the loop's vertices, to the nearest
/// coordinate step.
pub open spec fn centroid_spec(l: Seq<usize>, vs: Seq<Point3>) -> Point2
    recommends
        l.len() > 0,
{
    Point2 {
        x: round_div(sum_x_upto(l, vs, l.len() as int), l.len() as int) as i64,
        y: round_div(sum_y_upto(l, vs, l.len() as int), l.len() as int) as i64,
    }
}

fn centroid(l: &Loop, vs: &Vec<Point3>) -> (r: Point2)
    requires
        l.0@.len() > 0,
        verts_bounded(vs@),
        forall|j: int| 0 <= j < l.0@.len() ==> #[trigger] l.0@[j] < vs@.len(),
    ensures
        r == centroid_spec(l.0@, vs@),
        -2_000_000_000_000 <= r.x <= 2_000_000_000_000,
        -2_000_000_000_000 <= r.y <= 2_000_000_000_000,
{
    let n = l.0.len();
    let mut sx: i128 = 0;
    let mut sy: i128 = 0;
    let mut j: usize = 0;
    while j < n
        invariant
            0 <= j <= n,
            n == l.0@.len(),
            verts_bounded(vs@),
            forall|t: int| 0 <= t < n ==> #[trigger] l.0@[t] < vs@.len(),
            sx == sum_x_upto(l.0@, vs@, j as int),
            sy == sum_y_upto(l.0@, vs@, j as int),
            -(j as int) * 1_000_000_000_000 <= sx <= (j as int) * 1_000_000_000_000,
            -(j as int) * 1_000_000_000_000 <= sy <= (j as int) * 1_000_000_000_000,
        decreases n - j,
    {
        let p = vs[l.0[j]];
        sx = sx + p.x as i128;
        sy = sy + p.y as i128;
        j = j + 1;
    }
    proof {
        lemma_round_div_near(sx as int, n as int);
        lemma_round_div_near(sy as int, n as int);
    }
    let cx = round_div_i128(sx, n as i128);
    let cy = round_div_i128(sy, n as i128);
    proof {
        assert(-2_000_000_000_000 <= cx <= 2_000_000_000_000) by (nonlinear_arith)
            requires
                2 * crate::num::abs(cx * (n as int) - sx) <= n as int,
                -(n as int) * 1_000_000_000_000 <= sx <= (n as int) * 1_000_000_000_000,
                n > 0,
                cx == round_div(sx as int, n as int),
        ;
        assert(-2_000_000_000_000 <= cy <= 2_000_000_000_000) by (nonlinear_arith)
            requires
                2 * crate::num::abs(cy * (n as int) - sy) <= n as int,
                -(n as int) * 1_000_000_000_000 <= sy <= (n as int) * 1_000_000_000_000,
                n > 0,
                cy == round_div(sy as int, n as int),
        ;
    }
    Point2 { x: cx as i64, y: cy as i64 }
}

/// Two loops share at least one physical segment.
pub open spec fn loops_share_edge(l1: Seq<usize>, l2: Seq<usize>) -> bool {
    exists|j1: int, j2: int|
        0 <= j1 < l1.len() && 0 <= j2 < l2.len() && #[trigger] loop_edge(l1, j1)
            == #[trigger] loop_edge(l2, j2)
}

pub open spec fn edge_set_subset(l1: Seq<usize>, l2: Seq<usize>) -> bool {
    forall|j1: int|
        0 <= j1 < l1.len() ==> exists|j2: int|
            0 <= j2 < l2.len() && #[trigger] loop_edge(l1, j1) == #[trigger] loop_edge(l2, j2)
}

pub open spec fn edge_sets_equal(l1: Seq<usize>, l2: Seq<usize>) -> bool {
    edge_set_subset(l1, l2) && edge_set_subset(l2, l1)
}

/// Two reconstructed faces are adjacent exactly when their edge sets
/// intersect but are not identical.
pub open spec fn loops_adjacent(l1: Seq<usize>, l2: Seq<usize>) -> bool {
    loops_share_edge(l1, l2) && !edge_sets_equal(l1, l2)
}

fn edge_list_contains(es: &Vec<(usize, usize)>, x: (usize, usize)) -> (r: bool)
    ensures
        r == exists|j: int| 0 <= j < es@.len() && #[trigger] es@[j] == x,
{
    let n = es.len();
    let mut i: usize = 0;
    while i < n
        invariant
            0 <= i <= n,
            n == es@.len(),
            forall|t: int| 0 <= t < i ==> #[trigger] es@[t] != x,
        decreases n - i,
    {
        let e = es[i];
        if e.0 == x.0 && e.1 == x.1 {
            proof {
                assert(es@[i as int] == x);
            }
            return true;
        }
        i = i + 1;
    }
    false
}

/// Exact adjacency test for two faces.
fn adjacent_loops(l1: &Loop, l2: &Loop) -> (r: bool)
    requires
        l1.0@.len() > 0,
        l2.0@.len() > 0,
    ensures
        r == loops_adjacent(l1.0@, l2.0@),
{
    let e1 = l1.edges();
    let e2 = l2.edges();
    let n1 = e1.len();
    let n2 = e2.len();
    let mut share = false;
    let mut j1: usize = 0;
    while j1 < n1
        invariant
            0 <= j1 <= n1,
            n1 == l1.0@.len(),
            n2 == l2.0@.len(),
            e1@.len() == n1,
            e2@.len() == n2,
            forall|t: int| 0 <= t < n1 ==> #[trigger] e1@[t] == loop_edge(l1.0@, t),
            forall|t: int| 0 <= t < n2 ==> #[trigger] e2@[t] == loop_edge(l2.0@, t),
            share == exists|t1: int, t2: int|
                0 <= t1 < j1 && 0 <= t2 < n2 && #[trigger] loop_edge(l1.0@, t1)
                    == #[trigger] loop_edge(l2.0@, t2),
        decreases n1 - j1,
    {
        let hit = edge_list_contains(&e2, e1[j1]);
        proof {
            if hit {
                let t2 = choose|t2: int| 0 <= t2 < e2@.len() && e2@[t2] == e1@[j1 as int];
                assert(loop_edge(l1.0@, j1 as int) == loop_edge(l2.0@, t2));
            } else {
                assert forall|t2: int| 0 <= t2 < n2 implies #[trigger] loop_edge(l2.0@, t2)
                    != loop_edge(l1.0@, j1 as int) by {
                    assert(e2@[t2] != e1@[j1 as int]);
                }
            }
        }
        if hit {
            share = true;
        }
        j1 = j1 + 1;
    }
    let mut sub12 = true;
    let mut j1b: usize = 0;
    while j1b < n1
        invariant
            0 <= j1b <= n1,
            n1 == l1.0@.len(),
            n2 == l2.0@.len(),
            e1@.len() == n1,
            e2@.len() == n2,
            forall|t: int| 0 <= t < n1 ==> #[trigger] e1@[t] == loop_edge(l1.0@, t),
            forall|t: int| 0 <= t < n2 ==> #[trigger] e2@[t] == loop_edge(l2.0@, t),
            sub12 == forall|t1: int|
                0 <= t1 < j1b ==> exists|t2: int|
                    0 <= t2 < n2 && #[trigger] loop_edge(l1.0@, t1) == #[trigger] loop_edge(
                        l2.0@,
                        t2,
                    ),
        decreases n1 - j1b,
    {
        let hit = edge_list_contains(&e2, e1[j1b]);
        proof {
            if hit {
                let t2 = choose|t2: int| 0 <= t2 < e2@.len() && e2@[t2] == e1@[j1b as int];
                assert(loop_edge(l1.0@, j1b as int) == loop_edge(l2.0@, t2));
            } else {
                assert forall|t2: int| 0 <= t2 < n2 implies #[trigger] loop_edge(l2.0@, t2)
                    != loop_edge(l1.0@, j1b as int) by {
                    assert(e2@[t2] != e1@[j1b as int]);
                }
            }
        }
        sub12 = sub12 && hit;
        j1b = j1b + 1;
    }
    let mut sub21 = true;
    let mut j2: usize = 0;
    while j2 < n2
        invariant
            0 <= j2 <= n2,
            n1 == l1.0@.len(),
            n2 == l2.0@.len(),
            e1@.len() == n1,
            e2@.len() == n2,
            forall|t: int| 0 <= t < n1 ==> #[trigger] e1@[t] == loop_edge(l1.0@, t),
            forall|t: int| 0 <= t < n2 ==> #[trigger] e2@[t] == loop_edge(l2.0@, t),
            sub21 == forall|t1: int|
                0 <= t1 < j2 ==> exists|t2: int|
                    0 <= t2 < n1 && #[trigger] loop_edge(l2.0@, t1) == #[trigger] loop_edge(
                        l1.0@,
                        t2,
                    ),
        decreases n2 - j2,
    {
        let hit = edge_list_contains(&e1, e2[j2]);
        proof {
            if hit {
                let t2 = choose|t2: int| 0 <= t2 < e1@.len() && e1@[t2] == e2@[j2 as int];
                assert(loop_edge(l2.0@, j2 as int) == loop_edge(l1.0@, t2));
            } else {
                assert forall|t2: int| 0 <= t2 < n1 implies #[trigger] loop_edge(l1.0@, t2)
                    != loop_edge(l2.0@, j2 as int) by {
                    assert(e1@[t2] != e2@[j2 as int]);
                }
            }
        }
        sub21 = sub21 && hit;
        j2 = j2 + 1;
    }
    share && !(sub12 && sub21)
}

/// The adjacency entries of survivor `s` after looking at the first `j`
/// survivors: every other survivor sharing a segment, by survivor index.
pub open spec fn adj_entries_upto(
    loops: Seq<Seq<usize>>,
    vs: Seq<Point3>,
    surv: Seq<int>,
    s: int,
    j: int,
) -> Seq<int>
    decreases j,
{
    if j <= 0 {
        Seq::<int>::empty()
    } else {
        let prev = adj_entries_upto(loops, vs, surv, s, j - 1);
        if loops_adjacent(loops[surv[s]], loops[surv[j - 1]]) {
            prev.push(j - 1)
        } else {
            prev
        }
    }
}

/// What the cell list reconstructed from a loop set must hold: one record
/// per surviving loop (all but the maximum-perimeter boundary), whose
/// shape is the loop's vertex positions in loop order, whose position is
/// the loop's centroid, and whose adjacency maps every edge-sharing
/// survivor to a simple path between the two centroids.
pub open spec fn cells_of_loops(vs: Seq<Point3>, loops: Seq<Seq<usize>>, r: Seq<Cell>) -> bool {
    let surv = surviving(loops, vs);
    &&& r.len() == surv.len()
    &&& (forall|s: int|
        0 <= s < surv.len() ==> {
            let l = loops[surv[s]];
            let rec = #[trigger] r[s];
            let entries = adj_entries_upto(loops, vs, surv, s, surv.len() as int);
            &&& rec.position == centroid_spec(l, vs)
            &&& rec.shape.points@.len() == l.len()
            &&& (forall|k: int|
                0 <= k < l.len() ==> #[trigger] rec.shape.points@[k] == (Point2 {
                    x: vs[l[k] as int].x,
                    y: vs[l[k] as int].y,
                }))
            &&& rec.neighbors@.len() == entries.len()
            &&& (forall|t: int|
                0 <= t < entries.len() ==> (#[trigger] rec.neighbors@[t]).0 == entries[t]
                    && rec.neighbors@[t].1.0@ == seq![
                    (Keyframe(KEY_START), centroid_spec(loops[surv[s]], vs)),
                    (Keyframe(KEY_END), centroid_spec(loops[surv[entries[t]]], vs)),
                ])
        })
}

/// Every adjacency entry of a reconstructed cell list names another of
/// its cells, never the cell itself: a loop shares every edge with itself,
/// so it is not adjacent to itself.
pub proof fn lemma_adj_entries_bounds(
    loops: Seq<Seq<usize>>,
    vs: Seq<Point3>,
    surv: Seq<int>,
    s: int,
    j: int,
)
    requires
        0 <= s < surv.len(),
        0 <= j <= surv.len(),
    ensures
        forall|t: int|
            0 <= t < adj_entries_upto(loops, vs, surv, s, j).len() ==> {
                let e = #[trigger] adj_entries_upto(loops, vs, surv, s, j)[t];
                0 <= e < j && e != s
            },
        forall|t1: int, t2: int|
            0 <= t1 < t2 < adj_entries_upto(loops, vs, surv, s, j).len()
                ==> #[trigger] adj_entries_upto(loops, vs, surv, s, j)[t1]
                < #[trigger] adj_entries_upto(loops, vs, surv, s, j)[t2],
    decreases j,
{
    if j <= 0 {
    } else {
        lemma_adj_entries_bounds(loops, vs, surv, s, j - 1);
        let prev = adj_entries_upto(loops, vs, surv, s, j - 1);
        let entries = adj_entries_upto(loops, vs, surv, s, j);
        if loops_adjacent(loops[surv[s]], loops[surv[j - 1]]) {
            if j - 1 == s {
                let l = loops[surv[s]];
                assert(edge_set_subset(l, l)) by {
                    assert forall|j1: int| 0 <= j1 < l.len() implies exists|j2: int|
                        0 <= j2 < l.len() && #[trigger] loop_edge(l, j1) == #[trigger] loop_edge(
                            l,
                            j2,
                        ) by {
                        assert(loop_edge(l, j1) == loop_edge(l, j1));
                    }
                }
                assert(false);
            }
            assert forall|t: int| 0 <= t < entries.len() implies {
                let e = #[trigger] entries[t];
                0 <= e < j && e != s
            } by {
                if t < prev.len() {
                    assert(entries[t] == prev[t]);
                } else {
                    assert(entries[t] == j - 1);
                }
            }
            assert forall|t1: int, t2: int|
                0 <= t1 < t2 < entries.len() implies #[trigger] entries[t1]
                < #[trigger] entries[t2] by {
                assert(entries[t1] == prev[t1]);
                if t2 < prev.len() {
                    assert(entries[t2] == prev[t2]);
                } else {
                    assert(entries[t2] == j - 1);
                    assert(prev[t1] < j - 1);
                }
            }
        } else {
            assert forall|t: int| 0 <= t < entries.len() implies {
                let e = #[trigger] entries[t];
                0 <= e < j && e != s
            } by {
                assert(entries[t] == prev[t]);
            }
            assert forall|t1: int, t2: int|
                0 <= t1 < t2 < entries.len() implies #[trigger] entries[t1]
                < #[trigger] entries[t2] by {
                assert(entries[t1] == prev[t1] && entries[t2] == prev[t2]);
            }
        }
    }
}

/// The board invariant on the import path: a reconstructed cell list never
/// holds a dangling, repeated or self-referencing adjacency index, so each
/// record is a well-defined mapping from neighbor index to path.
pub proof fn lemma_import_cells_wf(vs: Seq<Point3>, loops: Seq<Seq<usize>>, r: Seq<Cell>)
    requires
        cells_of_loops(vs, loops, r),
    ensures
        forall|s: int, t: int|
            0 <= s < r.len() && 0 <= t < r[s].neighbors@.len() ==> {
                let n = (#[trigger] r[s].neighbors@[t]).0;
                n < r.len() && n != s
            },
        forall|s: int, t1: int, t2: int|
            0 <= s < r.len() && 0 <= t1 < t2 < r[s].neighbors@.len()
                ==> (#[trigger] r[s].neighbors@[t1]).0 != (#[trigger] r[s].neighbors@[t2]).0,
{
    let surv = surviving(loops, vs);
    assert forall|s: int, t: int|
        0 <= s < r.len() && 0 <= t < r[s].neighbors@.len() implies {
        let n = (#[trigger] r[s].neighbors@[t]).0;
        n < r.len() && n != s
    } by {
        lemma_adj_entries_bounds(loops, vs, surv, s, surv.len() as int);
        let entries = adj_entries_upto(loops, vs, surv, s, surv.len() as int);
        assert(r[s].neighbors@[t].0 == entries[t]);
    }
    assert forall|s: int, t1: int, t2: int|
        0 <= s < r.len() && 0 <= t1 < t2 < r[s].neighbors@.len() implies (
    #[trigger] r[s].neighbors@[t1]).0 != (#[trigger] r[s].neighbors@[t2]).0 by {
        lemma_adj_entries_bounds(loops, vs, surv, s, surv.len() as int);
        let entries = adj_entries_upto(loops, vs, surv, s, surv.len() as int);
        assert(r[s].neighbors@[t1].0 == entries[t1]);
        assert(r[s].neighbors@[t2].0 == entries[t2]);
    }
}

/// Builds the board cells of one reconstructed line mesh from its
/// discovered loops: discards the maximum-perimeter loop (the outer
/// boundary of the whole traced mesh), then produces one cell per
/// surviving face with its shape, centroid and edge-sharing adjacency.
pub fn cells_from_loops(mesh: &IndexedLineMesh, loops: &Vec<Loop>) -> (r: Vec<Cell>)
    requires
        mesh.wf(),
        mesh.bounded(),
        forall|t: int|
            0 <= t < loops@.len() ==> loop_ok(
                mesh.lines@,
                mesh.vertices@.len() as int,
                (#[trigger] loops@[t]).0@,
            ),
    ensures
        cells_of_loops(mesh.vertices@, loop_views(loops@), r@),
{
    let vs = &mesh.vertices;
    let ghost lv = loop_views(loops@);
    let n = loops.len();
    let mut maxp: u128 = 0;
    let mut i: usize = 0;
    while i < n
        invariant
            0 <= i <= n,
            n == loops@.len(),
            mesh.wf(),
            mesh.bounded(),
            vs@ == mesh.vertices@,
            forall|t: int|
                0 <= t < n ==> loop_ok(
                    mesh.lines@,
                    mesh.vertices@.len() as int,
                    (#[trigger] loops@[t]).0@,
                ),
            lv == loop_views(loops@),
            maxp == max_per_upto(lv, vs@, i as int),
        decreases n - i,
    {
        let p = loops[i].perimeter(vs);
        proof {
            assert(lv[i as int] == loops@[i as int].0@);
        }
        if p > maxp {
            maxp = p;
        }
        i = i + 1;
    }
    let mut surv: Vec<usize> = Vec::new();
    let mut i2: usize = 0;
    proof {
        assert(surv@.map_values(|u: usize| u as int) =~= surviving_upto(lv, vs@, 0));
    }
    while i2 < n
        invariant
            0 <= i2 <= n,
            n == loops@.len(),
            mesh.wf(),
            mesh.bounded(),
            vs@ == mesh.vertices@,
            forall|t: int|
                0 <= t < n ==> loop_ok(
                    mesh.lines@,
                    mesh.vertices@.len() as int,
                    (#[trigger] loops@[t]).0@,
                ),
            lv == loop_views(loops@),
            maxp == max_per_upto(lv, vs@, n as int),
            surv@.map_values(|u: usize| u as int) == surviving_upto(lv, vs@, i2 as int),
            forall|t: int| 0 <= t < surv@.len() ==> #[trigger] surv@[t] < n,
        decreases n - i2,
    {
        let p = loops[i2].perimeter(vs);
        proof {
            assert(lv[i2 as int] == loops@[i2 as int].0@);
        }
        if p < maxp {
            surv.push(i2);
            proof {
                assert(surv@.map_values(|u: usize| u as int) =~= surviving_upto(
                    lv,
                    vs@,
                    i2 + 1,
                ));
            }
        }
        i2 = i2 + 1;
    }
    let ghost gsurv = surviving(lv, vs@);
    let m = surv.len();
    let mut cents: Vec<Point2> = Vec::new();
    let mut i3: usize = 0;
    while i3 < m
        invariant
            0 <= i3 <= m,
            m == surv@.len(),
            n == loops@.len(),
            mesh.wf(),
            mesh.bounded(),
            vs@ == mesh.vertices@,
            forall|t: int|
                0 <= t < n ==> loop_ok(
                    mesh.lines@,
                    mesh.vertices@.len() as int,
                    (#[trigger] loops@[t]).0@,
                ),
            lv == loop_views(loops@),
            surv@.map_values(|u: usize| u as int) == gsurv,
            forall|t: int| 0 <= t < m ==> #[trigger] surv@[t] < n,
            cents@.len() == i3,
            forall|t: int|
                0 <= t < i3 ==> #[trigger] cents@[t] == centroid_spec(
                    lv[surv@[t] as int],
                    vs@,
                ),
        decreases m - i3,
    {
        let li = surv[i3];
        let c = centroid(&loops[li], vs);
        proof {
            assert(lv[li as int] == loops@[li as int].0@);
        }
        cents.push(c);
        i3 = i3 + 1;
    }
    let mut r: Vec<Cell> = Vec::new();
    let mut s: usize = 0;
    while s < m
        invariant
            0 <= s <= m,
            m == surv@.len(),
            n == loops@.len(),
            mesh.wf(),
            mesh.bounded(),
            vs@ == mesh.vertices@,
            forall|t: int|
                0 <= t < n ==> loop_ok(
                    mesh.lines@,
                    mesh.vertices@.len() as int,
                    (#[trigger] loops@[t]).0@,
                ),
            lv == loop_views(loops@),
            surv@.map_values(|u: usize| u as int) == gsurv,
            forall|t: int| 0 <= t < m ==> #[trigger] surv@[t] < n,
            cents@.len() == m,
            forall|t: int|
                0 <= t < m ==> #[trigger] cents@[t] == centroid_spec(
                    lv[surv@[t] as int],
                    vs@,
                ),
            r@.len() == s,
            forall|t: int|
                0 <= t < s ==> {
                    let l = lv[gsurv[t]];
                    let rec = #[trigger] r@[t];
                    let entries = adj_entries_upto(lv, vs@, gsurv, t, gsurv.len() as int);
                    &&& rec.position == centroid_spec(l, vs@)
                    &&& rec.shape.points@.len() == l.len()
                    &&& (forall|k: int|
                        0 <= k < l.len() ==> #[trigger] rec.shape.points@[k] == (Point2 {
                            x: vs@[l[k] as int].x,
                            y: vs@[l[k] as int].y,
                        }))
                    &&& rec.neighbors@.len() == entries.len()
                    &&& (forall|tt: int|
                        0 <= tt < entries.len() ==> (#[trigger] rec.neighbors@[tt]).0
                            == entries[tt] && rec.neighbors@[tt].1.0@ == seq![
                            (Keyframe(KEY_START), centroid_spec(lv[gsurv[t]], vs@)),
                            (Keyframe(KEY_END), centroid_spec(lv[gsurv[entries[tt]]], vs@)),
                        ])
                },
        decreases m - s,
    {
        let li = surv[s];
        let lref = &loops[li];
        let llen = lref.0.len();
        let mut points: Vec<Point2> = Vec::new();
        let mut k: usize = 0;
        while k < llen
            invariant
                0 <= k <= llen,
                llen == lref.0@.len(),
                vs@ == mesh.vertices@,
                lref == &loops@[li as int],
                li < n,
                n == loops@.len(),
                forall|t: int| 0 <= t < llen ==> #[trigger] lref.0@[t] < vs@.len(),
                points@.len() == k,
                forall|t: int|
                    0 <= t < k ==> #[trigger] points@[t] == (Point2 {
                        x: vs@[lref.0@[t] as int].x,
                        y: vs@[lref.0@[t] as int].y,
                    }),
            decreases llen - k,
        {
            let p3 = vs[lref.0[k]];
            points.push(Point2 { x: p3.x, y: p3.y });
            k = k + 1;
        }
        let mut nbrs: Vec<(usize, Path)> = Vec::new();
        let mut j: usize = 0;
        proof {
            assert(nbrs@.len() == adj_entries_upto(lv, vs@, gsurv, s as int, 0).len());
        }
        while j < m
            invariant
                0 <= j <= m,
                m == surv@.len(),
                n == loops@.len(),
                vs@ == mesh.vertices@,
                s < m,
                li == surv@[s as int],
                forall|t: int|
                    0 <= t < n ==> loop_ok(
                        mesh.lines@,
                        mesh.vertices@.len() as int,
                        (#[trigger] loops@[t]).0@,
                    ),
                lv == loop_views(loops@),
                surv@.map_values(|u: usize| u as int) == gsurv,
                forall|t: int| 0 <= t < m ==> #[trigger] surv@[t] < n,
                cents@.len() == m,
                forall|t: int|
                    0 <= t < m ==> #[trigger] cents@[t] == centroid_spec(
                        lv[surv@[t] as int],
                        vs@,
                    ),
                ({
                    let entries = adj_entries_upto(lv, vs@, gsurv, s as int, j as int);
                    &&& nbrs@.len() == entries.len()
                    &&& (forall|tt: int|
                        0 <= tt < entries.len() ==> (#[trigger] nbrs@[tt]).0 == entries[tt]
                            && nbrs@[tt].1.0@ == seq![
                            (Keyframe(KEY_START), centroid_spec(lv[gsurv[s as int]], vs@)),
                            (
                                Keyframe(KEY_END),
                                centroid_spec(lv[gsurv[entries[tt]]], vs@),
                            ),
                        ])
                }),
            decreases m - j,
        {
            let lj = surv[j];
            let hit = adjacent_loops(&loops[li], &loops[lj]);
            proof {
                assert(lv[li as int] == loops@[li as int].0@);
                assert(lv[lj as int] == loops@[lj as int].0@);
            }
            if hit {
                let path = Path::simple(cents[s], cents[j]);
                nbrs.push((j, path));
                proof {
                    assert(adj_entries_upto(lv, vs@, gsurv, s as int, j + 1) == adj_entries_upto(
                        lv,
                        vs@,
                        gsurv,
                        s as int,
                        j as int,
                    ).push(j as int));
                }
            } else {
                proof {
                    assert(adj_entries_upto(lv, vs@, gsurv, s as int, j + 1) == adj_entries_upto(
                        lv,
                        vs@,
                        gsurv,
                        s as int,
                        j as int,
                    ));
                }
            }
            j = j + 1;
        }
        let position = cents[s];
        proof {
            assert(lv[li as int] == loops@[li as int].0@);
        }
        r.push(Cell { neighbors: nbrs, shape: Polygon { points }, position });
        s = s + 1;
    }
    r
}


/// The little-endian 16-bit value at byte offset `o`.
pub open spec fn u16_at(data: Seq<u8>, o: int) -> int
    recommends
        0 <= o && o + 1 < data.len(),
{
    data[o] + 256 * data[o + 1]
}

/// The vertex-index pairs a 16-bit line index buffer decodes to.
pub open spec fn decoded_lines_spec(data: Seq<u8>) -> Seq<(usize, usize)> {
    Seq::new(
        (data.len() / 4) as nat,
        |k: int| (u16_at(data, 4 * k) as usize, u16_at(data, 4 * k + 2) as usize),
    )
}

/// Decodes a 16-bit unsigned index buffer as vertex-index pairs, two
/// little-endian values per line; fails when the byte length is not a
/// whole number of pairs.
pub fn decode_u16_pairs(data: &Vec<u8>) -> (r: Option<Vec<(usize, usize)>>)
    ensures
        match r {
            Some(v) => data@.len() % 4 == 0 && v@ == decoded_lines_spec(data@) && v@.len()
                == data@.len() / 4 && forall|k: int|
                0 <= k < v@.len() ==> (#[trigger] v@[k]).0 == u16_at(data@, 4 * k) && v@[k].1
                    == u16_at(data@, 4 * k + 2),
            None => data@.len() % 4 != 0,
        },
{
    let n = data.len();
    if n % 4 != 0 {
        return None;
    }
    let count = n / 4;
    let mut v: Vec<(usize, usize)> = Vec::new();
    let mut k: usize = 0;
    while k < count
        invariant
            0 <= k <= count,
            n == data@.len(),
            n % 4 == 0,
            count == n / 4,
            v@.len() == k,
            forall|t: int|
                0 <= t < k ==> (#[trigger] v@[t]).0 == u16_at(data@, 4 * t) && v@[t].1 == u16_at(
                    data@,
                    4 * t + 2,
                ),
        decreases count - k,
    {
        let a = data[4 * k] as usize + 256 * (data[4 * k + 1] as usize);
        let b = data[4 * k + 2] as usize + 256 * (data[4 * k + 3] as usize);
        v.push((a, b));
        k = k + 1;
    }
    proof {
        assert(v@ =~= decoded_lines_spec(data@));
    }
    Some(v)
}

/// Decodes a 16-bit unsigned index buffer as vertex-index triples, three
/// little-endian values per triangle; fails when the byte length is not a
/// whole number of triples.
pub fn decode_u16_triples(data: &Vec<u8>) -> (r: Option<Vec<(usize, usize, usize)>>)
    ensures
        match r {
            Some(v) => data@.len() % 6 == 0 && v@.len() == data@.len() / 6 && forall|k: int|
                0 <= k < v@.len() ==> (#[trigger] v@[k]).0 == u16_at(data@, 6 * k) && v@[k].1
                    == u16_at(data@, 6 * k + 2) && v@[k].2 == u16_at(data@, 6 * k + 4),
            None => data@.len() % 6 != 0,
        },
{
    let n = data.len();
    if n % 6 != 0 {
        return None;
    }
    let count = n / 6;
    let mut v: Vec<(usize, usize, usize)> = Vec::new();
    let mut k: usize = 0;
    while k < count
        invariant
            0 <= k <= count,
            n == data@.len(),
            n % 6 == 0,
            count == n / 6,
            v@.len() == k,
            forall|t: int|
                0 <= t < k ==> (#[trigger] v@[t]).0 == u16_at(data@, 6 * t) && v@[t].1 == u16_at(
                    data@,
                    6 * t + 2,
                ) && v@[t].2 == u16_at(data@, 6 * t + 4),
        decreases count - k,
    {
        let a = data[6 * k] as usize + 256 * (data[6 * k + 1] as usize);
        let b = data[6 * k + 2] as usize + 256 * (data[6 * k + 3] as usize);
        let c = data[6 * k + 4] as usize + 256 * (data[6 * k + 5] as usize);
        v.push((a, b, c));
        k = k + 1;
    }
    Some(v)
}

/// Primitive topology of an imported mesh, as 3-D content files declare
/// it. Only line lists and triangle lists are supported for board
/// reconstruction.
#[derive(Clone, Copy, PartialEq, Eq, Structural, Debug)]
pub enum PrimitiveMode {
    Points,
    Lines,
    LineLoop,
    LineStrip,
    Triangles,
    TriangleStrip,
    TriangleFan,
}

/// One mesh primitive of an imported content file: its declared topology,
/// its raw 16-bit index buffer, and its vertex positions (already in
/// fixed-point coordinates).
#[derive(Clone, Debug)]
pub struct Primitive {
    pub mode: PrimitiveMode,
    pub index_data: Vec<u8>,
    pub vertices: Vec<Point3>,
}

/// Why a primitive produced no mesh or no board: its mode is unsupported,
/// it is a point cloud (skipped with a diagnostic), its index buffer is
/// not a whole number of entries, an index points past the vertex buffer,
/// or a vertex coordinate is out of the supported range.
#[derive(Clone, Copy, PartialEq, Eq, Structural, Debug)]
pub enum ImportIssue {
    UnsupportedMode,
    PointsSkipped,
    BadIndexData,
    IndexOutOfRange,
    VertexOutOfRange,
}

/// `q` appears among the recorded source indices.
pub open spec fn lists_source(sources: Seq<usize>, q: int) -> bool {
    exists|t: int| 0 <= t < sources.len() && #[trigger] sources[t] == q
}

/// A diagnostic was recorded for primitive `q`.
pub open spec fn has_issue_for(issues: Seq<(usize, ImportIssue)>, q: int) -> bool {
    exists|t: int| 0 <= t < issues.len() && (#[trigger] issues[t]).0 == q
}

/// Everything one import run produces: the reconstructed cell lists (one
/// per usable line primitive), the decoded meshes passed through for
/// decorative use, and a diagnostic per primitive that could not be fully
/// processed. The source lists name the primitive each output came from.
#[derive(Clone, Debug)]
pub struct ImportOutcome {
    pub boards: Vec<Vec<Cell>>,
    pub board_sources: Vec<usize>,
    pub meshes: Vec<Mesh>,
    pub mesh_sources: Vec<usize>,
    pub issues: Vec<(usize, ImportIssue)>,
}

pub open spec fn prim_ok_lines(p: Primitive) -> bool {
    p.mode is Lines && p.index_data@.len() % 4 == 0
}

pub open spec fn prim_ok_tris(p: Primitive) -> bool {
    p.mode is Triangles && p.index_data@.len() % 6 == 0
}

pub open spec fn prim_supported(p: Primitive) -> bool {
    prim_ok_lines(p) || prim_ok_tris(p)
}

/// The diagnostic a primitive deserves when it yields no mesh.
pub open spec fn issue_of(p: Primitive) -> ImportIssue {
    if p.mode is Points {
        ImportIssue::PointsSkipped
    } else if p.mode is Lines || p.mode is Triangles {
        ImportIssue::BadIndexData
    } else {
        ImportIssue::UnsupportedMode
    }
}

/// The decoded line pairs of a line primitive, as a predicate on the
/// decoded list.
pub open spec fn lines_decoded(p: Primitive, lines: Seq<(usize, usize)>) -> bool {
    &&& lines.len() == p.index_data@.len() / 4
    &&& (forall|k: int|
        0 <= k < lines.len() ==> (#[trigger] lines[k]).0 == u16_at(p.index_data@, 4 * k)
            && lines[k].1 == u16_at(p.index_data@, 4 * k + 2))
}

pub open spec fn tris_decoded(p: Primitive, tris: Seq<(usize, usize, usize)>) -> bool {
    &&& tris.len() == p.index_data@.len() / 6
    &&& (forall|k: int|
        0 <= k < tris.len() ==> (#[trigger] tris[k]).0 == u16_at(p.index_data@, 6 * k)
            && tris[k].1 == u16_at(p.index_data@, 6 * k + 2) && tris[k].2 == u16_at(
            p.index_data@,
            6 * k + 4,
        ))
}

/// The mesh a supported primitive decodes to.
pub open spec fn mesh_from_prim(p: Primitive, m: Mesh) -> bool {
    if prim_ok_lines(p) {
        &&& m is IndexedLineMesh
        &&& (m matches Mesh::IndexedLineMesh { vertices, lines } ==> vertices@ == p.vertices@
            && lines_decoded(p, lines@))
    } else if prim_ok_tris(p) {
        &&& m is IndexedTriMesh
        &&& (m matches Mesh::IndexedTriMesh { vertices, triangles } ==> vertices@ == p.vertices@
            && tris_decoded(p, triangles@))
    } else {
        false
    }
}

/// The decoded line mesh of a lines primitive indexes only real vertices.
pub open spec fn prim_mesh_wf(p: Primitive) -> bool {
    forall|j: int|
        0 <= j < decoded_lines_spec(p.index_data@).len() ==> (#[trigger] decoded_lines_spec(
            p.index_data@,
        )[j]).0 < p.vertices@.len() && decoded_lines_spec(p.index_data@)[j].1 < p.vertices@.len()
}

/// A lines primitive from which a board can be reconstructed: a supported
/// line list whose indices are in range and whose vertices are within the
/// coordinate bounds.
pub open spec fn prim_usable(p: Primitive) -> bool {
    prim_ok_lines(p) && prim_mesh_wf(p) && verts_bounded(p.vertices@)
}

/// The cell list a usable lines primitive reconstructs to: exactly the
/// surviving faces of the loops the greedy walk discovers on its decoded
/// line mesh.
pub open spec fn board_from_prim(p: Primitive, cells: Seq<Cell>) -> bool {
    cells_of_loops(
        p.vertices@,
        loops_spec(p.vertices@, decoded_lines_spec(p.index_data@)),
        cells,
    )
}

fn check_mesh_usable(mesh: &IndexedLineMesh) -> (r: Option<ImportIssue>)
    ensures
        match r {
            None => mesh.wf() && mesh.bounded(),
            Some(issue) => (!mesh.wf() && issue == ImportIssue::IndexOutOfRange) || (mesh.wf()
                && !mesh.bounded() && issue == ImportIssue::VertexOutOfRange),
        },
{
    let nv = mesh.vertices.len();
    let nl = mesh.lines.len();
    let mut j: usize = 0;
    while j < nl
        invariant
            0 <= j <= nl,
            nl == mesh.lines@.len(),
            nv == mesh.vertices@.len(),
            forall|t: int|
                0 <= t < j ==> (#[trigger] mesh.lines@[t]).0 < nv && mesh.lines@[t].1 < nv,
        decreases nl - j,
    {
        let l = mesh.lines[j];
        if l.0 >= nv || l.1 >= nv {
            return Some(ImportIssue::IndexOutOfRange);
        }
        j = j + 1;
    }
    let mut t: usize = 0;
    while t < nv
        invariant
            0 <= t <= nv,
            nv == mesh.vertices@.len(),
            mesh.wf(),
            forall|s: int| 0 <= s < t ==> vert_bounded(#[trigger] mesh.vertices@[s]),
        decreases nv - t,
    {
        let p = mesh.vertices[t];
        if p.x < -MESH_LIMIT || p.x > MESH_LIMIT || p.y < -MESH_LIMIT || p.y > MESH_LIMIT || p.z
            < -MESH_LIMIT || p.z > MESH_LIMIT {
            return Some(ImportIssue::VertexOutOfRange);
        }
        t = t + 1;
    }
    None
}

/// Processes the primitives of an imported content file. Every supported
/// primitive (a line list or triangle list with a whole index buffer)
/// yields a decoded mesh, passed through for decorative use; every usable
/// line primitive additionally yields a reconstructed cell list. A
/// primitive that cannot be processed fails alone, with a diagnostic,
/// without aborting the rest of the import; a point cloud is skipped with
/// a diagnostic.
pub fn import_primitives(prims: &Vec<Primitive>) -> (r: ImportOutcome)
    ensures
        r.meshes@.len() == r.mesh_sources@.len(),
        forall|t: int|
            0 <= t < r.meshes@.len() ==> {
                let p = #[trigger] r.mesh_sources@[t];
                &&& p < prims@.len()
                &&& prim_supported(prims@[p as int])
                &&& mesh_from_prim(prims@[p as int], r.meshes@[t])
            },
        forall|p: int|
            0 <= p < prims@.len() && prim_supported(#[trigger] prims@[p]) ==> lists_source(
                r.mesh_sources@,
                p,
            ),
        r.boards@.len() == r.board_sources@.len(),
        forall|t: int|
            0 <= t < r.boards@.len() ==> {
                let p = #[trigger] r.board_sources@[t];
                &&& p < prims@.len()
                &&& prim_usable(prims@[p as int])
                &&& board_from_prim(prims@[p as int], r.boards@[t]@)
            },
        forall|p: int|
            0 <= p < prims@.len() && prim_usable(#[trigger] prims@[p]) ==> lists_source(
                r.board_sources@,
                p,
            ),
        forall|t1: int, t2: int|
            0 <= t1 < t2 < r.mesh_sources@.len() ==> #[trigger] r.mesh_sources@[t1]
                < #[trigger] r.mesh_sources@[t2],
        forall|t1: int, t2: int|
            0 <= t1 < t2 < r.board_sources@.len() ==> #[trigger] r.board_sources@[t1]
                < #[trigger] r.board_sources@[t2],
        forall|t: int|
            0 <= t < r.issues@.len() ==> {
                let e = #[trigger] r.issues@[t];
                &&& e.0 < prims@.len()
                &&& (!prim_supported(prims@[e.0 as int]) ==> e.1 == issue_of(prims@[e.0 as int]))
                &&& (prim_supported(prims@[e.0 as int]) ==> (e.1 == ImportIssue::IndexOutOfRange
                    || e.1 == ImportIssue::VertexOutOfRange))
            },
        forall|p: int|
            0 <= p < prims@.len() && !prim_supported(#[trigger] prims@[p]) ==> has_issue_for(
                r.issues@,
                p,
            ),
        forall|p: int|
            0 <= p < prims@.len() && prim_ok_lines(#[trigger] prims@[p]) && !prim_usable(
                prims@[p],
            ) ==> has_issue_for(r.issues@, p),
        forall|t1: int, t2: int|
            0 <= t1 < t2 < r.issues@.len() ==> (#[trigger] r.issues@[t1]).0 < (
            #[trigger] r.issues@[t2]).0,
{
    let n = prims.len();
    let mut boards: Vec<Vec<Cell>> = Vec::new();
    let mut board_sources: Vec<usize> = Vec::new();
    let mut meshes: Vec<Mesh> = Vec::new();
    let mut mesh_sources: Vec<usize> = Vec::new();
    let mut issues: Vec<(usize, ImportIssue)> = Vec::new();
    let mut p: usize = 0;
    while p < n
        invariant
            0 <= p <= n,
            n == prims@.len(),
            meshes@.len() == mesh_sources@.len(),
            forall|t: int|
                0 <= t < meshes@.len() ==> {
                    let q = #[trigger] mesh_sources@[t];
                    &&& q < p
                    &&& prim_supported(prims@[q as int])
                    &&& mesh_from_prim(prims@[q as int], meshes@[t])
                },
            forall|q: int|
                0 <= q < p && prim_supported(#[trigger] prims@[q]) ==> lists_source(
                    mesh_sources@,
                    q,
                ),
            boards@.len() == board_sources@.len(),
            forall|t: int|
                0 <= t < boards@.len() ==> {
                    let q = #[trigger] board_sources@[t];
                    &&& q < p
                    &&& prim_usable(prims@[q as int])
                    &&& board_from_prim(prims@[q as int], boards@[t]@)
                },
            forall|q: int|
                0 <= q < p && prim_usable(#[trigger] prims@[q]) ==> lists_source(
                    board_sources@,
                    q,
                ),
            forall|t1: int, t2: int|
                0 <= t1 < t2 < mesh_sources@.len() ==> #[trigger] mesh_sources@[t1]
                    < #[trigger] mesh_sources@[t2],
            forall|t1: int, t2: int|
                0 <= t1 < t2 < board_sources@.len() ==> #[trigger] board_sources@[t1]
                    < #[trigger] board_sources@[t2],
            forall|t: int|
                0 <= t < issues@.len() ==> {
                    let e = #[trigger] issues@[t];
                    &&& e.0 < p
                    &&& (!prim_supported(prims@[e.0 as int]) ==> e.1 == issue_of(
                        prims@[e.0 as int],
                    ))
                    &&& (prim_supported(prims@[e.0 as int]) ==> (e.1
                        == ImportIssue::IndexOutOfRange || e.1 == ImportIssue::VertexOutOfRange))
                },
            forall|q: int|
                0 <= q < p && !prim_supported(#[trigger] prims@[q]) ==> has_issue_for(
                    issues@,
                    q,
                ),
            forall|q: int|
                0 <= q < p && prim_ok_lines(#[trigger] prims@[q]) && !prim_usable(prims@[q])
                    ==> has_issue_for(issues@, q),
            forall|t1: int, t2: int|
                0 <= t1 < t2 < issues@.len() ==> (#[trigger] issues@[t1]).0 < (
                #[trigger] issues@[t2]).0,
        decreases n - p,
    {
        let prim = &prims[p];
        let ghost pre_meshes = meshes@;
        let ghost pre_srcs = mesh_sources@;
        let ghost pre_issues = issues@;
        let ghost pre_boards = boards@;
        let ghost pre_bsrcs = board_sources@;
        match prim.mode {
            PrimitiveMode::Lines => {
                match decode_u16_pairs(&prim.index_data) {
                    Some(lines) => {
                        let mesh = IndexedLineMesh { vertices: prim.vertices.clone(), lines };
                        proof {
                            assert(mesh.vertices@ == prim.vertices@);
                        }
                        proof {
                            assert(mesh.lines@ == decoded_lines_spec(prim.index_data@));
                        }
                        match check_mesh_usable(&mesh) {
                            None => {
                                let loops = extract_loops(&mesh);
                                let cells = cells_from_loops(&mesh, &loops);
                                proof {
                                    assert(prim_mesh_wf(prims@[p as int])) by {
                                        assert forall|j: int|
                                            0 <= j < decoded_lines_spec(
                                                prims@[p as int].index_data@,
                                            ).len() implies (#[trigger] decoded_lines_spec(
                                            prims@[p as int].index_data@,
                                        )[j]).0 < prims@[p as int].vertices@.len()
                                            && decoded_lines_spec(prims@[p as int].index_data@)[j].1
                                            < prims@[p as int].vertices@.len() by {
                                            assert(decoded_lines_spec(
                                                prims@[p as int].index_data@,
                                            )[j] == mesh.lines@[j]);
                                        }
                                    }
                                    assert(prim_usable(prims@[p as int]));
                                    assert(board_from_prim(prims@[p as int], cells@));
                                }
                                boards.push(cells);
                                board_sources.push(p);
                            },
                            Some(issue) => {
                                proof {
                                    if !mesh.wf() {
                                        assert(exists|j: int|
                                            0 <= j < mesh.lines@.len() && !((
                                            #[trigger] mesh.lines@[j]).0 < mesh.vertices@.len()
                                                && mesh.lines@[j].1 < mesh.vertices@.len()));
                                        let j = choose|j: int|
                                            0 <= j < mesh.lines@.len() && !((
                                            #[trigger] mesh.lines@[j]).0 < mesh.vertices@.len()
                                                && mesh.lines@[j].1 < mesh.vertices@.len());
                                        assert(decoded_lines_spec(prims@[p as int].index_data@)[j]
                                            == mesh.lines@[j]);
                                        assert(!prim_mesh_wf(prims@[p as int]));
                                    } else {
                                        assert(!verts_bounded(prims@[p as int].vertices@));
                                    }
                                    assert(!prim_usable(prims@[p as int]));
                                }
                                issues.push((p, issue));
                            },
                        }
                        meshes.push(
                            Mesh::IndexedLineMesh { vertices: mesh.vertices, lines: mesh.lines },
                        );
                        mesh_sources.push(p);
                    },
                    None => {
                        issues.push((p, ImportIssue::BadIndexData));
                    },
                }
            },
            PrimitiveMode::Triangles => {
                match decode_u16_triples(&prim.index_data) {
                    Some(triangles) => {
                        meshes.push(
                            Mesh::IndexedTriMesh { vertices: prim.vertices.clone(), triangles },
                        );
                        mesh_sources.push(p);
                    },
                    None => {
                        issues.push((p, ImportIssue::BadIndexData));
                    },
                }
            },
            PrimitiveMode::Points => {
                issues.push((p, ImportIssue::PointsSkipped));
            },
            _ => {
                issues.push((p, ImportIssue::UnsupportedMode));
            },
        }
        proof {
            assert forall|t: int| 0 <= t < meshes@.len() implies {
                let q = #[trigger] mesh_sources@[t];
                &&& q < p + 1
                &&& prim_supported(prims@[q as int])
                &&& mesh_from_prim(prims@[q as int], meshes@[t])
            } by {
                if t < pre_meshes.len() {
                    assert(meshes@[t] == pre_meshes[t]);
                    assert(mesh_sources@[t] == pre_srcs[t]);
                }
            }
            assert forall|q: int|
                0 <= q < p + 1 && prim_supported(#[trigger] prims@[q]) implies lists_source(
                mesh_sources@,
                q,
            ) by {
                if q < p {
                    let t = choose|t: int| 0 <= t < pre_srcs.len() && #[trigger] pre_srcs[t] == q;
                    assert(mesh_sources@[t] == q);
                } else {
                    assert(mesh_sources@.last() == q);
                    assert(mesh_sources@[mesh_sources@.len() - 1] == q);
                }
            }
            assert forall|q: int|
                0 <= q < p + 1 && !prim_supported(#[trigger] prims@[q]) implies has_issue_for(
                issues@,
                q,
            ) by {
                if q < p {
                    let t = choose|t: int|
                        0 <= t < pre_issues.len() && (#[trigger] pre_issues[t]).0 == q;
                    assert(issues@[t].0 == q);
                } else {
                    assert(issues@.last().0 == q);
                    assert(issues@[issues@.len() - 1].0 == q);
                }
            }
            assert forall|q: int|
                0 <= q < p + 1 && prim_ok_lines(#[trigger] prims@[q]) && !prim_usable(
                prims@[q],
            ) implies has_issue_for(issues@, q) by {
                if q < p {
                    let t = choose|t: int|
                        0 <= t < pre_issues.len() && (#[trigger] pre_issues[t]).0 == q;
                    assert(issues@[t].0 == q);
                } else {
                    assert(issues@.last().0 == q);
                    assert(issues@[issues@.len() - 1].0 == q);
                }
            }
            assert forall|t1: int, t2: int|
                0 <= t1 < t2 < issues@.len() implies (#[trigger] issues@[t1]).0 < (
            #[trigger] issues@[t2]).0 by {
                assert(issues@[t1] == pre_issues[t1]);
                if t2 < pre_issues.len() {
                    assert(issues@[t2] == pre_issues[t2]);
                } else {
                    assert(issues@[t2].0 == p);
                }
            }
            assert forall|t: int| 0 <= t < boards@.len() implies {
                let q = #[trigger] board_sources@[t];
                &&& q < p + 1
                &&& prim_usable(prims@[q as int])
                &&& board_from_prim(prims@[q as int], boards@[t]@)
            } by {
                if t < pre_boards.len() {
                    assert(boards@[t] == pre_boards[t]);
                    assert(board_sources@[t] == pre_bsrcs[t]);
                }
            }
            assert forall|q: int|
                0 <= q < p + 1 && prim_usable(#[trigger] prims@[q]) implies lists_source(
                board_sources@,
                q,
            ) by {
                if q < p {
                    let t = choose|t: int|
                        0 <= t < pre_bsrcs.len() && #[trigger] pre_bsrcs[t] == q;
                    assert(board_sources@[t] == q);
                } else {
                    assert(board_sources@.last() == q);
                    assert(board_sources@[board_sources@.len() - 1] == q);
                }
            }
            assert forall|t1: int, t2: int|
                0 <= t1 < t2 < mesh_sources@.len() implies #[trigger] mesh_sources@[t1]
                < #[trigger] mesh_sources@[t2] by {
                assert(mesh_sources@[t1] == pre_srcs[t1]);
                if t2 < pre_srcs.len() {
                    assert(mesh_sources@[t2] == pre_srcs[t2]);
                } else {
                    assert(mesh_sources@[t2] == p);
                }
            }
            assert forall|t1: int, t2: int|
                0 <= t1 < t2 < board_sources@.len() implies #[trigger] board_sources@[t1]
                < #[trigger] board_sources@[t2] by {
                assert(board_sources@[t1] == pre_bsrcs[t1]);
                if t2 < pre_bsrcs.len() {
                    assert(board_sources@[t2] == pre_bsrcs[t2]);
                } else {
                    assert(board_sources@[t2] == p);
                }
            }
        }
        p = p + 1;
    }
    ImportOutcome { boards, board_sources, meshes, mesh_sources, issues }
}

} // verus!

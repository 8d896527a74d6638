//! Board synthesis: turns an authored cell set plus a registry of one-way
//! edge overrides into a renderable, navigable board.

use vstd::prelude::*;

use crate::basic_grid::{Edge, GridCell, GridCorner};
use crate::board::{Board, BoardColor, BoardMesh, Cell, Keyframe, Mesh, Path, KEY_END, KEY_START};
use crate::geom::{Point2, Point3};
use crate::num::round_div;
use crate::util::{MinMax, Toggle};

verus! {

/// Direction of a one-way override between two adjacent cells, relative to
/// the argument order of the query.
#[derive(Clone, Copy, PartialEq, Eq, Structural, Debug)]
pub enum EdgeDir {
    AToB,
    BToA,
}

pub open spec fn pairs_distinct(s: Seq<(GridCell, GridCell)>) -> bool {
    forall|i: int, j: int| 0 <= i < j < s.len() ==> #[trigger] s[i] != #[trigger] s[j]
}

fn vec_contains_pair(pairs: &Vec<(GridCell, GridCell)>, p: (GridCell, GridCell)) -> (r: bool)
    ensures
        r == pairs@.contains(p),
{
    let n = pairs.len();
    let mut i: usize = 0;
    while i < n
        invariant
            0 <= i <= n,
            n == pairs@.len(),
            forall|s: int| 0 <= s < i ==> #[trigger] pairs@[s] != p,
        decreases n - i,
    {
        let (a, b) = pairs[i];
        if a == p.0 && b == p.1 {
            proof {
                assert(pairs@[i as int] == p);
            }
            return true;
        }
        i = i + 1;
    }
    proof {
        assert(!pairs@.contains(p));
    }
    false
}

/// The input pairs with every pair equal to `drop` removed, keeping the
/// rest in order.
fn pairs_without(pairs: &Vec<(GridCell, GridCell)>, drop: (GridCell, GridCell)) -> (out: Vec<
    (GridCell, GridCell),
>)
    requires
        pairs_distinct(pairs@),
    ensures
        pairs_distinct(out@),
        forall|p: (GridCell, GridCell)|
            out@.contains(p) <==> (pairs@.contains(p) && p != drop),
        forall|t: int|
            0 <= t < out@.len() ==> pairs@.contains(#[trigger] out@[t]),
{
    let n = pairs.len();
    let mut out: Vec<(GridCell, GridCell)> = Vec::new();
    let mut i: usize = 0;
    while i < n
        invariant
            0 <= i <= n,
            n == pairs@.len(),
            pairs_distinct(pairs@),
            forall|t: int| 0 <= t < out@.len() ==> #[trigger] out@[t] != drop,
            forall|t: int|
                0 <= t < out@.len() ==> exists|s: int|
                    0 <= s < i && pairs@[s] == #[trigger] out@[t],
            forall|s: int|
                0 <= s < i && #[trigger] pairs@[s] != drop ==> out@.contains(pairs@[s]),
            forall|t1: int, t2: int|
                0 <= t1 < t2 < out@.len() ==> #[trigger] out@[t1] != #[trigger] out@[t2],
        decreases n - i,
    {
        let p = pairs[i];
        let ghost pre = out@;
        if !(p.0 == drop.0 && p.1 == drop.1) {
            proof {
                assert forall|t: int| 0 <= t < out@.len() implies #[trigger] out@[t] != p by {
                    let s = choose|s: int| 0 <= s < i && pairs@[s] == out@[t];
                    assert(pairs@[s] != pairs@[i as int]);
                }
            }
            out.push(p);
            proof {
                assert(out@.last() == pairs@[i as int]);
            }
        }
        proof {
            assert forall|s: int|
                0 <= s < i + 1 && #[trigger] pairs@[s] != drop implies out@.contains(
                pairs@[s],
            ) by {
                if s < i {
                    let t = choose|t: int| 0 <= t < pre.len() && pre[t] == pairs@[s];
                    assert(out@[t] == pairs@[s]);
                } else {
                    assert(out@.last() == pairs@[s]);
                }
            }
        }
        i = i + 1;
    }
    proof {
        assert forall|p: (GridCell, GridCell)| out@.contains(p) implies (pairs@.contains(p) && p
            != drop) by {
            let t = choose|t: int| 0 <= t < out@.len() && out@[t] == p;
            let s = choose|s: int| 0 <= s < n && pairs@[s] == out@[t];
        }
    }
    out
}

/// The input pairs with every pair touching `cell` removed.
fn pairs_without_cell(pairs: &Vec<(GridCell, GridCell)>, cell: &GridCell) -> (out: Vec<
    (GridCell, GridCell),
>)
    requires
        pairs_distinct(pairs@),
    ensures
        pairs_distinct(out@),
        forall|p: (GridCell, GridCell)|
            out@.contains(p) <==> (pairs@.contains(p) && p.0 != *cell && p.1 != *cell),
        forall|t: int|
            0 <= t < out@.len() ==> pairs@.contains(#[trigger] out@[t]),
{
    let n = pairs.len();
    let mut out: Vec<(GridCell, GridCell)> = Vec::new();
    let mut i: usize = 0;
    while i < n
        invariant
            0 <= i <= n,
            n == pairs@.len(),
            pairs_distinct(pairs@),
            forall|t: int|
                0 <= t < out@.len() ==> (#[trigger] out@[t]).0 != *cell && out@[t].1 != *cell,
            forall|t: int|
                0 <= t < out@.len() ==> exists|s: int|
                    0 <= s < i && pairs@[s] == #[trigger] out@[t],
            forall|s: int|
                0 <= s < i && (#[trigger] pairs@[s]).0 != *cell && pairs@[s].1 != *cell
                    ==> out@.contains(pairs@[s]),
            forall|t1: int, t2: int|
                0 <= t1 < t2 < out@.len() ==> #[trigger] out@[t1] != #[trigger] out@[t2],
        decreases n - i,
    {
        let p = pairs[i];
        let ghost pre = out@;
        if !(p.0 == *cell || p.1 == *cell) {
            proof {
                assert forall|t: int| 0 <= t < out@.len() implies #[trigger] out@[t] != p by {
                    let s = choose|s: int| 0 <= s < i && pairs@[s] == out@[t];
                    assert(pairs@[s] != pairs@[i as int]);
                }
            }
            out.push(p);
            proof {
                assert(out@.last() == pairs@[i as int]);
            }
        }
        proof {
            assert forall|s: int|
                0 <= s < i + 1 && (#[trigger] pairs@[s]).0 != *cell && pairs@[s].1
                    != *cell implies out@.contains(pairs@[s]) by {
                if s < i {
                    let t = choose|t: int| 0 <= t < pre.len() && pre[t] == pairs@[s];
                    assert(out@[t] == pairs@[s]);
                } else {
                    assert(out@.last() == pairs@[s]);
                }
            }
        }
        i = i + 1;
    }
    proof {
        assert forall|p: (GridCell, GridCell)| out@.contains(p) implies (pairs@.contains(p) && p.0
            != *cell && p.1 != *cell) by {
            let t = choose|t: int| 0 <= t < out@.len() && out@[t] == p;
            let s = choose|s: int| 0 <= s < n && pairs@[s] == out@[t];
        }
    }
    out
}

/// The directed-edge override registry: the set of cell pairs authored as
/// one-way, each recorded in its traversable direction. Transient input of
/// board synthesis; not part of the exported board.
#[derive(Clone, Debug)]
pub struct Edges {
    pub pairs: Vec<(GridCell, GridCell)>,
}

impl Default for Edges {
    /// An empty registry: no overrides.
    fn default() -> (r: Edges)
        ensures
            r.pairs@.len() == 0,
            r.wf(),
    {
        Edges { pairs: Vec::new() }
    }
}

impl Edges {
    /// No pair is recorded twice, in the same or the opposite direction,
    /// and no cell pairs with itself.
    pub open spec fn wf(self) -> bool {
        &&& pairs_distinct(self.pairs@)
        &&& forall|i: int, j: int|
            0 <= i < self.pairs@.len() && 0 <= j < self.pairs@.len() ==> !((
            #[trigger] self.pairs@[i]).0 == (#[trigger] self.pairs@[j]).1 && self.pairs@[i].1
                == self.pairs@[j].0)
    }

    pub open spec fn has_pair(self, from: GridCell, to: GridCell) -> bool {
        self.pairs@.contains((from, to))
    }

    /// Which direction, if any, the registry records for the ordered cell
    /// pair `(a, b)`.
    pub open spec fn dir_spec(self, a: GridCell, b: GridCell) -> Option<EdgeDir> {
        if self.has_pair(a, b) {
            Some(EdgeDir::AToB)
        } else if self.has_pair(b, a) {
            Some(EdgeDir::BToA)
        } else {
            None
        }
    }

    pub fn edge_dir(&self, a: &GridCell, b: &GridCell) -> (r: Option<EdgeDir>)
        ensures
            r == self.dir_spec(*a, *b),
    {
        if vec_contains_pair(&self.pairs, (*a, *b)) {
            Some(EdgeDir::AToB)
        } else if vec_contains_pair(&self.pairs, (*b, *a)) {
            Some(EdgeDir::BToA)
        } else {
            None
        }
    }

    /// Records the directed pair `from -> to` as one-way, replacing an
    /// override of the opposite direction if one was recorded.
    pub fn add_one_way_edge(&mut self, from: GridCell, to: GridCell)
        requires
            old(self).wf(),
            from != to,
        ensures
            final(self).wf(),
            forall|p: (GridCell, GridCell)|
                final(self).pairs@.contains(p) <==> ((old(self).pairs@.contains(p) && p != (
                to,
                from,
            )) || p == (from, to)),
    {
        let mut out = pairs_without(&self.pairs, (to, from));
        let ghost filtered = out@;
        if !vec_contains_pair(&out, (from, to)) {
            out.push((from, to));
        }
        proof {
            let o = out@;
            assert forall|p: (GridCell, GridCell)|
                ((old(self).pairs@.contains(p) && p != (to, from)) || p == (from, to)) implies
                o.contains(p) by {
                if old(self).pairs@.contains(p) && p != (to, from) {
                    assert(filtered.contains(p));
                    let t = choose|t: int| 0 <= t < filtered.len() && filtered[t] == p;
                    assert(o[t] == p);
                } else {
                    if filtered.contains(p) {
                        let t = choose|t: int| 0 <= t < filtered.len() && filtered[t] == p;
                        assert(o[t] == p);
                    } else {
                        assert(o.last() == p);
                    }
                }
            }
            assert forall|p: (GridCell, GridCell)| o.contains(p) implies ((old(
                self,
            ).pairs@.contains(p) && p != (to, from)) || p == (from, to)) by {
                let t = choose|t: int| 0 <= t < o.len() && o[t] == p;
            }
            assert forall|i: int, j: int| 0 <= i < j < o.len() implies #[trigger] o[i]
                != #[trigger] o[j] by {}
            assert forall|i: int, j: int|
                0 <= i < o.len() && 0 <= j < o.len() implies !((#[trigger] o[i]).0 == (
            #[trigger] o[j]).1 && o[i].1 == o[j].0) by {
                assert(o.contains(o[i]));
                assert(o.contains(o[j]));
                if o[i] == (from, to) {
                    if o[j] == (from, to) {
                        assert(from != to);
                    } else {
                        assert(old(self).pairs@.contains(o[j]) && o[j] != (to, from));
                    }
                } else {
                    assert(old(self).pairs@.contains(o[i]) && o[i] != (to, from));
                    if o[j] == (from, to) {
                    } else {
                        assert(old(self).pairs@.contains(o[j]));
                        let s1 = choose|s: int|
                            0 <= s < old(self).pairs@.len() && old(self).pairs@[s] == o[i];
                        let s2 = choose|s: int|
                            0 <= s < old(self).pairs@.len() && old(self).pairs@[s] == o[j];
                    }
                }
            }
        }
        self.pairs = out;
    }

    /// Removes every override that touches `cell`, in either position.
    pub fn remove_cell(&mut self, cell: &GridCell)
        requires
            old(self).wf(),
        ensures
            final(self).wf(),
            forall|p: (GridCell, GridCell)|
                final(self).pairs@.contains(p) <==> (old(self).pairs@.contains(p) && p.0 != *cell
                    && p.1 != *cell),
    {
        let out = pairs_without_cell(&self.pairs, cell);
        proof {
            let o = out@;
            assert forall|i: int, j: int|
                0 <= i < o.len() && 0 <= j < o.len() implies !((#[trigger] o[i]).0 == (
            #[trigger] o[j]).1 && o[i].1 == o[j].0) by {
                assert(o.contains(o[i]));
                assert(o.contains(o[j]));
                let s1 = choose|s: int|
                    0 <= s < old(self).pairs@.len() && old(self).pairs@[s] == o[i];
                let s2 = choose|s: int|
                    0 <= s < old(self).pairs@.len() && old(self).pairs@[s] == o[j];
            }
        }
        self.pairs = out;
    }
}

pub open spec fn cells_in_limit(cells: Seq<GridCell>) -> bool {
    forall|i: int| 0 <= i < cells.len() ==> (#[trigger] cells[i]).in_limit()
}

pub open spec fn cells_distinct(cells: Seq<GridCell>) -> bool {
    forall|i: int, j: int| 0 <= i < j < cells.len() ==> #[trigger] cells[i] != #[trigger] cells[j]
}

/// Appends `x` unless it is already present: order-preserving
/// deduplication, so output order is a pure function of input order.
pub open spec fn push_unique<T>(s: Seq<T>, x: T) -> Seq<T> {
    if s.contains(x) {
        s
    } else {
        s.push(x)
    }
}

/// Canonical form of an undirected wall edge: the lower corner first, so
/// the same physical edge produced from either adjacent cell compares
/// equal.
pub open spec fn canon_edge(e: Edge<GridCorner>) -> Edge<GridCorner> {
    if e.a.le_spec(e.b) {
        e
    } else {
        e.reverse_spec()
    }
}

/// One step of the boundary scan: the (walls, directed) accumulator after
/// cell `c` has looked at its `k`-th geometric neighbor. A neighbor outside
/// the authored set, or an authored neighbor without an override, adds a
/// canonicalized boundary wall; an override adds the shared edge to the
/// directed list, oriented from the override's source toward its target.
pub open spec fn scan_step(
    cells: Seq<GridCell>,
    edges: Edges,
    acc: (Seq<Edge<GridCorner>>, Seq<Edge<GridCorner>>),
    c: GridCell,
    k: int,
) -> (Seq<Edge<GridCorner>>, Seq<Edge<GridCorner>>) {
    let nb = c.neighbor_spec(k);
    let e = c.shared_edge_spec(nb);
    if cells.contains(nb) {
        match edges.dir_spec(c, nb) {
            Some(EdgeDir::AToB) => (acc.0, push_unique(acc.1, e.reverse_spec())),
            Some(EdgeDir::BToA) => (acc.0, push_unique(acc.1, e)),
            None => (push_unique(acc.0, canon_edge(e)), acc.1),
        }
    } else {
        (push_unique(acc.0, canon_edge(e)), acc.1)
    }
}

/// The accumulator after cell `c` has looked at its first `k` neighbors.
pub open spec fn scan_cell(
    cells: Seq<GridCell>,
    edges: Edges,
    acc: (Seq<Edge<GridCorner>>, Seq<Edge<GridCorner>>),
    c: GridCell,
    k: int,
) -> (Seq<Edge<GridCorner>>, Seq<Edge<GridCorner>>)
    decreases k,
{
    if k <= 0 {
        acc
    } else {
        scan_step(cells, edges, scan_cell(cells, edges, acc, c, k - 1), c, k - 1)
    }
}

/// The accumulator after the first `i` cells have been scanned in order.
pub open spec fn scan_cells(cells: Seq<GridCell>, edges: Edges, i: int) -> (
    Seq<Edge<GridCorner>>,
    Seq<Edge<GridCorner>>,
)
    decreases i,
{
    if i <= 0 {
        (Seq::<Edge<GridCorner>>::empty(), Seq::<Edge<GridCorner>>::empty())
    } else {
        scan_cell(
            cells,
            edges,
            scan_cells(cells, edges, i - 1),
            cells[i - 1],
            cells[i - 1].side_count(),
        )
    }
}

/// The deduplicated boundary walls of the authored cell set, in scan
/// order.
pub open spec fn walls_spec(cells: Seq<GridCell>, edges: Edges) -> Seq<Edge<GridCorner>> {
    scan_cells(cells, edges, cells.len() as int).0
}

/// The deduplicated directed (one-way) edges, in scan order, each oriented
/// from its override's source cell toward its target cell.
pub open spec fn directed_spec(cells: Seq<GridCell>, edges: Edges) -> Seq<Edge<GridCorner>> {
    scan_cells(cells, edges, cells.len() as int).1
}

fn vec_contains_cell(v: &Vec<GridCell>, c: &GridCell) -> (r: bool)
    ensures
        r == v@.contains(*c),
{
    let n = v.len();
    let mut i: usize = 0;
    while i < n
        invariant
            0 <= i <= n,
            n == v@.len(),
            forall|s: int| 0 <= s < i ==> #[trigger] v@[s] != *c,
        decreases n - i,
    {
        if v[i] == *c {
            proof {
                assert(v@[i as int] == *c);
            }
            return true;
        }
        i = i + 1;
    }
    proof {
        assert(!v@.contains(*c));
    }
    false
}

fn vec_contains_edge(v: &Vec<Edge<GridCorner>>, e: &Edge<GridCorner>) -> (r: bool)
    ensures
        r == v@.contains(*e),
{
    let n = v.len();
    let mut i: usize = 0;
    while i < n
        invariant
            0 <= i <= n,
            n == v@.len(),
            forall|s: int| 0 <= s < i ==> #[trigger] v@[s] != *e,
        decreases n - i,
    {
        let w = v[i];
        if w.a == e.a && w.b == e.b {
            proof {
                assert(v@[i as int] == *e);
            }
            return true;
        }
        i = i + 1;
    }
    proof {
        assert(!v@.contains(*e));
    }
    false
}

fn push_unique_edge(v: &mut Vec<Edge<GridCorner>>, e: Edge<GridCorner>)
    ensures
        final(v)@ == push_unique(old(v)@, e),
{
    if !vec_contains_edge(v, &e) {
        v.push(e);
    }
}

/// The boundary scan of board synthesis: for every authored cell and every
/// geometric neighbor, classifies the shared edge as a boundary wall or a
/// directed (one-way) edge, deduplicating both lists in scan order.
fn scan_board_edges(cells: &Vec<GridCell>, edges: &Edges) -> (r: (
    Vec<Edge<GridCorner>>,
    Vec<Edge<GridCorner>>,
))
    requires
        cells_in_limit(cells@),
    ensures
        r.0@ == walls_spec(cells@, *edges),
        r.1@ == directed_spec(cells@, *edges),
        edge_corners_in_limit(r.0@),
        edge_corners_in_limit(r.1@),
{
    let n = cells.len();
    let mut walls: Vec<Edge<GridCorner>> = Vec::new();
    let mut directed: Vec<Edge<GridCorner>> = Vec::new();
    let mut i: usize = 0;
    proof {
        assert(walls@ =~= scan_cells(cells@, *edges, 0).0);
        assert(directed@ =~= scan_cells(cells@, *edges, 0).1);
    }
    while i < n
        invariant
            0 <= i <= n,
            n == cells@.len(),
            cells_in_limit(cells@),
            walls@ == scan_cells(cells@, *edges, i as int).0,
            directed@ == scan_cells(cells@, *edges, i as int).1,
            edge_corners_in_limit(walls@),
            edge_corners_in_limit(directed@),
        decreases n - i,
    {
        let c = cells[i];
        let ns = c.neighbors();
        let m = ns.len();
        let ghost acc0 = scan_cells(cells@, *edges, i as int);
        let mut k: usize = 0;
        while k < m
            invariant
                0 <= k <= m,
                m == c.side_count(),
                c.in_limit(),
                cells_in_limit(cells@),
                ns@.len() == m,
                forall|t: int| 0 <= t < m ==> ns@[t] == c.neighbor_spec(t),
                forall|t: int| 0 <= t < m ==> c.is_neighbor(#[trigger] ns@[t]),
                walls@ == scan_cell(cells@, *edges, acc0, c, k as int).0,
                directed@ == scan_cell(cells@, *edges, acc0, c, k as int).1,
                edge_corners_in_limit(walls@),
                edge_corners_in_limit(directed@),
            decreases m - k,
        {
            let nb = ns[k];
            let e = c.neighboring_edge(&nb);
            if vec_contains_cell(cells, &nb) {
                match edges.edge_dir(&c, &nb) {
                    Some(EdgeDir::AToB) => {
                        let ghost pre = directed@;
                        push_unique_edge(&mut directed, e.reverse());
                        proof {
                            lemma_shared_edge_in_limit(c, nb);
                            lemma_push_unique_limit(pre, e.reverse_spec());
                        }
                    },
                    Some(EdgeDir::BToA) => {
                        let ghost pre = directed@;
                        push_unique_edge(&mut directed, e);
                        proof {
                            lemma_shared_edge_in_limit(c, nb);
                            lemma_push_unique_limit(pre, e);
                        }
                    },
                    None => {
                        let (lo, hi) = e.a.min_max(e.b);
                        proof {
                            assert((Edge { a: lo, b: hi }) == canon_edge(e));
                        }
                        let ghost pre = walls@;
                        push_unique_edge(&mut walls, Edge { a: lo, b: hi });
                        proof {
                            lemma_shared_edge_in_limit(c, nb);
                            lemma_push_unique_limit(pre, canon_edge(e));
                        }
                    },
                }
            } else {
                let (lo, hi) = e.a.min_max(e.b);
                proof {
                    assert((Edge { a: lo, b: hi }) == canon_edge(e));
                }
                let ghost pre = walls@;
                push_unique_edge(&mut walls, Edge { a: lo, b: hi });
                proof {
                    lemma_shared_edge_in_limit(c, nb);
                    lemma_push_unique_limit(pre, canon_edge(e));
                }
            }
            k = k + 1;
            proof {
                assert(scan_cell(cells@, *edges, acc0, c, k as int) == scan_step(
                    cells@,
                    *edges,
                    scan_cell(cells@, *edges, acc0, c, k - 1),
                    c,
                    k - 1,
                ));
            }
        }
        i = i + 1;
        proof {
            assert(scan_cells(cells@, *edges, i as int) == scan_cell(
                cells@,
                *edges,
                scan_cells(cells@, *edges, i - 1),
                cells@[i - 1],
                cells@[i - 1].side_count(),
            ));
        }
    }
    (walls, directed)
}

pub open spec fn distinct_seq<T>(s: Seq<T>) -> bool {
    forall|i: int, j: int| 0 <= i < j < s.len() ==> #[trigger] s[i] != #[trigger] s[j]
}

/// What `push_unique` does: membership grows by exactly `x`, distinctness
/// and provenance are preserved.
pub proof fn lemma_push_unique<T>(s: Seq<T>, x: T)
    ensures
        forall|y: T| push_unique(s, x).contains(y) <==> (s.contains(y) || y == x),
        distinct_seq(s) ==> distinct_seq(push_unique(s, x)),
        forall|t: int|
            0 <= t < push_unique(s, x).len() ==> (s.contains(#[trigger] push_unique(s, x)[t])
                || push_unique(s, x)[t] == x),
        s.len() <= push_unique(s, x).len(),
        forall|t: int| 0 <= t < s.len() ==> #[trigger] push_unique(s, x)[t] == s[t],
{
    let r = push_unique(s, x);
    if s.contains(x) {
    } else {
        assert(r == s.push(x));
        assert(r[s.len() as int] == x);
        assert forall|y: T| r.contains(y) implies (s.contains(y) || y == x) by {
            let t = choose|t: int| 0 <= t < r.len() && r[t] == y;
            if t < s.len() {
                assert(s[t] == y);
            }
        }
        assert forall|y: T| (s.contains(y) || y == x) implies r.contains(y) by {
            if s.contains(y) {
                let t = choose|t: int| 0 <= t < s.len() && s[t] == y;
                assert(r[t] == y);
            } else {
                assert(r[s.len() as int] == y);
            }
        }
        if distinct_seq(s) {
            assert forall|i: int, j: int| 0 <= i < j < r.len() implies #[trigger] r[i]
                != #[trigger] r[j] by {
                if j < s.len() {
                } else {
                    assert(r[j] == x);
                    assert(s[i] == r[i]);
                    assert(s.contains(s[i]));
                }
            }
        }
    }
}

/// Adding an in-range edge to an in-range list keeps the list in range.
pub proof fn lemma_push_unique_limit(pre: Seq<Edge<GridCorner>>, e: Edge<GridCorner>)
    requires
        edge_corners_in_limit(pre),
        e.a.in_limit(),
        e.b.in_limit(),
    ensures
        edge_corners_in_limit(push_unique(pre, e)),
{
    let post = push_unique(pre, e);
    assert forall|j: int| 0 <= j < post.len() implies (#[trigger] post[j]).a.in_limit()
        && post[j].b.in_limit() by {
        if j < pre.len() {
            assert(post[j] == pre[j]);
        } else {
            assert(post == pre.push(e));
            assert(post[j] == e);
        }
    }
}

/// The distinct corners used by the wall edges, in first-occurrence order:
/// the line mesh's vertex buffer.
pub open spec fn corner_fold(walls: Seq<Edge<GridCorner>>, i: int) -> Seq<GridCorner>
    decreases i,
{
    if i <= 0 {
        Seq::<GridCorner>::empty()
    } else {
        push_unique(push_unique(corner_fold(walls, i - 1), walls[i - 1].a), walls[i - 1].b)
    }
}

/// The corner fold is a duplicate-free cover of the wall corners.
pub proof fn lemma_corner_fold(walls: Seq<Edge<GridCorner>>, i: int)
    requires
        0 <= i <= walls.len(),
    ensures
        distinct_seq(corner_fold(walls, i)),
        forall|j: int|
            0 <= j < i ==> corner_fold(walls, i).contains((#[trigger] walls[j]).a) && corner_fold(
                walls,
                i,
            ).contains(walls[j].b),
        forall|t: int|
            0 <= t < corner_fold(walls, i).len() ==> exists|j: int|
                0 <= j < i && (#[trigger] corner_fold(walls, i)[t] == walls[j].a || corner_fold(
                    walls,
                    i,
                )[t] == walls[j].b),
    decreases i,
{
    if i <= 0 {
    } else {
        lemma_corner_fold(walls, i - 1);
        let f0 = corner_fold(walls, i - 1);
        let f1 = push_unique(f0, walls[i - 1].a);
        let f2 = push_unique(f1, walls[i - 1].b);
        lemma_push_unique(f0, walls[i - 1].a);
        lemma_push_unique(f1, walls[i - 1].b);
        assert forall|t: int| 0 <= t < f2.len() implies exists|j: int|
            0 <= j < i && (#[trigger] f2[t] == walls[j].a || f2[t] == walls[j].b) by {
            if f0.contains(f2[t]) {
                let t0 = choose|t0: int| 0 <= t0 < f0.len() && f0[t0] == f2[t];
                let j = choose|j: int|
                    0 <= j < i - 1 && (f0[t0] == walls[j].a || f0[t0] == walls[j].b);
                assert(f2[t] == walls[j].a || f2[t] == walls[j].b);
            } else {
                assert(f2[t] == walls[i - 1].a || f2[t] == walls[i - 1].b);
            }
        }
    }
}

fn vec_contains_corner(v: &Vec<GridCorner>, c: &GridCorner) -> (r: bool)
    ensures
        r == v@.contains(*c),
{
    let n = v.len();
    let mut i: usize = 0;
    while i < n
        invariant
            0 <= i <= n,
            n == v@.len(),
            forall|s: int| 0 <= s < i ==> #[trigger] v@[s] != *c,
        decreases n - i,
    {
        if v[i] == *c {
            proof {
                assert(v@[i as int] == *c);
            }
            return true;
        }
        i = i + 1;
    }
    proof {
        assert(!v@.contains(*c));
    }
    false
}

fn push_unique_corner(v: &mut Vec<GridCorner>, c: GridCorner)
    ensures
        final(v)@ == push_unique(old(v)@, c),
{
    if !vec_contains_corner(v, &c) {
        v.push(c);
    }
}

/// First index holding `c`; on a distinct vector, the only one.
fn find_corner_index(v: &Vec<GridCorner>, c: &GridCorner) -> (r: usize)
    requires
        v@.contains(*c),
    ensures
        r < v@.len() && v@[r as int] == *c,
{
    let n = v.len();
    let mut i: usize = 0;
    while i < n
        invariant
            0 <= i <= n,
            n == v@.len(),
            v@.contains(*c),
            forall|s: int| 0 <= s < i ==> #[trigger] v@[s] != *c,
        decreases n - i,
    {
        if v[i] == *c {
            return i;
        }
        i = i + 1;
    }
    proof {
        let t = choose|t: int| 0 <= t < v@.len() && v@[t] == *c;
        assert(false);
    }
    0
}

/// A corner lifted to a mesh vertex at height zero.
pub open spec fn corner_vert_spec(c: GridCorner) -> Point3 {
    Point3 { x: c.position_spec().x, y: c.position_spec().y, z: 0 }
}

pub open spec fn edge_corners_in_limit(s: Seq<Edge<GridCorner>>) -> bool {
    forall|j: int|
        0 <= j < s.len() ==> (#[trigger] s[j]).a.in_limit() && s[j].b.in_limit()
}

/// What the boundary-wall line mesh must hold: one vertex per distinct
/// wall corner, in first-occurrence order, and one index pair per wall
/// edge, each index naming exactly its edge's corner.
pub open spec fn line_mesh_matches(walls: Seq<Edge<GridCorner>>, m: Mesh) -> bool {
    let corners = corner_fold(walls, walls.len() as int);
    &&& m is IndexedLineMesh
    &&& (m matches Mesh::IndexedLineMesh { vertices, lines } ==> {
        &&& vertices@.len() == corners.len()
        &&& (forall|t: int|
            0 <= t < corners.len() ==> #[trigger] vertices@[t] == corner_vert_spec(corners[t]))
        &&& lines@.len() == walls.len()
        &&& (forall|j: int|
            0 <= j < walls.len() ==> {
                let p = #[trigger] lines@[j];
                &&& p.0 < corners.len()
                &&& p.1 < corners.len()
                &&& corners[p.0 as int] == walls[j].a
                &&& corners[p.1 as int] == walls[j].b
            })
    })
}

/// Builds the boundary-wall line mesh: the vertex buffer is the
/// deduplicated corner positions, and each wall edge becomes an index
/// pair.
fn build_line_mesh(walls: &Vec<Edge<GridCorner>>) -> (m: Mesh)
    requires
        edge_corners_in_limit(walls@),
    ensures
        line_mesh_matches(walls@, m),
{
    let n = walls.len();
    let mut corners: Vec<GridCorner> = Vec::new();
    let mut i: usize = 0;
    proof {
        assert(corners@ =~= corner_fold(walls@, 0));
    }
    while i < n
        invariant
            0 <= i <= n,
            n == walls@.len(),
            corners@ == corner_fold(walls@, i as int),
        decreases n - i,
    {
        let w = walls[i];
        push_unique_corner(&mut corners, w.a);
        push_unique_corner(&mut corners, w.b);
        i = i + 1;
    }
    proof {
        lemma_corner_fold(walls@, n as int);
        assert forall|t: int| 0 <= t < corners@.len() implies (#[trigger] corners@[t]).in_limit() by {
            let j = choose|j: int|
                0 <= j < n && (corners@[t] == walls@[j].a || corners@[t] == walls@[j].b);
        }
    }
    let m = corners.len();
    let mut vertices: Vec<Point3> = Vec::new();
    let mut t: usize = 0;
    while t < m
        invariant
            0 <= t <= m,
            m == corners@.len(),
            forall|s: int| 0 <= s < m ==> (#[trigger] corners@[s]).in_limit(),
            vertices@.len() == t,
            forall|s: int| 0 <= s < t ==> #[trigger] vertices@[s] == corner_vert_spec(corners@[s]),
        decreases m - t,
    {
        let p = corners[t].position();
        vertices.push(Point3 { x: p.x, y: p.y, z: 0 });
        t = t + 1;
    }
    let mut lines: Vec<(usize, usize)> = Vec::new();
    let mut j: usize = 0;
    while j < n
        invariant
            0 <= j <= n,
            n == walls@.len(),
            corners@ == corner_fold(walls@, n as int),
            forall|s: int|
                0 <= s < n ==> corners@.contains((#[trigger] walls@[s]).a) && corners@.contains(
                    walls@[s].b,
                ),
            lines@.len() == j,
            forall|s: int|
                0 <= s < j ==> {
                    let p = #[trigger] lines@[s];
                    &&& p.0 < corners@.len()
                    &&& p.1 < corners@.len()
                    &&& corners@[p.0 as int] == walls@[s].a
                    &&& corners@[p.1 as int] == walls@[s].b
                },
        decreases n - j,
    {
        let w = walls[j];
        let ia = find_corner_index(&corners, &w.a);
        let ib = find_corner_index(&corners, &w.b);
        lines.push((ia, ib));
        j = j + 1;
    }
    Mesh::IndexedLineMesh { vertices, lines }
}

/// A vertex of the directional-arrow triangle mesh: either a corner of a
/// directed edge, or the synthetic tip of the isoceles triangle whose base
/// is the edge between the two given corners. Tips are identified by their
/// corner pair, so the same directed edge never produces two tips.
#[derive(Clone, Copy, PartialEq, Eq, Structural, Debug)]
pub enum TriVert {
    Corner(GridCorner),
    Tip(GridCorner, GridCorner),
}

/// Every corner position a grid-limited corner can take fits well within
/// the bounds that the tip arithmetic and the containment test need.
pub proof fn lemma_corner_pos_bounded(c: GridCorner)
    requires
        c.in_limit(),
    ensures
        -4_000_000_000_000_000 <= c.position_spec().x <= 4_000_000_000_000_000,
        -4_000_000_000_000_000 <= c.position_spec().y <= 4_000_000_000_000_000,
        c.position_spec().bounded(),
{
}

/// Where the arrow tip of a directed edge sits: the edge midpoint,
/// displaced along the perpendicular of the corner-to-corner direction by
/// `off` thousandths of the edge vector, rounded to the nearest coordinate
/// step.
pub open spec fn tip_point_spec(a: GridCorner, b: GridCorner, off: i64) -> Point2 {
    let pa = a.position_spec();
    let pb = b.position_spec();
    Point2 {
        x: round_div(1000 * (pa.x + pb.x) - 2 * ((pb.y - pa.y) * off), 2000) as i64,
        y: round_div(1000 * (pa.y + pb.y) + 2 * ((pb.x - pa.x) * off), 2000) as i64,
    }
}

fn tip_point(a: &GridCorner, b: &GridCorner, off: i64) -> (r: Point2)
    requires
        a.in_limit(),
        b.in_limit(),
        -1000 <= off <= 1000,
    ensures
        r == tip_point_spec(*a, *b, off),
{
    let pa = a.position();
    let pb = b.position();
    proof {
        lemma_corner_pos_bounded(*a);
        lemma_corner_pos_bounded(*b);
    }
    let pax = pa.x as i128;
    let pay = pa.y as i128;
    let pbx = pb.x as i128;
    let pby = pb.y as i128;
    let offw = off as i128;
    proof {
        assert((pby - pay) * offw <= 0x10_0000_0000_0000_0000_0000
            && (pby - pay) * offw >= -0x10_0000_0000_0000_0000_0000) by (nonlinear_arith)
            requires
                -8_000_000_000_000_000 <= pby - pay <= 8_000_000_000_000_000,
                -1000 <= offw <= 1000,
        ;
        assert((pbx - pax) * offw <= 0x10_0000_0000_0000_0000_0000
            && (pbx - pax) * offw >= -0x10_0000_0000_0000_0000_0000) by (nonlinear_arith)
            requires
                -8_000_000_000_000_000 <= pbx - pax <= 8_000_000_000_000_000,
                -1000 <= offw <= 1000,
        ;
    }
    let xn = 1000 * (pax + pbx) - 2 * ((pby - pay) * offw);
    let yn = 1000 * (pay + pby) + 2 * ((pbx - pax) * offw);
    proof {
        crate::num::lemma_round_div_near(xn as int, 2000);
        crate::num::lemma_round_div_near(yn as int, 2000);
    }
    let x = crate::num::round_div_i128(xn, 2000);
    let y = crate::num::round_div_i128(yn, 2000);
    Point2 { x: x as i64, y: y as i64 }
}

/// The distinct triangle-mesh vertices needed by the directed edges, in
/// first-occurrence order: both corners and the tip of every edge.
pub open spec fn trivert_fold(directed: Seq<Edge<GridCorner>>, i: int) -> Seq<TriVert>
    decreases i,
{
    if i <= 0 {
        Seq::<TriVert>::empty()
    } else {
        let f = trivert_fold(directed, i - 1);
        let e = directed[i - 1];
        push_unique(
            push_unique(push_unique(f, TriVert::Corner(e.a)), TriVert::Corner(e.b)),
            TriVert::Tip(e.a, e.b),
        )
    }
}

/// The triangle-vertex fold is a duplicate-free cover of the corners and
/// tips of the directed edges.
pub proof fn lemma_trivert_fold(directed: Seq<Edge<GridCorner>>, i: int)
    requires
        0 <= i <= directed.len(),
    ensures
        distinct_seq(trivert_fold(directed, i)),
        forall|j: int|
            0 <= j < i ==> {
                let e = #[trigger] directed[j];
                &&& trivert_fold(directed, i).contains(TriVert::Corner(e.a))
                &&& trivert_fold(directed, i).contains(TriVert::Corner(e.b))
                &&& trivert_fold(directed, i).contains(TriVert::Tip(e.a, e.b))
            },
    decreases i,
{
    if i <= 0 {
    } else {
        lemma_trivert_fold(directed, i - 1);
        let f0 = trivert_fold(directed, i - 1);
        let e = directed[i - 1];
        let f1 = push_unique(f0, TriVert::Corner(e.a));
        let f2 = push_unique(f1, TriVert::Corner(e.b));
        lemma_push_unique(f0, TriVert::Corner(e.a));
        lemma_push_unique(f1, TriVert::Corner(e.b));
        lemma_push_unique(f2, TriVert::Tip(e.a, e.b));
    }
}

fn vec_contains_trivert(v: &Vec<TriVert>, c: &TriVert) -> (r: bool)
    ensures
        r == v@.contains(*c),
{
    let n = v.len();
    let mut i: usize = 0;
    while i < n
        invariant
            0 <= i <= n,
            n == v@.len(),
            forall|s: int| 0 <= s < i ==> #[trigger] v@[s] != *c,
        decreases n - i,
    {
        if v[i] == *c {
            proof {
                assert(v@[i as int] == *c);
            }
            return true;
        }
        i = i + 1;
    }
    proof {
        assert(!v@.contains(*c));
    }
    false
}

fn push_unique_trivert(v: &mut Vec<TriVert>, c: TriVert)
    ensures
        final(v)@ == push_unique(old(v)@, c),
{
    if !vec_contains_trivert(v, &c) {
        v.push(c);
    }
}

fn find_trivert_index(v: &Vec<TriVert>, c: &TriVert) -> (r: usize)
    requires
        v@.contains(*c),
    ensures
        r < v@.len() && v@[r as int] == *c,
{
    let n = v.len();
    let mut i: usize = 0;
    while i < n
        invariant
            0 <= i <= n,
            n == v@.len(),
            v@.contains(*c),
            forall|s: int| 0 <= s < i ==> #[trigger] v@[s] != *c,
        decreases n - i,
    {
        if v[i] == *c {
            return i;
        }
        i = i + 1;
    }
    proof {
        let t = choose|t: int| 0 <= t < v@.len() && v@[t] == *c;
        assert(false);
    }
    0
}

/// World position of a triangle-mesh vertex.
pub open spec fn trivert_point_spec(tv: TriVert, off: i64) -> Point3 {
    match tv {
        TriVert::Corner(c) => corner_vert_spec(c),
        TriVert::Tip(a, b) => {
            let p = tip_point_spec(a, b, off);
            Point3 { x: p.x, y: p.y, z: 0 }
        },
    }
}

/// What the directional-arrow triangle mesh must hold: one vertex per
/// distinct corner or tip, in first-occurrence order, and one triangle per
/// directed edge, its three indices naming that edge's two corners and its
/// tip.
pub open spec fn tri_mesh_matches(directed: Seq<Edge<GridCorner>>, off: i64, m: Mesh) -> bool {
    let tvs = trivert_fold(directed, directed.len() as int);
    &&& m is IndexedTriMesh
    &&& (m matches Mesh::IndexedTriMesh { vertices, triangles } ==> {
        &&& vertices@.len() == tvs.len()
        &&& (forall|t: int|
            0 <= t < tvs.len() ==> #[trigger] vertices@[t] == trivert_point_spec(tvs[t], off))
        &&& triangles@.len() == directed.len()
        &&& (forall|j: int|
            0 <= j < directed.len() ==> {
                let tr = #[trigger] triangles@[j];
                &&& tr.0 < tvs.len()
                &&& tr.1 < tvs.len()
                &&& tr.2 < tvs.len()
                &&& tvs[tr.0 as int] == TriVert::Corner(directed[j].a)
                &&& tvs[tr.1 as int] == TriVert::Corner(directed[j].b)
                &&& tvs[tr.2 as int] == TriVert::Tip(directed[j].a, directed[j].b)
            })
    })
}

/// Builds the directional-arrow triangle mesh: one triangle per directed
/// edge, from its two corners to its displaced tip, with vertices
/// deduplicated by corner-pair identity.
fn build_tri_mesh(directed: &Vec<Edge<GridCorner>>, off: i64) -> (m: Mesh)
    requires
        edge_corners_in_limit(directed@),
        -1000 <= off <= 1000,
    ensures
        tri_mesh_matches(directed@, off, m),
{
    let n = directed.len();
    let mut tvs: Vec<TriVert> = Vec::new();
    let mut i: usize = 0;
    proof {
        assert(tvs@ =~= trivert_fold(directed@, 0));
    }
    while i < n
        invariant
            0 <= i <= n,
            n == directed@.len(),
            edge_corners_in_limit(directed@),
            tvs@ == trivert_fold(directed@, i as int),
            forall|s: int|
                0 <= s < tvs@.len() ==> match #[trigger] tvs@[s] {
                    TriVert::Corner(c) => c.in_limit(),
                    TriVert::Tip(a, b) => a.in_limit() && b.in_limit(),
                },
        decreases n - i,
    {
        let e = directed[i];
        let ghost pre0 = tvs@;
        push_unique_trivert(&mut tvs, TriVert::Corner(e.a));
        let ghost pre1 = tvs@;
        push_unique_trivert(&mut tvs, TriVert::Corner(e.b));
        let ghost pre2 = tvs@;
        push_unique_trivert(&mut tvs, TriVert::Tip(e.a, e.b));
        proof {
            assert(directed@[i as int].a.in_limit() && directed@[i as int].b.in_limit());
            assert forall|s: int| 0 <= s < tvs@.len() implies match #[trigger] tvs@[s] {
                TriVert::Corner(c) => c.in_limit(),
                TriVert::Tip(a, b) => a.in_limit() && b.in_limit(),
            } by {
                if s < pre0.len() {
                    assert(tvs@[s] == pre0[s]);
                } else if s < pre1.len() {
                    assert(tvs@[s] == pre1[s]);
                    assert(pre1[s] == TriVert::Corner(e.a));
                } else if s < pre2.len() {
                    assert(tvs@[s] == pre2[s]);
                    assert(pre2[s] == TriVert::Corner(e.b));
                } else {
                    assert(tvs@[s] == TriVert::Tip(e.a, e.b));
                }
            }
        }
        i = i + 1;
    }
    proof {
        lemma_trivert_fold(directed@, n as int);
    }
    let m = tvs.len();
    let mut vertices: Vec<Point3> = Vec::new();
    let mut t: usize = 0;
    while t < m
        invariant
            0 <= t <= m,
            m == tvs@.len(),
            -1000 <= off <= 1000,
            forall|s: int|
                0 <= s < m ==> match #[trigger] tvs@[s] {
                    TriVert::Corner(c) => c.in_limit(),
                    TriVert::Tip(a, b) => a.in_limit() && b.in_limit(),
                },
            vertices@.len() == t,
            forall|s: int|
                0 <= s < t ==> #[trigger] vertices@[s] == trivert_point_spec(tvs@[s], off),
        decreases m - t,
    {
        let v = tvs[t];
        let p3 = match v {
            TriVert::Corner(c) => {
                let p = c.position();
                Point3 { x: p.x, y: p.y, z: 0 }
            },
            TriVert::Tip(a, b) => {
                let p = tip_point(&a, &b, off);
                Point3 { x: p.x, y: p.y, z: 0 }
            },
        };
        vertices.push(p3);
        t = t + 1;
    }
    let mut triangles: Vec<(usize, usize, usize)> = Vec::new();
    let mut j: usize = 0;
    while j < n
        invariant
            0 <= j <= n,
            n == directed@.len(),
            tvs@ == trivert_fold(directed@, n as int),
            forall|s: int|
                0 <= s < n ==> {
                    let e = #[trigger] directed@[s];
                    &&& tvs@.contains(TriVert::Corner(e.a))
                    &&& tvs@.contains(TriVert::Corner(e.b))
                    &&& tvs@.contains(TriVert::Tip(e.a, e.b))
                },
            triangles@.len() == j,
            forall|s: int|
                0 <= s < j ==> {
                    let tr = #[trigger] triangles@[s];
                    &&& tr.0 < tvs@.len()
                    &&& tr.1 < tvs@.len()
                    &&& tr.2 < tvs@.len()
                    &&& tvs@[tr.0 as int] == TriVert::Corner(directed@[s].a)
                    &&& tvs@[tr.1 as int] == TriVert::Corner(directed@[s].b)
                    &&& tvs@[tr.2 as int] == TriVert::Tip(directed@[s].a, directed@[s].b)
                },
        decreases n - j,
    {
        let e = directed[j];
        let ia = find_trivert_index(&tvs, &TriVert::Corner(e.a));
        let ib = find_trivert_index(&tvs, &TriVert::Corner(e.b));
        let it = find_trivert_index(&tvs, &TriVert::Tip(e.a, e.b));
        triangles.push((ia, ib, it));
        j = j + 1;
    }
    Mesh::IndexedTriMesh { vertices, triangles }
}

/// The interpolation points of the simple path from cell `c` to its
/// neighbor `nb`: the two cell centers at the first and last keyframe.
pub open spec fn path_pts(c: GridCell, nb: GridCell) -> Seq<(Keyframe, Point2)> {
    seq![(Keyframe(KEY_START), c.center_spec()), (Keyframe(KEY_END), nb.center_spec())]
}

/// The adjacency entries of cell `c`'s record after looking at its first
/// `k` geometric neighbors: every neighbor in the authored set is kept,
/// except where the registry records the edge as one-way in the reverse
/// direction; each entry carries the neighbor's index in the cell order.
pub open spec fn rec_entries(cells: Seq<GridCell>, edges: Edges, c: GridCell, k: int) -> Seq<
    (int, GridCell),
>
    decreases k,
{
    if k <= 0 {
        Seq::<(int, GridCell)>::empty()
    } else {
        let prev = rec_entries(cells, edges, c, k - 1);
        let nb = c.neighbor_spec(k - 1);
        if edges.dir_spec(c, nb) != Some(EdgeDir::BToA) && cells.contains(nb) {
            prev.push((cells.index_of(nb), nb))
        } else {
            prev
        }
    }
}

pub open spec fn entries_match(
    entries: Seq<(int, GridCell)>,
    nbrs: Seq<(usize, Path)>,
    c: GridCell,
) -> bool {
    &&& nbrs.len() == entries.len()
    &&& forall|t: int|
        0 <= t < entries.len() ==> (#[trigger] nbrs[t]).0 == entries[t].0 && nbrs[t].1.0@
            == path_pts(c, entries[t].1)
}

/// What one cell record of a synthesized board must hold: the cell's
/// center, its shape points, and its filtered adjacency entries, each with
/// a simple path between the two cell centers.
pub open spec fn record_matches(cells: Seq<GridCell>, edges: Edges, i: int, rec: Cell) -> bool {
    let c = cells[i];
    &&& rec.position == c.center_spec()
    &&& rec.shape.points@.len() == c.side_count()
    &&& (forall|k: int|
        0 <= k < c.side_count() ==> #[trigger] rec.shape.points@[k] == c.shape_point_spec(k))
    &&& entries_match(rec_entries(cells, edges, c, c.side_count()), rec.neighbors@, c)
}

/// The neighbor listed in the scan order is a geometric neighbor.
pub proof fn lemma_neighbor_spec_is_neighbor(c: GridCell, k: int)
    requires
        c.in_limit(),
        0 <= k < c.side_count(),
    ensures
        c.is_neighbor(c.neighbor_spec(k)),
        c.neighbor_spec(k) != c,
{
    match c {
        GridCell::Square(a) => {
            assert(c.neighbor_spec(k) == GridCell::Square(a.neighbor_spec(k)));
        },
        GridCell::Hex(a) => {
            assert(c.neighbor_spec(k) == GridCell::Hex(a.neighbor_spec(k)));
        },
    }
}

/// Distinct scan positions name distinct geometric neighbors.
pub proof fn lemma_neighbor_spec_injective(c: GridCell, k1: int, k2: int)
    requires
        c.in_limit(),
        0 <= k1 < c.side_count(),
        0 <= k2 < c.side_count(),
        k1 != k2,
    ensures
        c.neighbor_spec(k1) != c.neighbor_spec(k2),
{
}

/// The neighbor cell `nb` is one of the first `k` scan neighbors of `c`.
pub open spec fn entry_from_scan(c: GridCell, k: int, nb: GridCell) -> bool {
    exists|k2: int| 0 <= k2 < k && nb == #[trigger] c.neighbor_spec(k2)
}

/// The adjacency entries of one record name pairwise distinct neighbor
/// cells: the record is a genuine mapping from neighbor to path.
pub proof fn lemma_rec_entries_distinct(cells: Seq<GridCell>, edges: Edges, c: GridCell, k: int)
    requires
        c.in_limit(),
        0 <= k <= c.side_count(),
    ensures
        forall|t: int|
            0 <= t < rec_entries(cells, edges, c, k).len() ==> entry_from_scan(
                c,
                k,
                (#[trigger] rec_entries(cells, edges, c, k)[t]).1,
            ),
        forall|t1: int, t2: int|
            0 <= t1 < t2 < rec_entries(cells, edges, c, k).len()
                ==> (#[trigger] rec_entries(cells, edges, c, k)[t1]).1 != (
            #[trigger] rec_entries(cells, edges, c, k)[t2]).1,
    decreases k,
{
    if k <= 0 {
    } else {
        lemma_rec_entries_distinct(cells, edges, c, k - 1);
        let prev = rec_entries(cells, edges, c, k - 1);
        let entries = rec_entries(cells, edges, c, k);
        let nb = c.neighbor_spec(k - 1);
        if edges.dir_spec(c, nb) != Some(EdgeDir::BToA) && cells.contains(nb) {
            assert(entries == prev.push((cells.index_of(nb), nb)));
            assert forall|t: int| 0 <= t < entries.len() implies entry_from_scan(
                c,
                k,
                (#[trigger] entries[t]).1,
            ) by {
                if t < prev.len() {
                    assert(entries[t] == prev[t]);
                    let k2 = choose|k2: int| 0 <= k2 < k - 1 && prev[t].1 == c.neighbor_spec(k2);
                    assert(entries[t].1 == c.neighbor_spec(k2));
                } else {
                    assert(entries[t].1 == c.neighbor_spec(k - 1));
                }
            }
            assert forall|t1: int, t2: int|
                0 <= t1 < t2 < entries.len() implies (#[trigger] entries[t1]).1 != (
            #[trigger] entries[t2]).1 by {
                if t2 < prev.len() {
                    assert(entries[t1] == prev[t1] && entries[t2] == prev[t2]);
                } else {
                    assert(entries[t1] == prev[t1]);
                    assert(entries[t2].1 == nb);
                    let k2 = choose|k2: int| 0 <= k2 < k - 1 && prev[t1].1 == c.neighbor_spec(k2);
                    lemma_neighbor_spec_injective(c, k2, k - 1);
                }
            }
        } else {
            assert forall|t: int| 0 <= t < entries.len() implies entry_from_scan(
                c,
                k,
                (#[trigger] entries[t]).1,
            ) by {
                assert(entries[t] == prev[t]);
                let k2 = choose|k2: int| 0 <= k2 < k - 1 && prev[t].1 == c.neighbor_spec(k2);
                assert(entries[t].1 == c.neighbor_spec(k2));
            }
        }
    }
}

/// Adjacency-map law: in any synthesized board, no cell record lists the
/// same neighbor index twice, so the record is a well-defined mapping from
/// neighbor index to path.
pub proof fn lemma_record_keys_unique(
    cells: Seq<GridCell>,
    edges: Edges,
    off: i64,
    b: Board,
)
    requires
        synthesis_post(cells, edges, off, b),
        cells_in_limit(cells),
        cells_distinct(cells),
    ensures
        forall|i: int, t1: int, t2: int|
            0 <= i < b.cells@.len() && 0 <= t1 < t2 < b.cells@[i].neighbors@.len()
                ==> (#[trigger] b.cells@[i].neighbors@[t1]).0 != (
            #[trigger] b.cells@[i].neighbors@[t2]).0,
{
    assert forall|i: int, t1: int, t2: int|
        0 <= i < b.cells@.len() && 0 <= t1 < t2 < b.cells@[i].neighbors@.len() implies (
    #[trigger] b.cells@[i].neighbors@[t1]).0 != (#[trigger] b.cells@[i].neighbors@[t2]).0 by {
        let c = cells[i];
        assert(record_matches(cells, edges, i, b.cells@[i]));
        lemma_rec_entries_bounds(cells, edges, c, c.side_count(), i);
        lemma_rec_entries_distinct(cells, edges, c, c.side_count());
        let entries = rec_entries(cells, edges, c, c.side_count());
        assert(b.cells@[i].neighbors@[t1].0 == entries[t1].0);
        assert(b.cells@[i].neighbors@[t2].0 == entries[t2].0);
        assert(cells[entries[t1].0] == entries[t1].1);
        assert(cells[entries[t2].0] == entries[t2].1);
    }
}

/// Every adjacency entry indexes a real cell of the board, never the cell
/// itself: the record invariant behind `Board::wf`.
pub proof fn lemma_rec_entries_bounds(
    cells: Seq<GridCell>,
    edges: Edges,
    c: GridCell,
    k: int,
    i: int,
)
    requires
        cells_distinct(cells),
        c.in_limit(),
        0 <= k <= c.side_count(),
        0 <= i < cells.len(),
        cells[i] == c,
    ensures
        forall|t: int|
            0 <= t < rec_entries(cells, edges, c, k).len() ==> {
                let e = #[trigger] rec_entries(cells, edges, c, k)[t];
                &&& 0 <= e.0 < cells.len()
                &&& e.0 != i
                &&& cells[e.0] == e.1
            },
    decreases k,
{
    if k <= 0 {
    } else {
        lemma_rec_entries_bounds(cells, edges, c, k - 1, i);
        let prev = rec_entries(cells, edges, c, k - 1);
        let entries = rec_entries(cells, edges, c, k);
        let nb = c.neighbor_spec(k - 1);
        if edges.dir_spec(c, nb) != Some(EdgeDir::BToA) && cells.contains(nb) {
            let idx = cells.index_of(nb);
            assert(0 <= idx < cells.len() && cells[idx] == nb);
            lemma_neighbor_spec_is_neighbor(c, k - 1);
            assert(idx != i);
            assert(entries == prev.push((idx, nb)));
            assert forall|t: int| 0 <= t < entries.len() implies {
                let e = #[trigger] entries[t];
                &&& 0 <= e.0 < cells.len()
                &&& e.0 != i
                &&& cells[e.0] == e.1
            } by {
                if t < prev.len() {
                    assert(entries[t] == prev[t]);
                } else {
                    assert(entries[t] == (idx, nb));
                }
            }
        } else {
            assert forall|t: int| 0 <= t < entries.len() implies {
                let e = #[trigger] entries[t];
                &&& 0 <= e.0 < cells.len()
                &&& e.0 != i
                &&& cells[e.0] == e.1
            } by {
                assert(entries[t] == prev[t]);
            }
        }
    }
}

/// First index of `c` in the cell order, if it is authored.
fn find_cell_index(cells: &Vec<GridCell>, c: &GridCell) -> (r: Option<usize>)
    ensures
        match r {
            Some(i) => i < cells@.len() && cells@[i as int] == *c,
            None => !cells@.contains(*c),
        },
{
    let n = cells.len();
    let mut i: usize = 0;
    while i < n
        invariant
            0 <= i <= n,
            n == cells@.len(),
            forall|s: int| 0 <= s < i ==> #[trigger] cells@[s] != *c,
        decreases n - i,
    {
        if cells[i] == *c {
            return Some(i);
        }
        i = i + 1;
    }
    proof {
        assert(!cells@.contains(*c));
    }
    None
}

/// Builds the board's cell records: the input cell order is the board's
/// index order; each record keeps every geometric neighbor that is
/// authored and not overridden against it, mapped to a simple path between
/// the two cell centers.
fn cell_records(cells: &Vec<GridCell>, edges: &Edges) -> (r: Vec<Cell>)
    requires
        cells_in_limit(cells@),
        cells_distinct(cells@),
    ensures
        r@.len() == cells@.len(),
        forall|i: int|
            0 <= i < cells@.len() ==> record_matches(cells@, *edges, i, #[trigger] r@[i]),
{
    let n = cells.len();
    let mut r: Vec<Cell> = Vec::new();
    let mut i: usize = 0;
    while i < n
        invariant
            0 <= i <= n,
            n == cells@.len(),
            cells_in_limit(cells@),
            cells_distinct(cells@),
            r@.len() == i,
            forall|s: int| 0 <= s < i ==> record_matches(cells@, *edges, s, #[trigger] r@[s]),
        decreases n - i,
    {
        let c = cells[i];
        let pos = c.position();
        let shape = c.shape();
        let ns = c.neighbors();
        let m = ns.len();
        let mut nbrs: Vec<(usize, Path)> = Vec::new();
        let mut k: usize = 0;
        proof {
            assert(nbrs@ =~= Seq::<(usize, Path)>::empty());
        }
        while k < m
            invariant
                0 <= k <= m,
                m == c.side_count(),
                c.in_limit(),
                c == cells@[i as int],
                0 <= i < cells@.len(),
                n == cells@.len(),
                cells_in_limit(cells@),
                cells_distinct(cells@),
                pos == c.center_spec(),
                ns@.len() == m,
                forall|t: int| 0 <= t < m ==> ns@[t] == c.neighbor_spec(t),
                entries_match(rec_entries(cells@, *edges, c, k as int), nbrs@, c),
            decreases m - k,
        {
            let nb = ns[k];
            let keep = match edges.edge_dir(&c, &nb) {
                Some(EdgeDir::BToA) => false,
                _ => true,
            };
            let ghost entries_pre = rec_entries(cells@, *edges, c, k as int);
            if keep {
                match find_cell_index(cells, &nb) {
                    Some(idx) => {
                        let npos = cells[idx].position();
                        let path = Path::simple(pos, npos);
                        nbrs.push((idx, path));
                        proof {
                            assert(cells@.contains(nb)) by {
                                assert(cells@[idx as int] == nb);
                            }
                            let sidx = cells@.index_of(nb);
                            assert(0 <= sidx < cells@.len() && cells@[sidx] == nb);
                            assert(idx as int == sidx);
                            assert(rec_entries(cells@, *edges, c, k + 1) == entries_pre.push(
                                (sidx, nb),
                            ));
                            assert(nbrs@.last() == (idx, path));
                            assert(path.0@ == path_pts(c, nb));
                        }
                    },
                    None => {
                        proof {
                            assert(rec_entries(cells@, *edges, c, k + 1) == entries_pre);
                        }
                    },
                }
            } else {
                proof {
                    assert(rec_entries(cells@, *edges, c, k + 1) == entries_pre);
                }
            }
            k = k + 1;
        }
        r.push(Cell { neighbors: nbrs, shape, position: pos });
        proof {
            assert(record_matches(cells@, *edges, i as int, r@.last()));
        }
        i = i + 1;
    }
    r
}

/// Everything board synthesis promises: the record of every authored cell,
/// and the boundary-wall line mesh, plus the directional-arrow triangle
/// mesh exactly when at least one directed edge exists. Every field is a
/// function of the inputs alone, so synthesis is deterministic.
pub open spec fn synthesis_post(cells: Seq<GridCell>, edges: Edges, off: i64, b: Board) -> bool {
    let walls = walls_spec(cells, edges);
    let directed = directed_spec(cells, edges);
    &&& b.cells@.len() == cells.len()
    &&& (forall|i: int|
        0 <= i < cells.len() ==> record_matches(cells, edges, i, #[trigger] b.cells@[i]))
    &&& b.meshes@.len() == (if directed.len() > 0 {
        2int
    } else {
        1int
    })
    &&& b.meshes@[0].color == BoardColor::PlayerColor
    &&& line_mesh_matches(walls, b.meshes@[0].mesh)
    &&& (directed.len() > 0 ==> b.meshes@[1].color == BoardColor::PlayerColor && tri_mesh_matches(
        directed,
        off,
        b.meshes@[1].mesh,
    ))
}

/// Corners of the shared edge of an in-range cell stay in range.
pub proof fn lemma_shared_edge_in_limit(c: GridCell, nb: GridCell)
    requires
        c.in_limit(),
    ensures
        c.shared_edge_spec(nb).a.in_limit(),
        c.shared_edge_spec(nb).b.in_limit(),
{
}

/// Shape points of an in-range cell are within the coordinate bounds that
/// the containment test accepts.
pub proof fn lemma_shape_point_bounded(c: GridCell, k: int)
    requires
        c.in_limit(),
        0 <= k < c.side_count(),
    ensures
        c.shape_point_spec(k).bounded(),
{
}

/// Board synthesis. Consumes an ordered, deduplicated set of cells of one
/// tiling, the one-way override registry, and the arrow-tip displacement
/// (in thousandths of the edge vector); produces the renderable, navigable
/// board:
/// - the boundary-wall line mesh, always (even when empty);
/// - the directional-arrow triangle mesh, when a directed edge exists;
/// - one record per cell, in input order, with the filtered adjacency.
///
/// Every output field is pinned to a function of the inputs, so two runs
/// on the same input produce the same board (see
/// `lemma_synthesis_deterministic`).
pub fn build_board(cells: Vec<GridCell>, edges: Edges, arrow_offset: i64) -> (b: Board)
    requires
        cells_in_limit(cells@),
        cells_distinct(cells@),
        -1000 <= arrow_offset <= 1000,
    ensures
        synthesis_post(cells@, edges, arrow_offset, b),
        b.wf(),
        b.shapes_bounded(),
{
    let (walls, directed) = scan_board_edges(&cells, &edges);
    let line_mesh = build_line_mesh(&walls);
    let mut meshes: Vec<BoardMesh> = Vec::new();
    meshes.push(BoardMesh { color: BoardColor::PlayerColor, mesh: line_mesh });
    if directed.len() > 0 {
        let tri = build_tri_mesh(&directed, arrow_offset);
        meshes.push(BoardMesh { color: BoardColor::PlayerColor, mesh: tri });
    }
    let recs = cell_records(&cells, &edges);
    let b = Board { cells: recs, meshes };
    proof {
        assert forall|i: int, k: int|
            0 <= i < b.cells@.len() && 0 <= k < b.cells@[i].neighbors@.len() implies {
            let nn = (#[trigger] b.cells@[i].neighbors@[k]).0;
            nn < b.cells@.len() && nn != i
        } by {
            let c = cells@[i];
            assert(record_matches(cells@, edges, i, b.cells@[i]));
            lemma_rec_entries_bounds(cells@, edges, c, c.side_count(), i);
            let entries = rec_entries(cells@, edges, c, c.side_count());
            assert(b.cells@[i].neighbors@[k].0 == entries[k].0);
        }
        assert forall|i: int| 0 <= i < b.cells@.len() implies crate::board::points_bounded(
            (#[trigger] b.cells@[i]).shape.points@,
        ) by {
            let c = cells@[i];
            assert(record_matches(cells@, edges, i, b.cells@[i]));
            assert forall|k: int|
                0 <= k < b.cells@[i].shape.points@.len() implies (#[trigger] b.cells@[i].shape.points@[k]).bounded() by {
                lemma_shape_point_bounded(c, k);
            }
        }
    }
    b
}


/// The authored cell set as an ordered, duplicate-free list: clicking a
/// cell flips it in or out.
impl Toggle<GridCell> for Vec<GridCell> {
    open spec fn set_wf(self) -> bool {
        cells_distinct(self@)
    }

    open spec fn has_elem(self, t: GridCell) -> bool {
        self@.contains(t)
    }

    fn toggle(&mut self, t: GridCell) {
        let ghost pre = self@;
        match find_cell_index(self, &t) {
            Some(i) => {
                self.remove(i);
                proof {
                    let cur = self@;
                    assert(cur == pre.remove(i as int));
                    assert forall|k: int| 0 <= k < cur.len() implies #[trigger] cur[k] == (if k
                        < i {
                        pre[k]
                    } else {
                        pre[k + 1]
                    }) by {}
                    assert forall|t1: int, t2: int|
                        0 <= t1 < t2 < cur.len() implies #[trigger] cur[t1]
                        != #[trigger] cur[t2] by {
                        let j1 = if t1 < i {
                            t1
                        } else {
                            t1 + 1
                        };
                        let j2 = if t2 < i {
                            t2
                        } else {
                            t2 + 1
                        };
                        assert(cur[t1] == pre[j1]);
                        assert(cur[t2] == pre[j2]);
                        assert(pre[j1] != pre[j2]);
                    }
                    assert forall|k: int| 0 <= k < cur.len() implies #[trigger] cur[k] != t by {
                        let j = if k < i {
                            k
                        } else {
                            k + 1
                        };
                        assert(cur[k] == pre[j]);
                        assert(pre[j] != pre[i as int]);
                    }
                    assert(!cur.contains(t));
                    assert forall|x: GridCell| pre.contains(x) && x != t implies #[trigger] cur.contains(
                        x,
                    ) by {
                        let j = choose|j: int| 0 <= j < pre.len() && pre[j] == x;
                        if j < i {
                            assert(cur[j] == x);
                        } else {
                            assert(j != i);
                            assert(cur[j - 1] == x);
                        }
                    }
                    assert forall|x: GridCell| #[trigger] cur.contains(x) implies pre.contains(
                        x,
                    ) by {
                        let k = choose|k: int| 0 <= k < cur.len() && cur[k] == x;
                        let j = if k < i {
                            k
                        } else {
                            k + 1
                        };
                        assert(pre[j] == x);
                    }
                }
            },
            None => {
                self.push(t);
                proof {
                    let cur = self@;
                    assert forall|t1: int, t2: int|
                        0 <= t1 < t2 < cur.len() implies #[trigger] cur[t1]
                        != #[trigger] cur[t2] by {
                        if t2 < pre.len() {
                            assert(cur[t1] == pre[t1] && cur[t2] == pre[t2]);
                        } else {
                            assert(cur[t1] == pre[t1]);
                            assert(cur[t2] == t);
                            assert(pre.contains(pre[t1]) == true);
                        }
                    }
                    assert(cur[cur.len() - 1] == t);
                    assert(cur.contains(t));
                    assert forall|x: GridCell| pre.contains(x) implies #[trigger] cur.contains(
                        x,
                    ) by {
                        let j = choose|j: int| 0 <= j < pre.len() && pre[j] == x;
                        assert(cur[j] == x);
                    }
                    assert forall|x: GridCell| #[trigger] cur.contains(x) && x != t implies pre.contains(
                        x,
                    ) by {
                        let k = choose|k: int| 0 <= k < cur.len() && cur[k] == x;
                        assert(cur[k] == pre[k]);
                    }
                }
            },
        }
    }
}

/// Two cell records that agree on everything observable.
pub open spec fn cells_alike(c1: Cell, c2: Cell) -> bool {
    &&& c1.position == c2.position
    &&& c1.shape.points@ == c2.shape.points@
    &&& c1.neighbors@.len() == c2.neighbors@.len()
    &&& forall|t: int|
        0 <= t < c1.neighbors@.len() ==> (#[trigger] c1.neighbors@[t]).0 == (
        #[trigger] c2.neighbors@[t]).0 && c1.neighbors@[t].1.0@ == c2.neighbors@[t].1.0@
}

/// Two board meshes that agree on everything observable.
pub open spec fn meshes_alike(m1: BoardMesh, m2: BoardMesh) -> bool {
    &&& m1.color == m2.color
    &&& match (m1.mesh, m2.mesh) {
        (
            Mesh::IndexedLineMesh { vertices: v1, lines: l1 },
            Mesh::IndexedLineMesh { vertices: v2, lines: l2 },
        ) => v1@ == v2@ && l1@ == l2@,
        (
            Mesh::IndexedTriMesh { vertices: v1, triangles: t1 },
            Mesh::IndexedTriMesh { vertices: v2, triangles: t2 },
        ) => v1@ == v2@ && t1@ == t2@,
        _ => false,
    }
}

/// Two boards that agree on everything observable.
pub open spec fn boards_alike(b1: Board, b2: Board) -> bool {
    &&& b1.cells@.len() == b2.cells@.len()
    &&& (forall|i: int|
        0 <= i < b1.cells@.len() ==> cells_alike(#[trigger] b1.cells@[i], #[trigger] b2.cells@[i]))
    &&& b1.meshes@.len() == b2.meshes@.len()
    &&& (forall|i: int|
        0 <= i < b1.meshes@.len() ==> meshes_alike(
            #[trigger] b1.meshes@[i],
            #[trigger] b2.meshes@[i],
        ))
}

/// Synthesis determinism law: any two boards satisfying the synthesis
/// contract for the same cell set, registry and arrow offset are
/// structurally identical. Every observable part of the output is a pure
/// function of the input order.
pub proof fn lemma_synthesis_deterministic(
    cells: Seq<GridCell>,
    edges: Edges,
    off: i64,
    b1: Board,
    b2: Board,
)
    requires
        synthesis_post(cells, edges, off, b1),
        synthesis_post(cells, edges, off, b2),
    ensures
        boards_alike(b1, b2),
{
    let walls = walls_spec(cells, edges);
    let directed = directed_spec(cells, edges);
    let corners = corner_fold(walls, walls.len() as int);
    let tvs = trivert_fold(directed, directed.len() as int);
    lemma_corner_fold(walls, walls.len() as int);
    lemma_trivert_fold(directed, directed.len() as int);
    assert forall|i: int| 0 <= i < b1.cells@.len() implies cells_alike(
        #[trigger] b1.cells@[i],
        #[trigger] b2.cells@[i],
    ) by {
        assert(record_matches(cells, edges, i, b1.cells@[i]));
        assert(record_matches(cells, edges, i, b2.cells@[i]));
        let c = cells[i];
        assert(b1.cells@[i].shape.points@ =~= b2.cells@[i].shape.points@);
        let entries = rec_entries(cells, edges, c, c.side_count());
        assert forall|t: int|
            0 <= t < b1.cells@[i].neighbors@.len() implies (#[trigger] b1.cells@[i].neighbors@[t]).0
            == (#[trigger] b2.cells@[i].neighbors@[t]).0 && b1.cells@[i].neighbors@[t].1.0@
            == b2.cells@[i].neighbors@[t].1.0@ by {
            assert(b1.cells@[i].neighbors@[t].0 == entries[t].0);
            assert(b2.cells@[i].neighbors@[t].0 == entries[t].0);
            assert(b1.cells@[i].neighbors@[t].1.0@ == path_pts(c, entries[t].1));
            assert(b2.cells@[i].neighbors@[t].1.0@ == path_pts(c, entries[t].1));
        }
    }
    assert forall|i: int| 0 <= i < b1.meshes@.len() implies meshes_alike(
        #[trigger] b1.meshes@[i],
        #[trigger] b2.meshes@[i],
    ) by {
        if i == 0 {
            let m1 = b1.meshes@[0].mesh;
            let m2 = b2.meshes@[0].mesh;
            match (m1, m2) {
                (
                    Mesh::IndexedLineMesh { vertices: v1, lines: l1 },
                    Mesh::IndexedLineMesh { vertices: v2, lines: l2 },
                ) => {
                    assert(v1@ =~= v2@);
                    assert forall|j: int| 0 <= j < l1@.len() implies #[trigger] l1@[j]
                        == #[trigger] l2@[j] by {
                        let p1 = l1@[j];
                        let p2 = l2@[j];
                        assert(corners[p1.0 as int] == walls[j].a);
                        assert(corners[p2.0 as int] == walls[j].a);
                        assert(p1.0 == p2.0);
                        assert(corners[p1.1 as int] == walls[j].b);
                        assert(corners[p2.1 as int] == walls[j].b);
                        assert(p1.1 == p2.1);
                    }
                    assert(l1@ =~= l2@);
                },
                _ => {},
            }
        } else {
            let m1 = b1.meshes@[1].mesh;
            let m2 = b2.meshes@[1].mesh;
            match (m1, m2) {
                (
                    Mesh::IndexedTriMesh { vertices: v1, triangles: t1 },
                    Mesh::IndexedTriMesh { vertices: v2, triangles: t2 },
                ) => {
                    assert(v1@ =~= v2@);
                    assert forall|j: int| 0 <= j < t1@.len() implies #[trigger] t1@[j]
                        == #[trigger] t2@[j] by {
                        let p1 = t1@[j];
                        let p2 = t2@[j];
                        assert(tvs[p1.0 as int] == TriVert::Corner(directed[j].a));
                        assert(tvs[p2.0 as int] == TriVert::Corner(directed[j].a));
                        assert(p1.0 == p2.0);
                        assert(tvs[p1.1 as int] == TriVert::Corner(directed[j].b));
                        assert(tvs[p2.1 as int] == TriVert::Corner(directed[j].b));
                        assert(p1.1 == p2.1);
                        assert(tvs[p1.2 as int] == TriVert::Tip(directed[j].a, directed[j].b));
                        assert(tvs[p2.2 as int] == TriVert::Tip(directed[j].a, directed[j].b));
                        assert(p1.2 == p2.2);
                    }
                    assert(t1@ =~= t2@);
                },
                _ => {},
            }
        }
    }
}

/// No-duplicate-tips law: the triangle-mesh vertex list of board synthesis
/// never holds two distinct tip vertices for the same corner pair. Every
/// mesh vertex stands for one entry of the triangle-vertex fold, and the
/// fold is duplicate-free.
pub proof fn lemma_no_duplicate_tips(directed: Seq<Edge<GridCorner>>)
    ensures
        forall|t1: int, t2: int|
            #![trigger trivert_fold(directed, directed.len() as int)[t1], trivert_fold(directed, directed.len() as int)[t2]]
            0 <= t1 < t2 < trivert_fold(directed, directed.len() as int).len() ==> !(
            trivert_fold(directed, directed.len() as int)[t1] is Tip && trivert_fold(
                directed,
                directed.len() as int,
            )[t2] is Tip && trivert_fold(directed, directed.len() as int)[t1]->Tip_0
                == trivert_fold(directed, directed.len() as int)[t2]->Tip_0 && trivert_fold(
                directed,
                directed.len() as int,
            )[t1]->Tip_1 == trivert_fold(directed, directed.len() as int)[t2]->Tip_1),
{
    lemma_trivert_fold(directed, directed.len() as int);
    let tvs = trivert_fold(directed, directed.len() as int);
    assert forall|t1: int, t2: int|
        #![trigger tvs[t1], tvs[t2]]
        0 <= t1 < t2 < tvs.len() implies !(tvs[t1] is Tip && tvs[t2] is Tip && tvs[t1]->Tip_0
        == tvs[t2]->Tip_0 && tvs[t1]->Tip_1 == tvs[t2]->Tip_1) by {
        assert(tvs[t1] != tvs[t2]);
    }
}

/// Arrow-tip displacement used for square boards, in thousandths of the
/// edge vector.
pub const SQUARE_ARROW_OFFSET: i64 = 140;

/// Arrow-tip displacement used for hex boards.
pub const HEX_ARROW_OFFSET: i64 = 210;

/// The editable grid state: an authored cell set of one tiling plus its
/// one-way override registry.
#[derive(Clone, Debug)]
pub enum Grid {
    BasicSquare { cells: Vec<crate::basic_grid::square::Cell>, edges: Edges },
    BasicHex { cells: Vec<crate::basic_grid::hex::Cell>, edges: Edges },
}

impl Default for Grid {
    /// A fresh grid starts as an empty square board.
    fn default() -> (r: Grid)
        ensures
            r is BasicSquare,
            r->BasicSquare_cells@.len() == 0,
            r->BasicSquare_edges.pairs@.len() == 0,
    {
        Grid::default_square()
    }
}

impl Grid {
    pub fn default_square() -> (r: Grid)
        ensures
            r is BasicSquare,
            r->BasicSquare_cells@.len() == 0,
            r->BasicSquare_edges.pairs@.len() == 0,
    {
        Grid::BasicSquare { cells: Vec::new(), edges: Edges { pairs: Vec::new() } }
    }

    pub fn default_hex() -> (r: Grid)
        ensures
            r is BasicHex,
            r->BasicHex_cells@.len() == 0,
            r->BasicHex_edges.pairs@.len() == 0,
    {
        Grid::BasicHex { cells: Vec::new(), edges: Edges { pairs: Vec::new() } }
    }

    /// The authored cells in board order, each wrapped in the shared cell
    /// type.
    pub open spec fn grid_cells(self) -> Seq<GridCell> {
        match self {
            Grid::BasicSquare { cells, .. } => cells@.map_values(|c| GridCell::Square(c)),
            Grid::BasicHex { cells, .. } => cells@.map_values(|c| GridCell::Hex(c)),
        }
    }

    pub open spec fn grid_edges(self) -> Edges {
        match self {
            Grid::BasicSquare { edges, .. } => edges,
            Grid::BasicHex { edges, .. } => edges,
        }
    }

    /// The arrow-tip displacement of this tiling.
    pub open spec fn arrow_offset_spec(self) -> i64 {
        match self {
            Grid::BasicSquare { .. } => SQUARE_ARROW_OFFSET,
            Grid::BasicHex { .. } => HEX_ARROW_OFFSET,
        }
    }

    /// Materializes the edited grid as a board, with the tiling's arrow
    /// offset.
    pub fn into_board(self) -> (b: Board)
        requires
            cells_in_limit(self.grid_cells()),
            cells_distinct(self.grid_cells()),
        ensures
            synthesis_post(self.grid_cells(), self.grid_edges(), self.arrow_offset_spec(), b),
            b.wf(),
            b.shapes_bounded(),
    {
        match self {
            Grid::BasicSquare { cells, edges } => {
                let n = cells.len();
                let mut wrapped: Vec<GridCell> = Vec::new();
                let mut i: usize = 0;
                while i < n
                    invariant
                        0 <= i <= n,
                        n == cells@.len(),
                        wrapped@.len() == i,
                        forall|t: int| 0 <= t < i ==> #[trigger] wrapped@[t] == GridCell::Square(cells@[t]),
                    decreases n - i,
                {
                    wrapped.push(GridCell::Square(cells[i]));
                    i = i + 1;
                }
                proof {
                    assert(wrapped@ =~= cells@.map_values(|c| GridCell::Square(c)));
                }
                build_board(wrapped, edges, SQUARE_ARROW_OFFSET)
            },
            Grid::BasicHex { cells, edges } => {
                let n = cells.len();
                let mut wrapped: Vec<GridCell> = Vec::new();
                let mut i: usize = 0;
                while i < n
                    invariant
                        0 <= i <= n,
                        n == cells@.len(),
                        wrapped@.len() == i,
                        forall|t: int| 0 <= t < i ==> #[trigger] wrapped@[t] == GridCell::Hex(cells@[t]),
                    decreases n - i,
                {
                    wrapped.push(GridCell::Hex(cells[i]));
                    i = i + 1;
                }
                proof {
                    assert(wrapped@ =~= cells@.map_values(|c| GridCell::Hex(c)));
                }
                build_board(wrapped, edges, HEX_ARROW_OFFSET)
            },
        }
    }
}

} // verus!

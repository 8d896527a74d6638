use grid_builder::basic_grid::square;
use grid_builder::basic_grid::GridCell;
use grid_builder::board::{Board, BoardColor, Keyframe, Mesh, Path};
use grid_builder::geom::{Point2, Point3};
use grid_builder::grid::{build_board, EdgeDir, Edges, Grid, SQUARE_ARROW_OFFSET};
use grid_builder::util::Toggle;

fn sq(x: i64, y: i64) -> GridCell {
    GridCell::Square(square::Cell { x, y })
}

fn two_by_two() -> Vec<GridCell> {
    vec![sq(0, 0), sq(1, 0), sq(0, 1), sq(1, 1)]
}

#[test]
fn test_build_board() {
    let cells = two_by_two();
    let mut edges = Edges::default();
    edges.add_one_way_edge(cells[0], cells[1]);
    build_board(cells, edges, SQUARE_ARROW_OFFSET);
}

#[test]
fn minimal_square_board() {
    // Four cells, one override marking (0,0) -> (1,0) one-way.
    let cells = two_by_two();
    let mut edges = Edges::default();
    edges.add_one_way_edge(cells[0], cells[1]);
    let b = build_board(cells, edges, SQUARE_ARROW_OFFSET);

    assert_eq!(b.cells.len(), 4);
    // Exactly one directed edge: the wall line mesh plus one triangle mesh.
    assert_eq!(b.meshes.len(), 2);
    match &b.meshes[0].mesh {
        Mesh::IndexedLineMesh { vertices, lines } => {
            // The 8 outer perimeter walls plus the 3 un-overridden interior
            // walls, over the 9 corner-lattice points of the 2x2 block.
            assert_eq!(lines.len(), 11);
            assert_eq!(vertices.len(), 9);
        },
        Mesh::IndexedTriMesh { .. } => panic!("first mesh must be the wall line mesh"),
    }
    match &b.meshes[1].mesh {
        Mesh::IndexedTriMesh { vertices, triangles } => {
            assert_eq!(triangles.len(), 1);
            assert_eq!(vertices.len(), 3);
            // The arrow tip sits at the shared edge midpoint, displaced
            // toward the override's target cell.
            assert!(vertices.contains(&Point3 { x: 1280, y: 0, z: 0 }));
        },
        Mesh::IndexedLineMesh { .. } => panic!("second mesh must be the arrow triangle mesh"),
    }
    // (0,0)'s adjacency keeps (1,0); (1,0)'s adjacency excludes (0,0).
    assert!(b.cells[0].neighbors.iter().any(|&(n, _)| n == 1));
    assert!(b.cells[1].neighbors.iter().all(|&(n, _)| n != 0));
    assert!(b.cells[1].neighbors.iter().any(|&(n, _)| n == 3));
}

#[test]
fn synthesis_is_deterministic() {
    let mut e1 = Edges::default();
    e1.add_one_way_edge(sq(0, 0), sq(1, 0));
    let mut e2 = Edges::default();
    e2.add_one_way_edge(sq(0, 0), sq(1, 0));
    let b1 = build_board(two_by_two(), e1, SQUARE_ARROW_OFFSET);
    let b2 = build_board(two_by_two(), e2, SQUARE_ARROW_OFFSET);
    assert_eq!(b1.cells.len(), b2.cells.len());
    for (c1, c2) in b1.cells.iter().zip(b2.cells.iter()) {
        assert_eq!(c1.position, c2.position);
        assert_eq!(c1.shape.points, c2.shape.points);
        assert_eq!(c1.neighbors.len(), c2.neighbors.len());
        for (n1, n2) in c1.neighbors.iter().zip(c2.neighbors.iter()) {
            assert_eq!(n1.0, n2.0);
            assert_eq!(n1.1 .0, n2.1 .0);
        }
    }
    assert_eq!(b1.meshes.len(), b2.meshes.len());
    for (m1, m2) in b1.meshes.iter().zip(b2.meshes.iter()) {
        match (&m1.mesh, &m2.mesh) {
            (
                Mesh::IndexedLineMesh { vertices: v1, lines: l1 },
                Mesh::IndexedLineMesh { vertices: v2, lines: l2 },
            ) => {
                assert_eq!(v1, v2);
                assert_eq!(l1, l2);
            },
            (
                Mesh::IndexedTriMesh { vertices: v1, triangles: t1 },
                Mesh::IndexedTriMesh { vertices: v2, triangles: t2 },
            ) => {
                assert_eq!(v1, v2);
                assert_eq!(t1, t2);
            },
            _ => panic!("mesh kinds differ between identical runs"),
        }
    }
}

#[test]
fn no_duplicate_tips_in_triangle_mesh() {
    // Two overrides produce two directed edges; tip vertices are
    // deduplicated by corner-pair identity, so three triangles would need
    // three tips, never more.
    let cells = two_by_two();
    let mut edges = Edges::default();
    edges.add_one_way_edge(cells[0], cells[1]);
    edges.add_one_way_edge(cells[2], cells[3]);
    let b = build_board(cells, edges, SQUARE_ARROW_OFFSET);
    match &b.meshes[1].mesh {
        Mesh::IndexedTriMesh { vertices, triangles } => {
            assert_eq!(triangles.len(), 2);
            // The two directed edges share one corner: 3 corner vertices
            // plus 2 tips, all distinct.
            assert_eq!(vertices.len(), 5);
            for i in 0..vertices.len() {
                for j in (i + 1)..vertices.len() {
                    assert_ne!(vertices[i], vertices[j]);
                }
            }
        },
        Mesh::IndexedLineMesh { .. } => panic!("second mesh must be the arrow triangle mesh"),
    }
}

#[test]
fn board_without_overrides_has_no_triangle_mesh() {
    let b = build_board(two_by_two(), Edges::default(), SQUARE_ARROW_OFFSET);
    assert_eq!(b.meshes.len(), 1);
    assert!(matches!(b.meshes[0].color, BoardColor::PlayerColor));
    match &b.meshes[0].mesh {
        Mesh::IndexedLineMesh { lines, .. } => assert_eq!(lines.len(), 12),
        Mesh::IndexedTriMesh { .. } => panic!("expected only the wall line mesh"),
    }
}

#[test]
fn cell_records_use_simple_paths() {
    let b = build_board(vec![sq(0, 0), sq(1, 0)], Edges::default(), SQUARE_ARROW_OFFSET);
    let (n, path) = &b.cells[0].neighbors[0];
    assert_eq!(*n, 1);
    assert_eq!(
        path.0,
        vec![
            (Keyframe(0), Point2 { x: 0, y: 0 }),
            (Keyframe(1000), Point2 { x: 2000, y: 0 }),
        ]
    );
}

#[test]
fn edge_registry_overrides_reverse_direction() {
    let a = sq(0, 0);
    let b = sq(1, 0);
    let mut edges = Edges::default();
    assert_eq!(edges.edge_dir(&a, &b), None);
    edges.add_one_way_edge(a, b);
    assert_eq!(edges.edge_dir(&a, &b), Some(EdgeDir::AToB));
    assert_eq!(edges.edge_dir(&b, &a), Some(EdgeDir::BToA));
    // Recording the opposite direction replaces the old override.
    edges.add_one_way_edge(b, a);
    assert_eq!(edges.edge_dir(&a, &b), Some(EdgeDir::BToA));
    assert_eq!(edges.edge_dir(&b, &a), Some(EdgeDir::AToB));
}

#[test]
fn edge_registry_remove_cell() {
    let a = sq(0, 0);
    let b = sq(1, 0);
    let c = sq(0, 1);
    let mut edges = Edges::default();
    edges.add_one_way_edge(a, b);
    edges.add_one_way_edge(c, a);
    edges.remove_cell(&a);
    assert_eq!(edges.edge_dir(&a, &b), None);
    assert_eq!(edges.edge_dir(&c, &a), None);
}

#[test]
fn grid_into_board() {
    let mut edges = Edges::default();
    edges.add_one_way_edge(sq(0, 0), sq(1, 0));
    let grid = Grid::BasicSquare {
        cells: vec![
            square::Cell { x: 0, y: 0 },
            square::Cell { x: 1, y: 0 },
            square::Cell { x: 0, y: 1 },
            square::Cell { x: 1, y: 1 },
        ],
        edges,
    };
    let b = grid.into_board();
    assert_eq!(b.cells.len(), 4);
    assert_eq!(b.meshes.len(), 2);

    let hex_grid = Grid::default_hex();
    let hb = hex_grid.into_board();
    assert_eq!(hb.cells.len(), 0);
    assert_eq!(hb.meshes.len(), 1);
}

#[test]
fn toggle_flips_cell_membership() {
    let mut cells: Vec<GridCell> = vec![sq(0, 0), sq(1, 0)];
    cells.toggle(sq(1, 0));
    assert_eq!(cells, vec![sq(0, 0)]);
    cells.toggle(sq(2, 2));
    assert_eq!(cells, vec![sq(0, 0), sq(2, 2)]);
    cells.toggle(sq(0, 0));
    cells.toggle(sq(0, 0));
    assert_eq!(cells, vec![sq(2, 2), sq(0, 0)]);
}

#[test]
fn default_board_is_empty() {
    let b = Board::default();
    assert!(b.cells.is_empty());
    assert!(b.meshes.is_empty());
}

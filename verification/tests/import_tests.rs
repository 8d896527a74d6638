use grid_builder::board::Mesh;
use grid_builder::geom::Point3;
use grid_builder::import::{
    decode_u16_pairs, decode_u16_triples, extract_loops, import_primitives, ImportIssue,
    IndexedLineMesh, Loop, Primitive, PrimitiveMode,
};

fn p3(x: i64, y: i64) -> Point3 {
    Point3 { x, y, z: 0 }
}

/// One closed square outline, two world units on a side.
fn square_loop_mesh() -> IndexedLineMesh {
    IndexedLineMesh {
        vertices: vec![p3(0, 0), p3(2000, 0), p3(2000, 2000), p3(0, 2000)],
        lines: vec![(0, 1), (1, 2), (2, 3), (3, 0)],
    }
}

/// Two adjacent square faces sharing the middle edge, inside one outline.
fn two_cell_mesh() -> IndexedLineMesh {
    IndexedLineMesh {
        vertices: vec![
            p3(0, 0),
            p3(2000, 0),
            p3(4000, 0),
            p3(4000, 2000),
            p3(2000, 2000),
            p3(0, 2000),
        ],
        lines: vec![(0, 1), (1, 2), (2, 3), (3, 4), (4, 5), (5, 0), (1, 4)],
    }
}

fn lines_to_bytes(lines: &[(u16, u16)]) -> Vec<u8> {
    let mut out = Vec::new();
    for &(a, b) in lines {
        out.extend_from_slice(&a.to_le_bytes());
        out.extend_from_slice(&b.to_le_bytes());
    }
    out
}

#[test]
fn loop_new_rotates_to_minimum() {
    let lp = Loop::new(vec![2, 0, 1]);
    assert_eq!(lp.0, vec![0, 1, 2]);
    let lp2 = Loop::new(vec![5, 9, 7, 6]);
    assert_eq!(lp2.0, vec![5, 9, 7, 6]);
}

#[test]
fn loop_edges_normalize_pairs() {
    let lp = Loop::new(vec![0, 2, 1]);
    assert_eq!(lp.edges(), vec![(0, 2), (1, 2), (0, 1)]);
}

#[test]
fn loop_perimeter_sums_distances() {
    let mesh = square_loop_mesh();
    let lp = Loop::new(vec![0, 1, 2, 3]);
    assert_eq!(lp.perimeter(&mesh.vertices), 8000);
    let diag = Loop::new(vec![0, 2]);
    // Each diagonal is sqrt(2) * 2000, rounded down.
    assert_eq!(diag.perimeter(&mesh.vertices), 2 * 2828);
}

#[test]
fn extract_loops_finds_the_square() {
    let mesh = square_loop_mesh();
    let loops = extract_loops(&mesh);
    // The single outline is traced in both orientations; each canonical
    // form appears exactly once.
    assert!(loops.iter().any(|l| l.0 == vec![0, 1, 2, 3]));
    for l in &loops {
        assert_eq!(l.0.len(), 4);
        assert_eq!(l.0[0], 0);
    }
}

#[test]
fn single_loop_import_yields_no_cells() {
    // A lone closed outline is the traced mesh's outer boundary, and the
    // maximum-perimeter loop is always discarded: a single loop never
    // represents a playable cell, so the cell list is empty.
    let mesh = square_loop_mesh();
    let prim = Primitive {
        mode: PrimitiveMode::Lines,
        index_data: lines_to_bytes(&[(0, 1), (1, 2), (2, 3), (3, 0)]),
        vertices: mesh.vertices.clone(),
    };
    let outcome = import_primitives(&vec![prim]);
    assert_eq!(outcome.boards.len(), 1);
    assert!(outcome.boards[0].is_empty());
    assert_eq!(outcome.meshes.len(), 1);
    assert!(outcome.issues.is_empty());
}

#[test]
fn two_cell_import_reconstructs_adjacency() {
    let mesh = two_cell_mesh();
    let prim = Primitive {
        mode: PrimitiveMode::Lines,
        index_data: lines_to_bytes(&[(0, 1), (1, 2), (2, 3), (3, 4), (4, 5), (5, 0), (1, 4)]),
        vertices: mesh.vertices.clone(),
    };
    let outcome = import_primitives(&vec![prim]);
    assert_eq!(outcome.boards.len(), 1);
    let cells = &outcome.boards[0];
    // The outer boundary is discarded; the two faces survive.
    assert_eq!(cells.len(), 2);
    for cell in cells.iter() {
        assert_eq!(cell.shape.points.len(), 4);
        // Each face shares exactly one segment: the middle edge.
        assert_eq!(cell.neighbors.len(), 1);
    }
    let mut centroids: Vec<(i64, i64)> =
        cells.iter().map(|c| (c.position.x, c.position.y)).collect();
    centroids.sort();
    assert_eq!(centroids, vec![(1000, 1000), (3000, 1000)]);
}

#[test]
fn decode_pairs_little_endian() {
    let data = vec![1, 0, 2, 0, 0, 1, 255, 255];
    assert_eq!(decode_u16_pairs(&data), Some(vec![(1, 2), (256, 65535)]));
    assert_eq!(decode_u16_pairs(&vec![1, 0, 2]), None);
}

#[test]
fn decode_triples_little_endian() {
    let data = vec![1, 0, 2, 0, 3, 0];
    assert_eq!(decode_u16_triples(&data), Some(vec![(1, 2, 3)]));
    assert_eq!(decode_u16_triples(&vec![0; 8]), None);
}

#[test]
fn triangle_primitives_pass_through() {
    let prim = Primitive {
        mode: PrimitiveMode::Triangles,
        index_data: vec![0, 0, 1, 0, 2, 0],
        vertices: vec![p3(0, 0), p3(1000, 0), p3(0, 1000)],
    };
    let outcome = import_primitives(&vec![prim]);
    assert!(outcome.boards.is_empty());
    assert_eq!(outcome.meshes.len(), 1);
    match &outcome.meshes[0] {
        Mesh::IndexedTriMesh { vertices, triangles } => {
            assert_eq!(vertices.len(), 3);
            assert_eq!(triangles, &vec![(0, 1, 2)]);
        },
        Mesh::IndexedLineMesh { .. } => panic!("expected a triangle mesh"),
    }
}

#[test]
fn unsupported_modes_fail_only_their_primitive() {
    let good = Primitive {
        mode: PrimitiveMode::Lines,
        index_data: lines_to_bytes(&[(0, 1), (1, 2), (2, 3), (3, 0)]),
        vertices: square_loop_mesh().vertices,
    };
    let strip = Primitive {
        mode: PrimitiveMode::LineStrip,
        index_data: vec![],
        vertices: vec![],
    };
    let points = Primitive {
        mode: PrimitiveMode::Points,
        index_data: vec![],
        vertices: vec![p3(0, 0)],
    };
    let outcome = import_primitives(&vec![strip, points, good]);
    assert_eq!(outcome.meshes.len(), 1);
    assert_eq!(outcome.mesh_sources, vec![2]);
    assert_eq!(outcome.issues, vec![(0, ImportIssue::UnsupportedMode), (
        1,
        ImportIssue::PointsSkipped,
    )]);
}

#[test]
fn outcome_sources_follow_input_order() {
    let line_prim = |dx: i64| Primitive {
        mode: PrimitiveMode::Lines,
        index_data: lines_to_bytes(&[(0, 1), (1, 2), (2, 3), (3, 0)]),
        vertices: vec![p3(dx, 0), p3(dx + 2000, 0), p3(dx + 2000, 2000), p3(dx, 2000)],
    };
    let tri_prim = Primitive {
        mode: PrimitiveMode::Triangles,
        index_data: vec![0, 0, 1, 0, 2, 0],
        vertices: vec![p3(0, 0), p3(1000, 0), p3(0, 1000)],
    };
    let skipped = Primitive {
        mode: PrimitiveMode::TriangleFan,
        index_data: vec![],
        vertices: vec![],
    };
    let outcome = import_primitives(&vec![line_prim(0), skipped, tri_prim, line_prim(9000)]);
    // One mesh per supported primitive, in input order.
    assert_eq!(outcome.mesh_sources, vec![0, 2, 3]);
    assert_eq!(outcome.meshes.len(), 3);
    // One board per usable lines primitive, in input order.
    assert_eq!(outcome.board_sources, vec![0, 3]);
    assert_eq!(outcome.boards.len(), 2);
    assert_eq!(outcome.issues, vec![(1, ImportIssue::UnsupportedMode)]);
}

#[test]
fn bad_index_data_is_reported() {
    let prim = Primitive {
        mode: PrimitiveMode::Lines,
        index_data: vec![1, 0, 2],
        vertices: vec![p3(0, 0), p3(1000, 0)],
    };
    let outcome = import_primitives(&vec![prim]);
    assert!(outcome.meshes.is_empty());
    assert_eq!(outcome.issues, vec![(0, ImportIssue::BadIndexData)]);
}

#[test]
fn out_of_range_indices_are_reported() {
    let prim = Primitive {
        mode: PrimitiveMode::Lines,
        index_data: lines_to_bytes(&[(0, 9)]),
        vertices: vec![p3(0, 0), p3(1000, 0)],
    };
    let outcome = import_primitives(&vec![prim]);
    // The mesh itself still passes through; only board reconstruction is
    // skipped.
    assert_eq!(outcome.meshes.len(), 1);
    assert!(outcome.boards.is_empty());
    assert_eq!(outcome.issues, vec![(0, ImportIssue::IndexOutOfRange)]);
}

#[test]
fn mesh_neighbors_lists_other_endpoints() {
    let mesh = two_cell_mesh();
    assert_eq!(mesh.neighbors(1), vec![0, 2, 4]);
    assert_eq!(mesh.neighbors(5), vec![4, 0]);
}

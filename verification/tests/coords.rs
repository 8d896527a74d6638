use grid_builder::basic_grid::hex;
use grid_builder::basic_grid::square;
use grid_builder::basic_grid::{GridCell, GridCorner};
use grid_builder::geom::Point2;
use grid_builder::util::MinMax;

#[test]
fn square_pick_round_trip() {
    for &(x, y) in &[(0i64, 0i64), (1, 0), (-3, 7), (250, -1024), (999_999, -999_999)] {
        let c = square::Cell { x, y };
        let p = c.position();
        assert_eq!(square::Cell::pick(p), c);
    }
}

#[test]
fn square_pick_rounds_to_nearest() {
    // 0.999 world units is still cell 0; exactly half rounds away from zero.
    assert_eq!(square::Cell::pick(Point2 { x: 999, y: 0 }), square::Cell { x: 0, y: 0 });
    assert_eq!(square::Cell::pick(Point2 { x: 1000, y: 0 }), square::Cell { x: 1, y: 0 });
    assert_eq!(square::Cell::pick(Point2 { x: -1000, y: -2999 }), square::Cell { x: -1, y: -1 });
}

#[test]
fn square_position_and_shape() {
    let c = square::Cell { x: 2, y: -1 };
    assert_eq!(c.position(), Point2 { x: 4000, y: -2000 });
    let shape = c.shape();
    assert_eq!(shape.points.len(), 4);
    assert_eq!(shape.points[0], Point2 { x: 3000, y: -3000 });
    assert_eq!(shape.points[1], Point2 { x: 5000, y: -3000 });
    assert_eq!(shape.points[2], Point2 { x: 5000, y: -1000 });
    assert_eq!(shape.points[3], Point2 { x: 3000, y: -1000 });
}

#[test]
fn square_corners_and_lines() {
    let c = square::Cell { x: 0, y: 0 };
    let corners = c.corners();
    assert_eq!(corners.len(), 4);
    assert_eq!(corners[0], square::Corner { x: 0, y: 0 });
    assert_eq!(corners[2], square::Corner { x: 1, y: 1 });
    let lines = c.lines();
    assert_eq!(lines.len(), 4);
    assert_eq!(lines[0].a, corners[0]);
    assert_eq!(lines[0].b, corners[1]);
    assert_eq!(lines[3].a, corners[3]);
    assert_eq!(lines[3].b, corners[0]);
    // The corner lattice sits half a cell below-left of the cell centers.
    assert_eq!(corners[0].position(), Point2 { x: -1000, y: -1000 });
}

#[test]
fn square_neighbor_symmetry() {
    let a = square::Cell { x: 4, y: 9 };
    for b in a.neighbors() {
        assert!(a.adjacent_to(&b));
        assert!(b.adjacent_to(&a));
    }
    let far = square::Cell { x: 6, y: 9 };
    assert!(!a.adjacent_to(&far));
    assert!(!far.adjacent_to(&a));
}

#[test]
fn square_edge_reciprocity() {
    let a = square::Cell { x: 0, y: 0 };
    for b in a.neighbors() {
        let e = a.neighboring_edge(&b);
        let back = b.neighboring_edge(&a);
        assert_eq!(e.reverse(), back);
    }
}

#[test]
fn hex_pick_exactness() {
    // The cube-rounding correction must not shift the picked cell.
    let c = hex::Cell { q: 2, r: -1 };
    let p = c.position();
    assert_eq!(hex::Cell::pick(p), hex::Cell { q: 2, r: -1 });
}

#[test]
fn hex_pick_round_trip() {
    for &(q, r) in &[(0i64, 0i64), (1, 0), (0, 1), (-5, 3), (40, -40), (123, 456)] {
        let c = hex::Cell { q, r };
        assert_eq!(hex::Cell::pick(c.position()), c);
    }
}

#[test]
fn hex_pick_round_trip_far_from_origin() {
    // The fractional cube coordinates invert the center map exactly, so
    // the round trip holds at any radius, not just near the origin.
    for &(q, r) in &[
        (0i64, 8523i64),
        (8523, -8523),
        (123_456_789, -987_654_321),
        (1_000_000_000_000, -1_000_000_000_000),
        (-999_999_999_999, 999_999_999_998),
    ] {
        let c = hex::Cell { q, r };
        assert_eq!(hex::Cell::pick(c.position()), c);
    }
}

#[test]
fn hex_position_and_shape() {
    let c = hex::Cell { q: 1, r: 1 };
    assert_eq!(c.position(), Point2 { x: 1500, y: 866 + 1732 });
    let shape = c.shape();
    assert_eq!(shape.points.len(), 6);
    assert_eq!(shape.points[0], Point2 { x: 2500, y: 2598 });
    assert_eq!(shape.points[3], Point2 { x: 500, y: 2598 });
}

#[test]
fn hex_corners_shared_between_neighbors() {
    // The right corner of a hex is the left corner pair value reused by
    // its right-hand neighbors: corner identity is pure coordinate
    // equality.
    let a = hex::Cell { q: 0, r: 0 };
    let b = hex::Cell { q: 1, r: 0 };
    let ca = a.corners();
    let cb = b.corners();
    assert!(ca.iter().any(|x| cb.contains(x)));
}

#[test]
fn hex_neighbor_symmetry() {
    let a = hex::Cell { q: -2, r: 5 };
    for b in a.neighbors() {
        assert!(a.adjacent_to(&b));
        assert!(b.adjacent_to(&a));
    }
    assert!(!a.adjacent_to(&hex::Cell { q: -2, r: 7 }));
}

#[test]
fn hex_edge_reciprocity() {
    let a = hex::Cell { q: 3, r: -2 };
    for b in a.neighbors() {
        let e = a.neighboring_edge(&b);
        let back = b.neighboring_edge(&a);
        assert_eq!(e.reverse(), back);
    }
}

#[test]
fn grid_cell_dispatch() {
    let s = GridCell::Square(square::Cell { x: 1, y: 2 });
    assert_eq!(s.position(), Point2 { x: 2000, y: 4000 });
    assert_eq!(s.neighbors().len(), 4);
    let h = GridCell::Hex(hex::Cell { q: 0, r: 0 });
    assert_eq!(h.neighbors().len(), 6);
    // Cells of different tilings are never adjacent.
    assert!(!s.adjacent_to(&h));
}

#[test]
fn corner_min_max_orders_lexicographically() {
    let a = square::Corner { x: 1, y: 5 };
    let b = square::Corner { x: 1, y: 2 };
    assert_eq!(a.min_max(b), (b, a));
    assert_eq!(b.min_max(a), (b, a));
    let ha = GridCorner::Hex(hex::Corner { q: 0, r: 0, left: true });
    let hb = GridCorner::Hex(hex::Corner { q: 0, r: 0, left: false });
    assert_eq!(ha.min_max(hb), (hb, ha));
}

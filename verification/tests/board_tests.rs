use grid_builder::basic_grid::square;
use grid_builder::board::{Board, Keyframe, Path};
use grid_builder::geom::Point2;

#[test]
fn contains_center_and_far_point() {
    let shape = square::Cell { x: 0, y: 0 }.shape();
    assert!(shape.contains(Point2 { x: 0, y: 0 }));
    // (100, 100) in world units.
    assert!(!shape.contains(Point2 { x: 100_000, y: 100_000 }));
}

#[test]
fn contains_respects_cell_extent() {
    let shape = square::Cell { x: 2, y: -1 }.shape();
    assert!(shape.contains(Point2 { x: 4000, y: -2000 }));
    assert!(shape.contains(Point2 { x: 3100, y: -2900 }));
    assert!(!shape.contains(Point2 { x: 4000, y: 2000 }));
    assert!(!shape.contains(Point2 { x: 0, y: 0 }));
}

#[test]
fn contains_hex_shape() {
    let shape = grid_builder::basic_grid::hex::Cell { q: 0, r: 0 }.shape();
    // A ray exactly through the right-hand corner is a documented
    // degenerate case, so probe slightly off the horizontal axis.
    assert!(shape.contains(Point2 { x: 0, y: 100 }));
    assert!(shape.contains(Point2 { x: 900, y: 10 }));
    assert!(!shape.contains(Point2 { x: 0, y: 2000 }));
}

#[test]
fn board_pick_finds_first_containing_cell() {
    let cells = vec![
        grid_builder::basic_grid::GridCell::Square(square::Cell { x: 0, y: 0 }),
        grid_builder::basic_grid::GridCell::Square(square::Cell { x: 1, y: 0 }),
    ];
    let b = grid_builder::grid::build_board(
        cells,
        grid_builder::grid::Edges::default(),
        grid_builder::grid::SQUARE_ARROW_OFFSET,
    );
    assert_eq!(b.pick(Point2 { x: 0, y: 0 }), Some(0));
    assert_eq!(b.pick(Point2 { x: 2100, y: 100 }), Some(1));
    assert_eq!(b.pick(Point2 { x: 9000, y: 9000 }), None);
}

#[test]
fn keyframes_are_totally_ordered() {
    let a = Keyframe(0);
    let b = Keyframe(500);
    let c = Keyframe(1000);
    assert!(a < b && b < c);
    assert_eq!(a.cmp(&a), std::cmp::Ordering::Equal);
    let mut v = vec![c, a, b];
    v.sort();
    assert_eq!(v, vec![a, b, c]);
}

#[test]
fn simple_path_has_two_keyframes() {
    let p = Path::simple(Point2 { x: 1, y: 2 }, Point2 { x: 3, y: 4 });
    assert_eq!(p.0.len(), 2);
    assert_eq!(p.0[0], (Keyframe(0), Point2 { x: 1, y: 2 }));
    assert_eq!(p.0[1], (Keyframe(1000), Point2 { x: 3, y: 4 }));
}

#[test]
fn empty_board_picks_nothing() {
    let b = Board::default();
    assert_eq!(b.pick(Point2 { x: 0, y: 0 }), None);
}

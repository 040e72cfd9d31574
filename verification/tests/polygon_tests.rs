use raycaster::framebuffer::pixel_index;
use raycaster::polygon::{fill_spans, polygon_edges};

#[test]
fn triangle_has_three_closing_sides() {
    assert_eq!(polygon_edges(3), vec![(0, 1), (1, 2), (2, 0)]);
}

#[test]
fn square_sides() {
    assert_eq!(polygon_edges(4), vec![(0, 1), (1, 2), (2, 3), (3, 0)]);
}

#[test]
fn fewer_than_three_vertices_draw_nothing() {
    assert!(polygon_edges(0).is_empty());
    assert!(polygon_edges(1).is_empty());
    assert!(polygon_edges(2).is_empty());
}

#[test]
fn spans_pair_crossings_two_by_two() {
    assert_eq!(fill_spans(&vec![1, 4, 6, 9]), vec![(1, 4), (6, 9)]);
}

#[test]
fn unpaired_crossing_fills_nothing() {
    assert_eq!(fill_spans(&vec![1, 4, 6]), vec![(1, 4)]);
    assert!(fill_spans(&vec![3]).is_empty());
    assert!(fill_spans(&vec![]).is_empty());
}

#[test]
fn pixel_index_is_row_major_inside_the_screen() {
    assert_eq!(pixel_index(800, 600, 0, 0), Some(0));
    assert_eq!(pixel_index(800, 600, 5, 2), Some(1605));
    assert_eq!(pixel_index(800, 600, 799, 599), Some(479999));
    assert_eq!(pixel_index(800, 600, 800, 0), None);
    assert_eq!(pixel_index(800, 600, 0, 600), None);
    assert_eq!(pixel_index(0, 0, 0, 0), None);
}

use raycaster::caster::{probe, Probe};
use raycaster::maze::{cell_at, parse_maze};
use raycaster::player::is_walkable;

fn rows(m: &Vec<Vec<char>>) -> Vec<String> {
    m.iter().map(|r| r.iter().collect()).collect()
}

#[test]
fn parse_splits_lines() {
    let m = parse_maze("+-+\n| |\n+-+\n");
    assert_eq!(rows(&m), vec!["+-+", "| |", "+-+"]);
}

#[test]
fn parse_keeps_unterminated_last_line() {
    let m = parse_maze("ab\ncd");
    assert_eq!(rows(&m), vec!["ab", "cd"]);
}

#[test]
fn parse_empty_text_has_no_rows() {
    assert!(parse_maze("").is_empty());
}

#[test]
fn parse_keeps_empty_lines() {
    let m = parse_maze("\n\nx\n");
    assert_eq!(rows(&m), vec!["", "", "x"]);
}

#[test]
fn parse_drops_carriage_return_before_newline() {
    let m = parse_maze("a \r\nb\r");
    assert_eq!(rows(&m), vec!["a ", "b\r"]);
}

#[test]
fn parse_round_trip_writes_back() {
    let text = "+--+\n|  g\n+--+";
    let m = parse_maze(text);
    let mut back = String::new();
    for r in rows(&m) {
        back.push_str(&r);
        back.push('\n');
    }
    assert_eq!(back, format!("{}\n", text));
}

#[test]
fn cell_lookup_handles_ragged_rows() {
    let m = parse_maze("abc\nd\n");
    assert_eq!(cell_at(&m, 2, 0), Some('c'));
    assert_eq!(cell_at(&m, 0, 1), Some('d'));
    assert_eq!(cell_at(&m, 1, 1), None);
    assert_eq!(cell_at(&m, 0, 2), None);
}

#[test]
fn probe_classifies_pixels() {
    let m = parse_maze("+-+\n| g\n+-+\n");
    assert_eq!(probe(&m, 150, 150, 100), Probe::Open);
    assert_eq!(probe(&m, 50, 150, 100), Probe::Wall('|'));
    assert_eq!(probe(&m, 250, 150, 100), Probe::Wall('g'));
    assert_eq!(probe(&m, 350, 150, 100), Probe::Outside);
    assert_eq!(probe(&m, 50, 399, 100), Probe::Outside);
    assert_eq!(probe(&m, 99, 99, 100), Probe::Wall('+'));
}

#[test]
fn walkable_floor_only() {
    let m = parse_maze("+-+\n| g\n+G+\n");
    assert!(is_walkable(&m, 150, 150, 100));
    assert!(!is_walkable(&m, 250, 150, 100));
    assert!(!is_walkable(&m, 150, 250, 100));
    assert!(!is_walkable(&m, 50, 150, 100));
    assert!(!is_walkable(&m, 350, 150, 100));
    assert!(!is_walkable(&m, 150, 350, 100));
}

#[test]
fn walkable_cells_law_on_a_grid() {
    let m = parse_maze("+ g\n G+\n");
    for x in 0..40usize {
        for y in 0..30usize {
            let p = probe(&m, x, y, 10);
            let w = is_walkable(&m, x, y, 10);
            assert_eq!(w, p == Probe::Open);
            if w {
                assert!(p != Probe::Outside);
            }
        }
    }
}

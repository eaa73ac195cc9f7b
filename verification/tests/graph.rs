use olympic_lib::graph::{RectangleBfs, RectangleGraph};

fn grid(rows: &[&str]) -> Vec<Vec<char>> {
    rows.iter().map(|r| r.chars().collect()).collect()
}

#[test]
fn new_transposes_and_applies_the_closure() {
    let cells = grid(&[".*.", "**."]);
    let g = RectangleGraph::new(&cells, |c: char| c == '.');
    assert_eq!(g.width, 3);
    assert_eq!(g.height, 2);
    assert!(g.bstate(0, 0));
    assert!(!g.bstate(1, 0));
    assert!(g.bstate(2, 0));
    assert!(!g.bstate(0, 1));
    assert!(!g.bstate(1, 1));
    assert!(g.bstate(2, 1));
    assert_eq!(g.ustate(0, 0), 1);
    assert_eq!(g.ustate(1, 0), 0);
}

#[test]
fn degrees_counts_active_and_inactive_neighbours() {
    let cells = grid(&[".*.", "**."]);
    let g = RectangleGraph::new(&cells, |c: char| c == '.');
    // (2, 0): neighbour up (2, 1) is active, left (1, 0) is inactive.
    assert_eq!(g.degrees((2, 0)), (1, 1));
    // (0, 0): right (1, 0) and up (0, 1) are both inactive.
    assert_eq!(g.degrees((0, 0)), (0, 2));
    // (1, 0): right (2, 0) and left (0, 0) active, up (1, 1) inactive.
    assert_eq!(g.degrees((1, 0)), (2, 1));
}

#[test]
fn neighbours_lists_active_cells_in_probe_order() {
    let cells = grid(&["...", "..."]);
    let g = RectangleGraph::new(&cells, |c: char| c == '.');
    // Probe order: right, up, left, down.
    assert_eq!(g.neighbours((1, 0)), vec![(2, 0), (1, 1), (0, 0)]);
    assert_eq!(g.neighbours((0, 0)), vec![(1, 0), (0, 1)]);
    assert_eq!(g.neighbours((2, 1)), vec![(1, 1), (2, 0)]);
}

#[test]
fn has_edge_only_between_adjacent_active_cells() {
    let cells = grid(&[".*.", "**."]);
    let g = RectangleGraph::new(&cells, |c: char| c == '.');
    assert!(g.has_edge((2, 0), (2, 1)));
    assert!(g.has_edge((2, 1), (2, 0)));
    assert!(!g.has_edge((2, 0), (1, 0)));
    assert!(!g.has_edge((0, 0), (2, 0)));
    assert!(!g.has_edge((0, 0), (0, 0)));
}

#[test]
fn components_gathers_connected_active_cells() {
    let cells = grid(&[".*.", "**."]);
    let g = RectangleGraph::new(&cells, |c: char| c == '.');
    let comps = g.components();
    assert_eq!(comps, vec![vec![(0, 0)], vec![(2, 0), (2, 1)]]);
}

#[test]
fn components_of_a_full_grid_is_one_group() {
    let cells = grid(&["..", ".."]);
    let g = RectangleGraph::new(&cells, |c: char| c == '.');
    let comps = g.components();
    assert_eq!(comps.len(), 1);
    let mut cellset = comps[0].clone();
    cellset.sort();
    assert_eq!(cellset, vec![(0, 0), (0, 1), (1, 0), (1, 1)]);
}

#[test]
fn components_of_an_inactive_grid_is_empty() {
    let cells = grid(&["**", "**"]);
    let g = RectangleGraph::new(&cells, |c: char| c == '.');
    let comps = g.components();
    assert!(comps.is_empty());
}

#[test]
fn bfs_next_hands_out_queued_cells_breadth_first() {
    let cells = grid(&["...", "..."]);
    let g = RectangleGraph::new(&cells, |c: char| c == '.');
    let mut bfs = RectangleBfs::new(&g);
    assert!(!bfs.is_visited(&(1, 0)));
    bfs.spawn((0, 0));
    assert_eq!(bfs.next(), Some((0, 0)));
    assert!(bfs.is_visited(&(1, 0)));
    // Neighbours of (0, 0) in probe order: (1, 0) then (0, 1).
    assert_eq!(bfs.next(), Some((1, 0)));
    assert_eq!(bfs.next(), Some((0, 1)));
    assert_eq!(bfs.next(), Some((2, 0)));
    assert_eq!(bfs.next(), Some((1, 1)));
    // A bare spawn does not mark its seed, so the sweep through (1, 0)'s
    // neighbours discovered (0, 0) again; the components sweep marks each
    // seed before spawning it and never re-emits a cell.
    assert_eq!(bfs.next(), Some((0, 0)));
    assert_eq!(bfs.next(), Some((2, 1)));
    assert_eq!(bfs.next(), None);
}

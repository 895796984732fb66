use solver::graph::closed_loops;

#[test]
fn two_separate_loops_are_found_in_walk_order() {
    // 0 -> 1 -> 2 -> 0 and 3 -> 4 -> 3
    let adj = vec![vec![1], vec![2], vec![0], vec![4], vec![3]];
    assert_eq!(closed_loops(&adj), Some(vec![vec![0, 1, 2], vec![3, 4]]));
}

#[test]
fn a_point_with_two_next_points_gives_none() {
    let adj = vec![vec![1, 2], vec![0], vec![0]];
    assert_eq!(closed_loops(&adj), None);
}

#[test]
fn a_point_without_next_point_gives_none() {
    let adj = vec![vec![1], vec![]];
    assert_eq!(closed_loops(&adj), None);
}

#[test]
fn an_empty_graph_has_no_loops() {
    let adj: Vec<Vec<usize>> = vec![];
    assert_eq!(closed_loops(&adj), Some(vec![]));
}

#[test]
fn a_single_point_leading_to_itself_is_a_loop() {
    assert_eq!(closed_loops(&vec![vec![0]]), Some(vec![vec![0]]));
}

#[test]
fn a_walk_that_passes_every_point_before_closing_reports_no_loop() {
    // 0 -> 1 -> 2 -> 1: every point is passed before the walk comes back to 0.
    let adj = vec![vec![1], vec![2], vec![1]];
    assert_eq!(closed_loops(&adj), Some(vec![]));
}

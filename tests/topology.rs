use graph_walker::topology::{grid_neighbours, grid_neighbours_3d, topology_2d, topology_3d};

fn index(size: u32, row: u32, col: u32) -> u32 {
    row * size + col
}

fn neighbour_set(size: u32, row: u32, col: u32) -> Vec<u32> {
    let n = grid_neighbours(size, index(size, row, col));
    vec![n.top, n.bottom, n.left, n.right]
}

#[test]
fn neighbours_of() {
    let neighbours = neighbour_set(100, 1, 1);

    assert_eq!(neighbours.len(), 4);
    assert_eq!(neighbours.contains(&index(100, 0, 1)), true); // TOP
    assert_eq!(neighbours.contains(&index(100, 2, 1)), true); // BOTTOM
    assert_eq!(neighbours.contains(&index(100, 1, 0)), true); // LEFT
    assert_eq!(neighbours.contains(&index(100, 1, 2)), true); // RIGHT
}

#[test]
fn neighbours_of_top_right() {
    let neighbours = neighbour_set(100, 0, 99);

    assert_eq!(neighbours.len(), 4);
    assert_eq!(neighbours.contains(&index(100, 99, 99)), true); // TOP
    assert_eq!(neighbours.contains(&index(100, 1, 99)), true); // BOTTOM
    assert_eq!(neighbours.contains(&index(100, 0, 0)), true); // RIGHT, wrapped
    assert_eq!(neighbours.contains(&index(100, 0, 98)), true); // LEFT
}

#[test]
fn neighbours_of_bottom_right() {
    let neighbours = neighbour_set(100, 99, 0);

    assert_eq!(neighbours.len(), 4);
    assert_eq!(neighbours.contains(&index(100, 98, 0)), true); // TOP
    assert_eq!(neighbours.contains(&index(100, 0, 0)), true); // BOTTOM, wrapped
    assert_eq!(neighbours.contains(&index(100, 99, 99)), true); // LEFT, wrapped
    assert_eq!(neighbours.contains(&index(100, 99, 1)), true); // RIGHT
}

#[test]
fn corner_top_neighbour_wraps_to_bottom_row() {
    let n = grid_neighbours(4, 0);
    assert_eq!(n.top, 12);
    assert_eq!(n.right, 1);
    assert_eq!(n.bottom, 4);
    assert_eq!(n.left, 3);
}

#[test]
fn four_by_four_has_four_distinct_neighbours_everywhere() {
    let edges = topology_2d(4);
    assert_eq!(edges.len(), 16);
    for (i, e) in edges.iter().enumerate() {
        let mut v = vec![e.top, e.right, e.bottom, e.left];
        assert_eq!(e.size, 4);
        assert!(!v.contains(&(i as u32)));
        v.sort();
        v.dedup();
        assert_eq!(v.len(), 4);
    }
}

#[test]
fn neighbour_of_neighbour_returns_through_opposite_slot() {
    let edges = topology_2d(5);
    for (i, e) in edges.iter().enumerate() {
        let i = i as u32;
        assert_eq!(edges[e.top as usize].bottom, i);
        assert_eq!(edges[e.bottom as usize].top, i);
        assert_eq!(edges[e.left as usize].right, i);
        assert_eq!(edges[e.right as usize].left, i);
    }
}

#[test]
fn single_cell_grid_loops_to_itself() {
    let edges = topology_2d(1);
    assert_eq!(edges.len(), 1);
    let e = edges[0];
    assert_eq!((e.top, e.right, e.bottom, e.left), (0, 0, 0, 0));
}

#[test]
fn two_by_two_grid_wraps_both_ways_to_the_same_cell() {
    let n = grid_neighbours(2, 3);
    assert_eq!((n.top, n.right, n.bottom, n.left), (1, 2, 1, 2));
}

#[test]
fn cube_corner_neighbours_wrap_on_every_axis() {
    // top, right, bottom, left, front, back
    assert_eq!(grid_neighbours_3d(3, 0), [18, 1, 9, 2, 6, 3]);
}

#[test]
fn cube_neighbour_of_neighbour_returns_through_opposite_slot() {
    let edges = topology_3d(4);
    assert_eq!(edges.len(), 64);
    let back_slot = [2, 3, 0, 1, 5, 4];
    for (i, e) in edges.iter().enumerate() {
        for k in 0..6 {
            assert_eq!(edges[e[k] as usize][back_slot[k]], i as u32);
        }
        let mut v = e.to_vec();
        v.sort();
        v.dedup();
        assert_eq!(v.len(), 6);
    }
}

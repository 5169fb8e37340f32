use maze_walk::GridDirection::{Down, Left, Right, Up};
use maze_walk::{overlay_distances, Distances, GridDirection, GridMaze, GridNode, TextStyle, WorldDirections};
use std::collections::hash_map::DefaultHasher;
use std::hash::{Hash, Hasher};

#[test]
fn create_new_maze_with_9_nodes() {
    let maze = GridMaze::new(3, 3);
    assert_eq!(maze.nodes.len(), 9);
}

#[test]
fn should_create_new_maze_with_all_nodes_of_weight_1() {
    let maze = GridMaze::new(3, 3);
    for node in &maze.nodes {
        assert_eq!(node.weight(), 1);
    }
}

#[test]
fn maze_has_3x4_dimension() {
    let maze = GridMaze::new(3, 4);
    let (r, c) = maze.dimensions();
    assert_eq!(r, 3);
    assert_eq!(c, 4);
}

#[test]
fn should_bi_link_two_nodes() {
    let mut maze = GridMaze::new(3, 3);
    let n1 = maze.nodes[0];
    let n2 = maze.nodes[1];
    maze.link(&n1, &n2, true);
    assert!(!maze.links[n1.idx()].is_empty());
    assert!(maze.links[n1.idx()].contains(&n2.idx()));
    assert!(!maze.links[n2.idx()].is_empty());
    assert!(maze.links[n2.idx()].contains(&n1.idx()));
}

#[test]
fn should_get_links() {
    let mut maze = GridMaze::new(3, 3);
    let n00 = maze.nodes[0];
    let n01 = maze.nodes[1];
    let n10 = maze.nodes[3];
    maze.link(&n00, &n01, true);
    maze.link(&n00, &n10, true);
    let n0_links = maze.get_links(&n00);
    assert_eq!(n0_links.len(), 2);
}

#[test]
fn should_index_into_graph() {
    let maze = GridMaze::new(3, 3);
    let node11 = maze.nodes[4];
    assert_eq!(node11.idx(), 4);
}

#[test]
fn node_0_should_not_have_north_neighbor() {
    let maze = GridMaze::new(3, 3);
    let node0 = maze.nodes[0];
    assert_eq!(maze.up(&node0), None);
}

#[test]
fn node_0_should_not_have_left_neighbor() {
    let maze = GridMaze::new(3, 3);
    let node0 = maze.nodes[0];
    assert_eq!(maze.left(&node0), None);
}

#[test]
fn node_6_should_have_north_neighbor() {
    let maze = GridMaze::new(3, 3);
    let node6 = maze.nodes[6];
    assert_eq!(maze.up(&node6), Some(maze.nodes[3]));
}

#[test]
fn node_2_should_not_have_right_neighbor() {
    let maze = GridMaze::new(3, 3);
    let node = maze.nodes[2];
    assert_eq!(maze.right(&node), None);
}

#[test]
fn node_3_should_have_right_neighbor() {
    let maze = GridMaze::new(3, 3);
    let node = maze.nodes[3];
    assert_eq!(maze.right(&node), Some(maze.nodes[4]));
}

#[test]
fn node_8_should_not_have_right_neighbor() {
    let maze = GridMaze::new(3, 3);
    let node = maze.nodes[8];
    assert_eq!(maze.right(&node), None);
}

#[test]
fn node_4_should_have_all_neighbors() {
    let maze = GridMaze::new(3, 3);
    let node = maze.nodes[4];
    assert_eq!(maze.right(&node), Some(maze.nodes[5]));
    assert_eq!(maze.up(&node), Some(maze.nodes[1]));
    assert_eq!(maze.left(&node), Some(maze.nodes[3]));
    assert_eq!(maze.down(&node), Some(maze.nodes[7]));
}

#[test]
fn directions_map_to_correct_nodes() {
    let maze = GridMaze::new(3, 3);
    let center = &maze.nodes[4];
    let dirs = [Up, Right, Down, Left].iter().map(|d| maze.get_neighbor(center, *d));
    let calls = [maze.up(center), maze.right(center), maze.down(center), maze.left(center)];
    for (a, b) in dirs.zip(calls.iter()) {
        assert_eq!(a, *b);
    }
}

#[test]
fn get_edge_nodes() {
    let maze1 = GridMaze::new(3, 3);
    let m = &maze1.nodes;
    assert_eq!(maze1.get_edge_nodes(Up), vec![m[0], m[1], m[2]]);
    assert_eq!(maze1.get_edge_nodes(Down), vec![m[6], m[7], m[8]]);
    assert_eq!(maze1.get_edge_nodes(Right), vec![m[2], m[5], m[8]]);
    assert_eq!(maze1.get_edge_nodes(Left), vec![m[0], m[3], m[6]]);

    let maze2 = GridMaze::new(1, 1);
    let maze2_single = vec![maze2.nodes[0]];
    assert_eq!(maze2.get_edge_nodes(Up), maze2_single);
    assert_eq!(maze2.get_edge_nodes(Down), maze2_single);
    assert_eq!(maze2.get_edge_nodes(Right), maze2_single);
    assert_eq!(maze2.get_edge_nodes(Left), maze2_single);
}

#[test]
fn index_to_position_conversion() {
    let maze = GridMaze::new(3, 3);
    assert_eq!(maze.idx_to_pos(0), (0, 0));
    assert_eq!(maze.idx_to_pos(2), (2, 0));
    assert_eq!(maze.idx_to_pos(4), (1, 1));
    assert_eq!(maze.idx_to_pos(8), (2, 2));
}

#[test]
fn should_create_new_node() {
    let node = GridNode::new(1, 125);
    assert_eq!(node.idx, 1);
    assert_eq!(node.weight, 125);
}

#[test]
fn equal_idx_should_hash_to_equal_hashes() {
    let mut hasher = DefaultHasher::new();
    let node1 = GridNode::new(1, 111);
    let node2 = GridNode::new(1, 222);
    node1.hash(&mut hasher);

    let mut hasher2 = DefaultHasher::new();
    node2.hash(&mut hasher2);
    assert_eq!(hasher.finish(), hasher2.finish());
}

#[test]
fn nodes_compare_by_index_only() {
    let mut a = GridNode::new(2, 5);
    assert_eq!(a, GridNode::new(2, 9));
    assert_ne!(a, GridNode::new(3, 5));
    a.set_idx(3);
    a.set_weight(-4);
    assert_eq!(a.idx(), 3);
    assert_eq!(a.weight(), -4);
}

#[test]
fn one_way_link_is_not_a_link_back() {
    let mut maze = GridMaze::new(2, 2);
    let a = maze.nodes[0];
    let b = maze.nodes[1];
    maze.link(&a, &b, false);
    assert!(maze.has_node_link(&a, &b));
    assert!(!maze.has_node_link(&b, &a));
    assert!(maze.has_link(&a, GridDirection::Right));
    assert!(!maze.has_link(&b, GridDirection::Left));
    assert!(!maze.has_link(&a, GridDirection::Up));
    assert_eq!(maze.get_links(&b), vec![]);
}

#[test]
fn neighbors_in_order_up_right_down_left() {
    let maze = GridMaze::new(3, 3);
    let n = &maze.nodes;
    assert_eq!(maze.neighbors(&n[4]), vec![n[1], n[5], n[7], n[3]]);
    assert_eq!(maze.neighbors(&n[0]), vec![n[1], n[3]]);
    assert_eq!(maze.neighbors(&n[8]), vec![n[5], n[7]]);
    assert_eq!(maze.neighbors(&n[3]), vec![n[0], n[4], n[6]]);
    assert_eq!(maze.up(&n[3]), Some(n[0]));
    assert_eq!(maze.up(&n[2]), None);
}

#[test]
fn compass_names_follow_directions() {
    let maze = GridMaze::new(3, 3);
    let c = maze.nodes[4];
    assert_eq!(maze.north(&c), maze.up(&c));
    assert_eq!(maze.south(&c), maze.down(&c));
    assert_eq!(maze.east(&c), maze.right(&c));
    assert_eq!(maze.west(&c), maze.left(&c));
}

#[test]
fn direction_offsets() {
    assert_eq!(GridDirection::Up.get_offset(), (0, -1));
    assert_eq!(GridDirection::Right.get_offset(), (1, 0));
    assert_eq!(GridDirection::Down.get_offset(), (0, 1));
    assert_eq!(GridDirection::Left.get_offset(), (-1, 0));
    assert_eq!(GridDirection::all().len(), 4);
}

#[test]
fn rows_and_index_arithmetic() {
    let maze = GridMaze::new(2, 3);
    let rows = maze.iter_rows();
    assert_eq!(rows.len(), 2);
    assert_eq!(rows[1], vec![maze.nodes[3], maze.nodes[4], maze.nodes[5]]);
    assert_eq!(maze.len(), 6);
    assert_eq!(GridMaze::idx_1d(1, 2, 3), 5);
    assert_eq!(maze.iter_nodes().len(), 6);
}

#[test]
fn dead_ends_have_one_passage() {
    let mut maze = GridMaze::new(1, 3);
    let n = maze.nodes.clone();
    maze.link(&n[0], &n[1], true);
    maze.link(&n[1], &n[2], true);
    assert_eq!(maze.dead_ends(), vec![n[0], n[2]]);
}

#[test]
fn random_node_is_in_the_maze() {
    let maze = GridMaze::new(4, 5);
    for _ in 0..50 {
        assert!(maze.random_node().idx() < 20);
    }
}

#[test]
fn distances_follow_passages_and_weights() {
    let mut maze = GridMaze::new(2, 2);
    let n = maze.nodes.clone();
    maze.link(&n[0], &n[1], true);
    maze.link(&n[1], &n[3], true);
    maze.link(&n[0], &n[2], true);
    maze.iter_mut_nodes()[3].set_weight(5);
    let d = maze.distances(&n[0]);
    assert_eq!(d.get(&n[0]), Some(&0));
    assert_eq!(d.get(&n[1]), Some(&1));
    assert_eq!(d.get(&n[2]), Some(&1));
    assert_eq!(d.get(&n[3]), Some(&6));
    assert_eq!(d.root(), n[0]);

    let alone = GridMaze::new(2, 2).distances(&n[3]);
    assert_eq!(alone.get(&n[3]), Some(&0));
    assert_eq!(alone.get(&n[0]), None);
}

#[test]
fn distances_record_and_replace() {
    let root = GridNode::new(0, 1);
    let mut d = Distances::new(root);
    assert_eq!(d.get(&root), Some(&0));
    d.insert(GridNode::new(4, 1), 7);
    assert_eq!(d.get(&GridNode::new(4, 9)), Some(&7));
    d.insert(GridNode::new(4, 1), 2);
    assert_eq!(d.get(&GridNode::new(4, 1)), Some(&2));
    assert_eq!(d.get(&GridNode::new(5, 1)), None);
}

#[test]
fn should_display_maze_with_link_from_00_to_01() {
    let mut maze = GridMaze::new(4, 4);
    let n00 = maze.nodes[0];
    let n01 = maze.nodes[1];
    maze.link(&n00, &n01, true);
    println!("{}", maze.to_string());
}

#[test]
fn plain_drawing_shows_walls_and_passages() {
    let mut maze = GridMaze::new(2, 2);
    let n = maze.nodes.clone();
    maze.link(&n[0], &n[1], true);
    assert_eq!(
        maze.to_string(),
        "+----+----+\n|         |\n+----+----+\n|    |    |\n+----+----+\n"
    );
    maze.link(&n[1], &n[3], false);
    assert_eq!(
        maze.to_string(),
        "+----+----+\n|         |\n+----+    +\n|    |    |\n+----+----+\n"
    );
}

#[test]
fn path_drawing_shows_distances_in_hex() {
    let mut maze = GridMaze::new(1, 3);
    let n = maze.nodes.clone();
    maze.link(&n[0], &n[1], true);
    let mut d = maze.distances(&n[0]);
    assert_eq!(maze.display_path(&d), "+----+----+----+ \n|  0    1 |    |\n+----+----+----+\n");
    d.insert(n[2], 26);
    assert_eq!(maze.display_path(&d), "+----+----+----+ \n|  0    1 | 1a |\n+----+----+----+\n");
    d.insert(n[2], -1);
    assert_eq!(
        maze.display_path(&d),
        "+----+----+----+ \n|  0    1 |ffffffff |\n+----+----+----+\n"
    );
    assert_eq!(maze.render(TextStyle::Path, Some(&d)), maze.display_path(&d));
}

#[test]
fn overlay_shows_zero_where_unrecorded() {
    let mut maze = GridMaze::new(1, 3);
    let n = maze.nodes.clone();
    maze.link(&n[0], &n[1], true);
    let mut d = maze.distances(&n[0]);
    d.insert(n[1], 300);
    assert_eq!(
        overlay_distances(&maze, &d),
        "+----+----+----+\n|   0   12c|   0|\n+----+----+----+\n"
    );
}

#[test]
fn walk_erases_loops() {
    let n: Vec<GridNode> = (0..5).map(|i| GridNode::new(i, 1)).collect();
    let mut path = vec![n[0]];
    GridMaze::extend_walk(&mut path, n[1]);
    GridMaze::extend_walk(&mut path, n[2]);
    GridMaze::extend_walk(&mut path, n[3]);
    assert_eq!(path, vec![n[0], n[1], n[2], n[3]]);
    GridMaze::extend_walk(&mut path, n[1]);
    assert_eq!(path, vec![n[0], n[1]]);
    GridMaze::extend_walk(&mut path, n[0]);
    assert_eq!(path, vec![n[0]]);
}

#[test]
fn carving_links_the_walk_and_marks_it_visited() {
    let mut maze = GridMaze::new(2, 2);
    let n = maze.nodes.clone();
    let mut unvisited = vec![n[1], n[2], n[3]];
    let path = vec![n[2], n[3], n[1]];
    maze.carve_walk(&path, &mut unvisited);
    assert_eq!(unvisited, vec![n[1]]);
    assert_eq!(maze.get_links(&n[2]), vec![n[3]]);
    assert_eq!(maze.get_links(&n[3]), vec![n[2], n[1]]);
    assert_eq!(maze.get_links(&n[1]), vec![n[3]]);
    assert_eq!(maze.get_links(&n[0]), vec![]);
}

#[test]
fn braiding_joins_dead_ends() {
    // 1 x 4 corridor split in two: 0-1 and 2-3; nodes 1 and 2 are dead ends
    let mut maze = GridMaze::new(1, 4);
    let n = maze.nodes.clone();
    maze.link(&n[0], &n[1], true);
    maze.link(&n[2], &n[3], true);
    maze.braid_node(&n[1]);
    assert_eq!(maze.get_links(&n[1]), vec![n[0], n[2]]);
    assert_eq!(maze.get_links(&n[2]), vec![n[3], n[1]]);
    // no longer a dead end: left alone
    maze.braid_node(&n[1]);
    assert_eq!(maze.get_links(&n[1]), vec![n[0], n[2]]);
}

#[test]
fn braiding_prefers_dead_end_neighbours() {
    // 2 x 2: 0-1 and 1-3 linked; 2 has no passage, 0 and 3 are dead ends
    let mut maze = GridMaze::new(2, 2);
    let n = maze.nodes.clone();
    maze.link(&n[0], &n[1], true);
    maze.link(&n[1], &n[3], true);
    for _ in 0..10 {
        let mut m = GridMaze::new(2, 2);
        m.link(&n[0], &n[1], true);
        m.link(&n[1], &n[3], true);
        m.link(&n[3], &n[2], true);
        // 0 and 2 are dead ends; 0's unlinked neighbour is 2 (below), a dead end
        m.braid_node(&n[0]);
        assert_eq!(m.get_links(&n[0]), vec![n[1], n[2]]);
    }
    assert_eq!(maze.dead_ends(), vec![n[0], n[3]]);
}

#[test]
fn braiding_with_a_drawn_value_picks_round_the_candidates() {
    // 3 x 3: the centre's only passage leads up; right, down and left are free
    let n: Vec<GridNode> = GridMaze::new(3, 3).nodes.clone();
    for (pick, expected) in [(0usize, 5usize), (1, 7), (2, 3), (4, 7)] {
        let mut maze = GridMaze::new(3, 3);
        maze.link(&n[4], &n[1], true);
        assert_eq!(maze.braid_candidates_of(&n[4]), vec![5, 7, 3]);
        maze.braid_node_with(&n[4], pick);
        assert_eq!(maze.get_links(&n[4]), vec![n[1], n[expected]]);
    }
    // not a dead end: left alone
    let mut maze = GridMaze::new(3, 3);
    maze.braid_node_with(&n[4], 0);
    assert_eq!(maze.get_links(&n[4]), vec![]);
}

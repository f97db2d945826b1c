use std::collections::HashMap;
use std::sync::{Arc, Mutex};

use graph_walker::agent::AgentSpecies;
use graph_walker::neighbour_data::Neighbours;
use graph_walker::node::Node;
use rand::Rng;
use rayon::iter::{IntoParallelIterator, ParallelIterator};

fn default_node() -> Node {
    let mut edges = HashMap::new();
    edges.insert(0, Neighbours::new(1, 2, 3, 4));
    let node = Node::new(0, &edges);

    assert_eq!(node.agents.blue, 0);
    assert_eq!(node.agents.red, 0);
    node
}

#[test]
fn it_works_with_one_node() {
    let mut node = default_node();

    let agents: Vec<u32> = (0..10).into_par_iter().map(|_| 1).collect();

    node.agents.blue += agents.iter().sum::<u32>();

    assert_eq!(node.agents.blue, 10);
}

#[test]
fn it_works_with_one_node_arc() {
    let node = default_node();

    let arc_node = Arc::new(Mutex::new(node));

    (0..10000).into_par_iter().for_each(|_| {
        let mut node = arc_node.lock().unwrap();
        node.add_agents(1, AgentSpecies::Blue);
    });

    assert_eq!(arc_node.lock().unwrap().agents.blue, 10000);
}

#[test]
fn it_works_with_ten_node_arc() {
    let nodes = vec![default_node(); 10];

    let arc_node = Arc::new(Mutex::new(nodes));
    const SIZE: usize = 1000000;

    (0..SIZE).into_par_iter().for_each(|_| {
        let rng = rand::thread_rng();
        let mut nodes_guard = arc_node.lock().unwrap();
        let node_idx = rng.clone().gen_range(0..nodes_guard.len());
        nodes_guard[node_idx].add_agents(1, AgentSpecies::Blue);
    });

    let total_blue_agents: u32 = arc_node
        .lock()
        .unwrap()
        .iter()
        .map(|node| node.agents.blue)
        .sum();

    assert_eq!(total_blue_agents, SIZE as u32);
}

#[test]
fn node_takes_its_neighbours_from_the_list() {
    let mut edges = HashMap::new();
    edges.insert(0, Neighbours::new(1, 2, 3, 4));
    edges.insert(1, Neighbours::new(5, 6, 7, 8));
    let node = Node::new(1, &edges);
    assert_eq!(node.index, 1);
    assert_eq!(
        (node.neighbours.top, node.neighbours.right, node.neighbours.bottom, node.neighbours.left),
        (5, 6, 7, 8)
    );
}

#[test]
fn agents_with_species_reads_the_right_count() {
    let mut node = default_node();
    node.add_agents(3, AgentSpecies::Red);
    node.add_agents(5, AgentSpecies::Blue);
    assert_eq!(node.get_agents_with_species(AgentSpecies::Red), 3);
    assert_eq!(node.get_agents_with_species(AgentSpecies::Blue), 5);
}

#[test]
fn move_agents_out_counts_per_slot_and_keeps_agents() {
    let mut node = default_node();
    node.add_agents(3, AgentSpecies::Red);
    node.add_agents(2, AgentSpecies::Blue);
    node.move_agents_out(&vec![1, 1, 3], &vec![0, 2]);
    let r = node.agents_out.red;
    let b = node.agents_out.blue;
    assert_eq!((r.top, r.right, r.bottom, r.left), (0, 2, 0, 1));
    assert_eq!((b.top, b.right, b.bottom, b.left), (1, 0, 1, 0));
    assert_eq!((node.agents.red, node.agents.blue), (3, 2));
}

#[test]
fn move_agents_in_reads_the_opposite_slots() {
    // Cell 0 of a one-row strip of three cells: left is 2, right is 1,
    // top and bottom are itself.
    let edges: HashMap<u32, Neighbours> = vec![
        Neighbours::new(0, 1, 0, 2),
        Neighbours::new(1, 2, 1, 0),
        Neighbours::new(2, 0, 2, 1),
    ]
    .into_iter()
    .enumerate()
    .map(|(i, n)| (i as u32, n))
    .collect();
    let mut nodes: Vec<Node> = (0..3).map(|i| Node::new(i, &edges)).collect();
    nodes[1].agents_out.red = Neighbours::new(0, 0, 0, 4); // 4 red go left, to cell 0
    nodes[2].agents_out.red = Neighbours::new(0, 6, 0, 0); // 6 red go right, to cell 0
    nodes[0].agents_out.blue = Neighbours::new(1, 0, 2, 0); // 3 blue stay, via top and bottom
    nodes[1].agents_out.blue = Neighbours::new(0, 9, 0, 0); // 9 blue go right, to cell 2
    let mut cell = nodes[0];
    cell.agents.red = 100;
    cell.move_agents_in(&nodes);
    assert_eq!(cell.agents.red, 10);
    assert_eq!(cell.agents.blue, 3);
}

#[test]
fn node_stream_depends_on_index_and_tick() {
    let mut edges = HashMap::new();
    edges.insert(0, Neighbours::new(0, 0, 0, 0));
    edges.insert(1, Neighbours::new(1, 1, 1, 1));
    let a = Node::new(0, &edges);
    let b = Node::new(1, &edges);
    assert_eq!(a.get_prng(9, 3), a.get_prng(9, 3));
    assert_ne!(a.get_prng(9, 3), b.get_prng(9, 3));
    assert_ne!(a.get_prng(9, 3), a.get_prng(9, 4));
    assert_ne!(a.get_prng(9, 3), a.get_prng(10, 3));
}

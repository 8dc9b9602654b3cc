use satellites::board::Topology;
use satellites::board::NUM_CELLS;

#[test]
fn board_size_is_fixed() {
    let topo = Topology::new();
    assert_eq!(NUM_CELLS, 88);
    assert_eq!(topo.neighbors.len(), 88);
}

#[test]
fn corner_cell_neighbors() {
    let topo = Topology::new();
    // Cell 0 is (row 0, col 0): right neighbor 1, lower neighbors 8 and 9.
    assert_eq!(topo.neighbors[0], vec![1, 8, 9]);
}

#[test]
fn bottom_corner_neighbors() {
    let topo = Topology::new();
    // Cell 80 is (row 8, col 0): right neighbor 81, upper neighbors 71, 72.
    assert_eq!(topo.neighbors[80], vec![81, 71, 72]);
}

#[test]
fn middle_row_edge_cell_neighbors() {
    let topo = Topology::new();
    // Cell 38 is (row 4, col 0), on the widest row: right neighbor 39,
    // upper neighbor 27, lower neighbor 50.
    assert_eq!(topo.neighbors[38], vec![39, 27, 50]);
}

#[test]
fn neighbor_ids_in_range_and_bounded() {
    let topo = Topology::new();
    for nbrs in topo.neighbors.iter() {
        assert!(nbrs.len() <= 6);
        for &e in nbrs.iter() {
            assert!(e < 88);
        }
    }
}

#[test]
fn adjacency_is_symmetric() {
    let topo = Topology::new();
    for (sid, nbrs) in topo.neighbors.iter().enumerate() {
        for &e in nbrs.iter() {
            assert!(topo.neighbors[e].contains(&sid));
        }
    }
}

#[test]
fn total_directed_edges() {
    let topo = Topology::new();
    assert_eq!(topo.num_edges(), 462);
}

#[test]
fn edge_ordinals_walk_every_edge() {
    let topo = Topology::new();
    let total = topo.num_edges();
    let mut ord = 0usize;
    for (sid, nbrs) in topo.neighbors.iter().enumerate() {
        for &e in nbrs.iter() {
            let got = topo.edge_at(ord);
            assert_eq!(got, Some((sid, e)));
            ord += 1;
        }
    }
    assert_eq!(ord, total);
    assert_eq!(topo.edge_at(total), None);
}

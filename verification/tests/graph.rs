use gmrf::gmrf_latent::errors::LatentModelError;
use gmrf::gmrf_latent::graph::Neighborhood;

#[test]
fn neighborhood_reports_degrees_and_edges() {
    let nb = Neighborhood::from_edges(3, &[(0, 1), (1, 2)]).unwrap();
    assert_eq!(nb.node_count(), 3);
    assert_eq!(nb.degrees(), vec![1, 2, 1]);
    assert_eq!(nb.edges(), vec![(0, 1), (1, 2)]);
}

#[test]
fn neighborhood_counts_loops_once_and_parallel_edges_twice() {
    let nb = Neighborhood::from_edges(3, &[(0, 0), (0, 1), (1, 0), (2, 2)]).unwrap();
    assert_eq!(nb.degrees(), vec![3, 2, 1]);
    let degree_sum: usize = nb.degrees().iter().sum();
    let loops = nb.edges().iter().filter(|(a, b)| a == b).count();
    assert_eq!(degree_sum + loops, 2 * nb.edges().len());
}

#[test]
fn neighborhood_rejects_empty_node_set() {
    match Neighborhood::from_edges(0, &[]) {
        Err(LatentModelError::InvalidGraph(m)) => {
            assert_eq!(m, "neighborhood must contain at least one node")
        }
        _ => panic!("expected an invalid graph"),
    }
}

#[test]
fn neighborhood_rejects_out_of_range_edges() {
    match Neighborhood::from_edges(2, &[(0, 1), (1, 2)]) {
        Err(LatentModelError::InvalidGraph(m)) => {
            assert_eq!(m, "edge indices must be within node count")
        }
        _ => panic!("expected an invalid graph"),
    }
}

#[test]
fn neighborhood_without_edges_has_zero_degrees() {
    let nb = Neighborhood::from_edges(4, &[]).unwrap();
    assert_eq!(nb.degrees(), vec![0, 0, 0, 0]);
    assert!(nb.edges().is_empty());
}

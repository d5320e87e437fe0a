use gmrf::gmrf_latent::errors::LatentModelError;
use gmrf::gmrf_latent::graph::Neighborhood;
use gmrf::gmrf_core::linear::kronecker_pairs;
use gmrf::gmrf_latent::models::{
    ar1_stencil, chain_stencil, combine_block_diagonal, rw1_stencil, ChainEntry, LatentBlock,
};

fn rw1_weight(e: ChainEntry) -> i64 {
    match e {
        ChainEntry::FirstDiagonal | ChainEntry::LastDiagonal => 1,
        ChainEntry::InteriorDiagonal => 2,
        ChainEntry::Coupling => -1,
    }
}

#[test]
fn chain_stencil_of_three_nodes() {
    assert_eq!(
        chain_stencil(3),
        vec![
            (0, 0, ChainEntry::FirstDiagonal),
            (0, 1, ChainEntry::Coupling),
            (1, 0, ChainEntry::Coupling),
            (1, 1, ChainEntry::InteriorDiagonal),
            (1, 2, ChainEntry::Coupling),
            (2, 1, ChainEntry::Coupling),
            (2, 2, ChainEntry::LastDiagonal),
        ]
    );
}

#[test]
fn chain_of_one_node_is_its_last_diagonal() {
    assert_eq!(chain_stencil(1), vec![(0, 0, ChainEntry::LastDiagonal)]);
    assert!(chain_stencil(0).is_empty());
}

#[test]
fn ar1_and_rw1_stencils_reject_short_chains() {
    assert!(matches!(
        ar1_stencil(0),
        Err(LatentModelError::InvalidParameters("AR1 chain requires at least one node"))
    ));
    assert_eq!(ar1_stencil(1).unwrap(), chain_stencil(1));
    assert!(matches!(
        rw1_stencil(1),
        Err(LatentModelError::InvalidParameters("RW1 requires at least two nodes"))
    ));
    assert!(matches!(rw1_stencil(0), Err(LatentModelError::InvalidParameters(_))));
    assert_eq!(rw1_stencil(2).unwrap(), chain_stencil(2));
}

#[test]
fn rw1_rows_sum_to_zero() {
    let s = rw1_stencil(5).unwrap();
    for row in 0..5 {
        let sum: i64 = s.iter().filter(|e| e.0 == row).map(|e| rw1_weight(e.2)).sum();
        assert_eq!(sum, 0);
    }
}

#[test]
fn rw1_precision_matches_pattern() {
    let tau = 1.0f64;
    let s = rw1_stencil(3).unwrap();
    let mut diag = vec![0.0; 3];
    for (i, j, role) in s {
        if i == j {
            diag[i] = tau * rw1_weight(role) as f64;
        }
    }
    assert_eq!(diag, vec![1.0, 2.0, 1.0]);
}

#[test]
fn besag_uses_graph_degrees() {
    let neighborhood = Neighborhood::from_edges(3, &[(0, 1), (1, 2)]).unwrap();
    let tau = 1.0f64;
    let mut diag = vec![0.0; neighborhood.node_count()];
    for (i, j, w) in neighborhood.laplacian() {
        if i == j {
            diag[i] = tau * w as f64;
        }
    }
    assert_eq!(diag, vec![1.0, 2.0, 1.0]);
}

#[test]
fn laplacian_lists_degrees_then_edges() {
    let nb = Neighborhood::from_edges(3, &[(0, 1), (1, 2)]).unwrap();
    assert_eq!(
        nb.laplacian(),
        vec![
            (0, 0, 1),
            (1, 1, 2),
            (2, 2, 1),
            (0, 1, -1),
            (1, 0, -1),
            (1, 2, -1),
            (2, 1, -1),
        ]
    );
}

#[test]
fn laplacian_rows_sum_to_zero_without_loops() {
    let nb = Neighborhood::from_edges(4, &[(0, 1), (1, 2), (2, 0), (3, 1)]).unwrap();
    let l = nb.laplacian();
    for row in 0..4 {
        let sum: i64 = l.iter().filter(|e| e.0 == row).map(|e| e.2).sum();
        assert_eq!(sum, 0);
    }
    let looped = Neighborhood::from_edges(2, &[(0, 0), (0, 1)]).unwrap();
    let l = looped.laplacian();
    let sum0: i64 = l.iter().filter(|e| e.0 == 0).map(|e| e.2).sum();
    assert_eq!(sum0, -1);
}

fn iid_block(dimension: usize, value: f64) -> LatentBlock<f64> {
    LatentBlock {
        dimension,
        mean: vec![0.0; dimension],
        precision: Some((0..dimension).map(|i| (i, i, value)).collect()),
    }
}

#[test]
fn block_diagonal_combination_shifts_entries() {
    let a = LatentBlock { dimension: 1, mean: vec![5.0], precision: Some(vec![(0, 0, 1.0)]) };
    let b = LatentBlock {
        dimension: 2,
        mean: vec![-1.0, 2.0],
        precision: Some(vec![(0, 0, 2.0), (1, 0, -0.5), (0, 1, -0.5), (1, 1, 3.0)]),
    };
    let c = combine_block_diagonal(&[a, b]).unwrap();
    assert_eq!(c.dimension, 3);
    assert_eq!(c.mean, vec![5.0, -1.0, 2.0]);
    assert_eq!(
        c.precision.unwrap(),
        vec![(0, 0, 1.0), (1, 1, 2.0), (2, 1, -0.5), (1, 2, -0.5), (2, 2, 3.0)]
    );
}

#[test]
fn block_diagonal_combination_concatenates_means() {
    let a = iid_block(1, 1.0);
    let b = iid_block(2, 1.0);
    let combined = combine_block_diagonal(&[a, b]).unwrap();
    assert_eq!(combined.dimension, 3);
    assert_eq!(combined.precision.unwrap().len(), 3);
}

#[test]
fn block_diagonal_combination_errors() {
    let none: [LatentBlock<f64>; 0] = [];
    assert!(matches!(
        combine_block_diagonal(&none),
        Err(LatentModelError::InvalidParameters("at least one model is required"))
    ));
    let free = LatentBlock { dimension: 2, mean: vec![0.0, 0.0], precision: None };
    assert!(matches!(
        combine_block_diagonal(&[iid_block(1, 1.0), free]),
        Err(LatentModelError::MissingPrecision)
    ));
}

#[test]
fn kronecker_pairs_place_products_in_blocks() {
    let a = [(0usize, 0usize, 2.0f64), (1, 0, 3.0)];
    let b = [(0usize, 1usize, 5.0f64), (1, 1, 7.0)];
    assert_eq!(
        kronecker_pairs(2, 2, &a, 2, 2, &b),
        vec![(0, 1, 2.0, 5.0), (1, 1, 2.0, 7.0), (2, 1, 3.0, 5.0), (3, 1, 3.0, 7.0)]
    );
    let c = [(2usize, 1usize, 1.0f64)];
    let d = [(0usize, 3usize, 1.0f64)];
    let r = kronecker_pairs(3, 3, &c, 4, 4, &d);
    assert_eq!(r, vec![(8, 7, 1.0, 1.0)]);
    assert_eq!((r[0].0 / 4, r[0].0 % 4, r[0].1 / 4, r[0].1 % 4), (2, 0, 1, 3));
}

#[test]
fn kronecker_pairs_of_rectangular_factors() {
    let a = [(1usize, 0usize, 1.0f64)];
    let b = [(0usize, 2usize, 1.0f64), (1, 0, 1.0)];
    let r = kronecker_pairs(2, 1, &a, 2, 3, &b);
    assert_eq!(r, vec![(2, 2, 1.0, 1.0), (3, 0, 1.0, 1.0)]);
    let identity2: Vec<(usize, usize, f64)> = (0..2).map(|i| (i, i, 1.0)).collect();
    let identity3: Vec<(usize, usize, f64)> = (0..3).map(|i| (i, i, 1.0)).collect();
    let k = kronecker_pairs(2, 2, &identity2, 3, 3, &identity3);
    assert_eq!(k.len(), 6);
    let diagonal: Vec<(usize, usize)> = k.iter().map(|e| (e.0, e.1)).collect();
    assert_eq!(diagonal, vec![(0, 0), (1, 1), (2, 2), (3, 3), (4, 4), (5, 5)]);
}

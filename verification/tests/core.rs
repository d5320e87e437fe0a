use gmrf::gmrf_autodiff::jacobian::AutodiffError;
use gmrf::gmrf_core::solver::diagonal_entries;
use gmrf::gmrf_core::types::{select_cholesky_side, CholeskySide, GmrfError, SparseTripletIter};
use gmrf::gmrf_fem::errors::FemError;
use gmrf::gmrf_observation::autodiff::check_prediction_length;
use gmrf::gmrf_observation::errors::ObservationError;
use gmrf::gmrf_observation::gaussian_approximation::GaussianApproximationError;
use gmrf::gmrf_observation::transform::IdentityTransform;
use gmrf::gmrf_spde::errors::SpdeError;
use gmrf::gmrf_viz::errors::VizError;
use gmrf::gmrf_viz::mesh::{check_field_length, MeshPlotOptions};

#[test]
fn cholesky_side_prefers_upper_triangle() {
    assert_eq!(select_cholesky_side(&[(0, 0), (1, 0), (0, 1)]), CholeskySide::Upper);
    assert_eq!(select_cholesky_side(&[(0, 0), (2, 1)]), CholeskySide::Lower);
    assert_eq!(select_cholesky_side(&[(0, 0), (1, 1)]), CholeskySide::Lower);
    assert_eq!(select_cholesky_side(&[]), CholeskySide::Lower);
}

#[test]
fn prediction_length_check() {
    assert!(check_prediction_length(3, 3).is_ok());
    match check_prediction_length(2, 3) {
        Err(ObservationError::DimensionMismatch(m)) => {
            assert_eq!(m, "prediction length must match observed data")
        }
        _ => panic!("expected a dimension mismatch"),
    }
}

#[test]
fn identity_transform_passes_values_through() {
    let t = IdentityTransform::new(3);
    assert_eq!(t.output_dim(), 3);
    assert_eq!(t.pass_through(&[1.0, 2.0, 3.0]).unwrap(), vec![1.0, 2.0, 3.0]);
    assert!(matches!(
        t.pass_through(&[1.0]),
        Err(ObservationError::DimensionMismatch(_))
    ));
}

#[test]
fn error_conversions_wrap_their_source() {
    let e: ObservationError = AutodiffError::DimensionMismatch("gradient length mismatch").into();
    assert!(matches!(e, ObservationError::DimensionMismatch("gradient length mismatch")));
    let s: SpdeError = FemError::MissingNode.into();
    assert!(matches!(s, SpdeError::Fem(FemError::MissingNode)));
    let s: SpdeError = GmrfError::SingularMatrix.into();
    assert!(matches!(s, SpdeError::Core(GmrfError::SingularMatrix)));
    let g: GaussianApproximationError = GmrfError::NonPositiveDefinite.into();
    assert!(matches!(g, GaussianApproximationError::Gmrf(GmrfError::NonPositiveDefinite)));
    let g: GaussianApproximationError = ObservationError::InvalidProbability.into();
    assert!(matches!(g, GaussianApproximationError::Observation(ObservationError::InvalidProbability)));
    let io = std::io::Error::new(std::io::ErrorKind::Other, "disk");
    let f: FemError = io.into();
    assert!(matches!(f, FemError::Io(_)));
    let io = std::io::Error::new(std::io::ErrorKind::Other, "disk");
    let v: VizError = io.into();
    assert!(matches!(v, VizError::Io(_)));
}

#[test]
fn mesh_plot_options_defaults() {
    let o = MeshPlotOptions::default();
    assert_eq!((o.width, o.height, o.margin, o.stroke_width, o.node_radius), (800, 600, 30, 2, 4));
    assert!(o.show_nodes);
}

#[test]
fn triplet_walk_visits_entries_column_by_column() {
    let col_ptr = [0usize, 2, 2, 3];
    let row_idx = [0usize, 2, 1];
    let vals = [1.0f64, 2.0, 3.0];
    let mut it = SparseTripletIter::new(&col_ptr, &row_idx, &vals);
    assert_eq!(it.next(), Some((0, 0, &1.0)));
    assert_eq!(it.next(), Some((2, 0, &2.0)));
    assert_eq!(it.next(), Some((1, 2, &3.0)));
    assert_eq!(it.next(), None);
    assert_eq!(it.next(), None);
}

#[test]
fn triplet_walk_over_empty_columns_yields_nothing() {
    let col_ptr = [0usize, 0, 0];
    let row_idx: [usize; 0] = [];
    let vals: [f64; 0] = [];
    let mut it = SparseTripletIter::new(&col_ptr, &row_idx, &vals);
    assert_eq!(it.next(), None);
}

#[test]
fn jacobi_diagonal_takes_the_first_stored_entry_of_each_row() {
    let triplets = [(0usize, 0usize, 4.0f64), (1, 0, -1.0), (0, 0, 9.0), (2, 2, 2.0), (0, 1, -1.0)];
    assert_eq!(diagonal_entries(3, &triplets), vec![Some(4.0), None, Some(2.0)]);
    let none: [(usize, usize, f64); 0] = [];
    assert_eq!(diagonal_entries(2, &none), vec![None, None]);
}

#[test]
fn field_length_must_match_the_node_count() {
    assert!(check_field_length(4, 4).is_ok());
    assert!(matches!(
        check_field_length(4, 3),
        Err(VizError::DimensionMismatch { expected: 4, actual: 3 })
    ));
}

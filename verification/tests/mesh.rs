use gmrf::gmrf_fem::errors::FemError;
use gmrf::gmrf_fem::mesh::{CellType, ElementConnectivity, Mesh2d};

type Point2 = nalgebra::Vector2<f64>;

#[test]
fn mesh_validation_catches_missing_nodes() {
    let nodes = vec![Point2::new(0.0, 0.0)];
    let elements = vec![ElementConnectivity::Triangle([0, 1, 2])];
    let mesh = Mesh2d::new(nodes, elements);
    assert!(matches!(mesh, Err(FemError::MissingNode)));
}

#[test]
fn mesh_keeps_nodes_and_elements() {
    let nodes = vec![
        Point2::new(0.0, 0.0),
        Point2::new(1.0, 0.0),
        Point2::new(1.0, 1.0),
        Point2::new(0.0, 1.0),
    ];
    let elements = vec![
        ElementConnectivity::Triangle([0, 1, 2]),
        ElementConnectivity::Quadrilateral([0, 1, 2, 3]),
    ];
    let mesh = Mesh2d::new(nodes.clone(), elements.clone()).unwrap();
    assert_eq!(mesh.num_nodes(), 4);
    assert_eq!(mesh.num_elements(), 2);
    assert_eq!(mesh.nodes(), nodes.as_slice());
    assert_eq!(mesh.elements(), elements.as_slice());
}

#[test]
fn element_reports_nodes_and_cell_type() {
    let tri = ElementConnectivity::Triangle([4, 2, 9]);
    let quad = ElementConnectivity::Quadrilateral([1, 0, 3, 2]);
    assert_eq!(tri.node_indices(), vec![4, 2, 9]);
    assert_eq!(quad.node_indices(), vec![1, 0, 3, 2]);
    assert_eq!(tri.cell_type(), CellType::Triangle);
    assert_eq!(quad.cell_type(), CellType::Quadrilateral);
}

#[test]
fn quadrilateral_index_past_the_end_is_missing() {
    let nodes = vec![Point2::new(0.0, 0.0); 4];
    let elements = vec![ElementConnectivity::Quadrilateral([0, 1, 2, 4])];
    assert!(matches!(Mesh2d::new(nodes, elements), Err(FemError::MissingNode)));
}

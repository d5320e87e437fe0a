use gmrf::gmrf_fem::assembly::{element_coordinates, element_scatter};
use gmrf::gmrf_fem::mesh::{ElementConnectivity, Mesh2d};
use gmrf::gmrf_viz::errors::VizError;
use gmrf::gmrf_viz::mesh::check_field_length;

#[test]
fn element_coordinates_follow_the_element_node_order() {
    let nodes = vec![(0.0f64, 0.0f64), (1.0, 0.0), (1.0, 1.0), (0.0, 1.0)];
    let elements = vec![
        ElementConnectivity::Triangle([2, 0, 1]),
        ElementConnectivity::Quadrilateral([0, 1, 2, 3]),
    ];
    let mesh = Mesh2d::new(nodes, elements).unwrap();
    assert_eq!(
        element_coordinates(&mesh, &mesh.elements()[0]),
        vec![(1.0, 1.0), (0.0, 0.0), (1.0, 0.0)]
    );
    assert_eq!(
        element_coordinates(&mesh, &mesh.elements()[1]),
        vec![(0.0, 0.0), (1.0, 0.0), (1.0, 1.0), (0.0, 1.0)]
    );
}

#[test]
fn element_scatter_lists_local_pairs_row_by_row() {
    assert_eq!(
        element_scatter(&[4, 7]),
        vec![(4, 4, 0, 0), (4, 7, 0, 1), (7, 4, 1, 0), (7, 7, 1, 1)]
    );
    let s = element_scatter(&[5, 2, 9]);
    assert_eq!(s.len(), 9);
    for i in 0..3 {
        for j in 0..3 {
            let nodes = [5, 2, 9];
            assert_eq!(s[i * 3 + j], (nodes[i], nodes[j], i, j));
        }
    }
    assert!(element_scatter(&[]).is_empty());
}

#[test]
fn rejects_mismatched_field_length() {
    let nodes = vec![(0.0f64, 0.0f64), (1.0, 0.0), (1.0, 1.0), (0.0, 1.0)];
    let elements = vec![
        ElementConnectivity::Triangle([0, 1, 2]),
        ElementConnectivity::Triangle([0, 2, 3]),
    ];
    let mesh = Mesh2d::new(nodes, elements).unwrap();
    let field = vec![0.0f64; 2];
    let err = check_field_length(mesh.num_nodes(), field.len()).unwrap_err();
    assert!(matches!(err, VizError::DimensionMismatch { .. }));
}

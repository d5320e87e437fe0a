use gmrf::gmrf_fem::errors::FemError;
use gmrf::gmrf_fem::gmsh::{scan_gmsh, GmshFault, GmshScan};
use gmrf::gmrf_fem::mesh::{ElementConnectivity, Mesh2d};

fn text(tok: &[char]) -> String {
    tok.iter().collect()
}

fn mesh_of(scan: GmshScan) -> Result<Mesh2d<(String, String)>, FemError> {
    if let Some(fault) = scan.fault {
        return Err(fault.into_error());
    }
    let nodes = scan
        .coordinates
        .iter()
        .map(|(x, y)| (text(x), text(y)))
        .collect();
    Mesh2d::new(nodes, scan.elements)
}

#[test]
fn parses_simple_triangle_mesh() {
    let msh = r#"$MeshFormat
2.2 0 8
$EndMeshFormat
$Nodes
3
1 0 0 0
2 1 0 0
3 0 1 0
$EndNodes
$Elements
1
1 2 0 1 2 3
$EndElements
"#;

    let gmsh = mesh_of(scan_gmsh(msh)).unwrap();
    assert_eq!(gmsh.num_nodes(), 3);
    assert_eq!(gmsh.num_elements(), 1);
}

#[test]
fn scan_reports_coordinates_and_zero_based_connectivity() {
    let msh = "$Nodes\n4\n1 0 0 0\n2 1.5 0 0\n3 1 1 0\n4 0 -2e1 0\n$EndNodes\n$Elements\n2\n1 3 2 7 8 1 2 3 4\n2 2 0 4 3 1\n";
    let scan = scan_gmsh(msh);
    assert!(scan.fault.is_none());
    let coords: Vec<(String, String)> = scan
        .coordinates
        .iter()
        .map(|(x, y)| (text(x), text(y)))
        .collect();
    assert_eq!(coords[1], ("1.5".to_string(), "0".to_string()));
    assert_eq!(coords[3], ("0".to_string(), "-2e1".to_string()));
    assert_eq!(
        scan.elements,
        vec![
            ElementConnectivity::Quadrilateral([0, 1, 2, 3]),
            ElementConnectivity::Triangle([3, 2, 0]),
        ]
    );
}

#[test]
fn scan_handles_crlf_and_surrounding_whitespace() {
    let msh = "  $Nodes \r\n 3\r\n1\t0 0 0\r\n2 1 0 0\r\n3 0 1 0\r\n$EndNodes\u{00A0}\r\n$Elements\r\n+1\r\n1 2 0 1 2 3\r\n";
    let scan = scan_gmsh(msh);
    assert!(scan.fault.is_none());
    assert_eq!(scan.coordinates.len(), 3);
    assert_eq!(scan.elements, vec![ElementConnectivity::Triangle([0, 1, 2])]);
}

#[test]
fn scan_skips_short_and_unknown_element_records() {
    let msh = "$Nodes\n2\n1 0 0 0\n2 1 0 0\n$EndNodes\n$Elements\n3\n1 15 2 0 1\n2 1 2 0 1 1 2\n3 2 0 1 2 2\n";
    let scan = scan_gmsh(msh);
    assert_eq!(scan.fault, None);
    assert_eq!(scan.elements, vec![ElementConnectivity::Triangle([0, 1, 1])]);
}

fn fault_of(msh: &str) -> Option<GmshFault> {
    scan_gmsh(msh).fault
}

#[test]
fn scan_faults_in_node_section() {
    assert_eq!(fault_of("$Nodes"), Some(GmshFault::MissingNodeCount));
    assert_eq!(fault_of("$Nodes\nthree\n"), Some(GmshFault::InvalidNodeCount));
    assert_eq!(fault_of("$Nodes\n-1\n"), Some(GmshFault::InvalidNodeCount));
    assert_eq!(fault_of("$Nodes\n2\n1 0 0 0\n"), Some(GmshFault::UnexpectedEndOfNodes));
    assert_eq!(fault_of("$Nodes\n1\n1 0 0\n"), Some(GmshFault::InvalidNodeRecord));
    assert_eq!(fault_of("$Nodes\n1\n1 0 0 0\n$End\n"), Some(GmshFault::MissingEndNodes));
    assert_eq!(fault_of("$Nodes\n1\n1 0 0 0\n"), Some(GmshFault::MissingEndNodes));
}

#[test]
fn scan_faults_in_element_section() {
    let head = "$Nodes\n1\n1 0 0 0\n$EndNodes\n";
    assert_eq!(fault_of(&format!("{head}$Elements")), Some(GmshFault::MissingElementCount));
    assert_eq!(fault_of(&format!("{head}$Elements\nx\n")), Some(GmshFault::InvalidElementCount));
    assert_eq!(fault_of(&format!("{head}$Elements\n2\n1 2 0 1 1 1\n")), Some(GmshFault::UnexpectedEndOfElements));
    assert_eq!(fault_of(&format!("{head}$Elements\n1\n1 a 0 1 1 1\n")), Some(GmshFault::InvalidElementType));
    assert_eq!(fault_of(&format!("{head}$Elements\n1\n1 2 -1 1 1 1\n")), Some(GmshFault::InvalidTagCount));
    assert_eq!(fault_of(&format!("{head}$Elements\n1\n1 2 2 1 1 1\n")), Some(GmshFault::TriangleMissingNodes));
    assert_eq!(fault_of(&format!("{head}$Elements\n1\n1 3 0 1 1 1\n")), Some(GmshFault::QuadrilateralMissingNodes));
    assert_eq!(fault_of(&format!("{head}$Elements\n1\n1 2 0 1 one 1\n")), Some(GmshFault::InvalidNodeIndex));
    assert_eq!(fault_of(&format!("{head}$Elements\n0\n")), Some(GmshFault::NoNodesOrElements));
    assert_eq!(fault_of(head), Some(GmshFault::NoNodesOrElements));
    assert_eq!(fault_of(""), Some(GmshFault::NoNodesOrElements));
}

#[test]
fn scan_keeps_coordinates_read_before_a_fault() {
    let scan = scan_gmsh("$Nodes\n3\n1 a b 0\n2 0 0\n3 0 0 0\n");
    assert_eq!(scan.fault, Some(GmshFault::InvalidNodeRecord));
    assert_eq!(scan.coordinates.len(), 1);
    assert_eq!(text(&scan.coordinates[0].0), "a");
}

#[test]
fn zero_node_index_is_reported_as_missing_node() {
    let msh = "$Nodes\n3\n1 0 0 0\n2 1 0 0\n3 0 1 0\n$EndNodes\n$Elements\n1\n1 2 0 0 1 2\n";
    assert!(matches!(mesh_of(scan_gmsh(msh)), Err(FemError::MissingNode)));
}

#[test]
fn out_of_range_node_index_is_reported_as_missing_node() {
    let msh = "$Nodes\n3\n1 0 0 0\n2 1 0 0\n3 0 1 0\n$EndNodes\n$Elements\n1\n1 2 0 1 2 4\n";
    assert!(matches!(mesh_of(scan_gmsh(msh)), Err(FemError::MissingNode)));
}

#[test]
fn fault_messages_match_the_importer_wording() {
    assert_eq!(GmshFault::MissingEndNodes.message(), "missing $EndNodes");
    match GmshFault::NoNodesOrElements.into_error() {
        FemError::GmshParse(m) => assert_eq!(m, "no nodes or elements parsed"),
        other => panic!("unexpected error {other:?}"),
    }
}

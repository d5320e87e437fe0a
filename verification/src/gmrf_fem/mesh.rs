//! Lightweight 2D mesh types for simplex and quadrilateral elements.

use vstd::prelude::*;

use crate::gmrf_fem::errors::FemError;

verus! {

/// Supported cell types for 2D meshes.
#[derive(Debug, Clone, Copy, PartialEq, Eq, Structural)]
pub enum CellType {
    Triangle,
    Quadrilateral,
}

/// Element connectivity for a 2D mesh.
#[derive(Debug, Clone, Copy, PartialEq, Eq)]
pub enum ElementConnectivity {
    Triangle([usize; 3]),
    Quadrilateral([usize; 4]),
}

impl ElementConnectivity {
    /// The node indices of the element, in their stored order.
    pub open spec fn spec_nodes(self) -> Seq<usize> {
        match self {
            ElementConnectivity::Triangle(n) => seq![n[0], n[1], n[2]],
            ElementConnectivity::Quadrilateral(n) => seq![n[0], n[1], n[2], n[3]],
        }
    }

    /// The cell type that the variant stands for.
    pub open spec fn spec_cell_type(self) -> CellType {
        match self {
            ElementConnectivity::Triangle(_) => CellType::Triangle,
            ElementConnectivity::Quadrilateral(_) => CellType::Quadrilateral,
        }
    }

    /// Returns node indices for iteration regardless of the concrete shape.
    pub fn node_indices(&self) -> (res: Vec<usize>)
        ensures
            res@ == self.spec_nodes(),
    {
        match self {
            ElementConnectivity::Triangle(nodes) => vec![nodes[0], nodes[1], nodes[2]],
            ElementConnectivity::Quadrilateral(nodes) => vec![nodes[0], nodes[1], nodes[2], nodes[3]],
        }
    }

    /// Returns the cell type for downstream dispatch.
    pub fn cell_type(&self) -> (res: CellType)
        ensures
            res == self.spec_cell_type(),
    {
        match self {
            ElementConnectivity::Triangle(_) => CellType::Triangle,
            ElementConnectivity::Quadrilateral(_) => CellType::Quadrilateral,
        }
    }
}


/// Number of nodes that an element of the given cell type connects.
pub open spec fn vertex_count(cell: CellType) -> nat {
    match cell {
        CellType::Triangle => 3,
        CellType::Quadrilateral => 4,
    }
}

/// An element lists as many node indices as its cell type has vertices.
pub proof fn lemma_nodes_match_cell_type(e: ElementConnectivity)
    ensures
        e.spec_nodes().len() == vertex_count(e.spec_cell_type()),
{
}

/// Every node index of every element lies below `num_nodes`.
pub open spec fn connectivity_within(elements: Seq<ElementConnectivity>, num_nodes: nat) -> bool {
    forall|e: int, k: int|
        0 <= e < elements.len() && 0 <= k < elements[e].spec_nodes().len() ==> #[trigger] elements[e].spec_nodes()[k]
            < num_nodes
}

/// A 2D mesh storing node data (coordinates, in the numerical layer) and element
/// connectivity.
#[derive(Debug, Clone)]
pub struct Mesh2d<P> {
    nodes: Vec<P>,
    elements: Vec<ElementConnectivity>,
}

impl<P> View for Mesh2d<P> {
    type V = (Seq<P>, Seq<ElementConnectivity>);

    closed spec fn view(&self) -> (Seq<P>, Seq<ElementConnectivity>) {
        (self.nodes@, self.elements@)
    }
}

impl<P> Mesh2d<P> {
    /// The mesh's connectivity references existing nodes only.
    pub open spec fn well_formed(&self) -> bool {
        connectivity_within(self@.1, self@.0.len())
    }

    /// Construct a mesh from node coordinates and element connectivity, validating that all
    /// indices are within bounds.
    pub fn new(nodes: Vec<P>, elements: Vec<ElementConnectivity>) -> (res: Result<Self, FemError>)
        ensures
            connectivity_within(elements@, nodes@.len()) <==> res is Ok,
            res matches Ok(mesh) ==> mesh@ == (nodes@, elements@) && mesh.well_formed(),
            res matches Err(e) ==> e is MissingNode,
    {
        let mesh = Self { nodes, elements };
        match mesh.validate() {
            Ok(()) => Ok(mesh),
            Err(e) => Err(e),
        }
    }

    /// Number of nodes in the mesh.
    pub fn num_nodes(&self) -> (n: usize)
        ensures
            n == self@.0.len(),
    {
        self.nodes.len()
    }

    /// Number of elements.
    pub fn num_elements(&self) -> (n: usize)
        ensures
            n == self@.1.len(),
    {
        self.elements.len()
    }

    /// Returns node coordinates.
    pub fn nodes(&self) -> (r: &[P])
        ensures
            r@ == self@.0,
    {
        self.nodes.as_slice()
    }

    /// Returns element connectivity.
    pub fn elements(&self) -> (r: &[ElementConnectivity])
        ensures
            r@ == self@.1,
    {
        self.elements.as_slice()
    }

    /// Ensure all node indices referenced by elements exist.
    fn validate(&self) -> (res: Result<(), FemError>)
        ensures
            connectivity_within(self@.1, self@.0.len()) <==> res is Ok,
            res matches Err(e) ==> e is MissingNode,
    {
        let max_index = self.nodes.len();
        let mut i: usize = 0;
        while i < self.elements.len()
            invariant
                i <= self.elements.len(),
                max_index == self@.0.len(),
                forall|e: int, k: int|
                    0 <= e < i && 0 <= k < self@.1[e].spec_nodes().len()
                        ==> #[trigger] self@.1[e].spec_nodes()[k] < max_index,
            decreases self.elements.len() - i,
        {
            let indices = self.elements[i].node_indices();
            let mut k: usize = 0;
            while k < indices.len()
                invariant
                    k <= indices.len(),
                    i < self.elements.len(),
                    max_index == self@.0.len(),
                    indices@ == self@.1[i as int].spec_nodes(),
                    forall|j: int| 0 <= j < k ==> indices@[j] < max_index,
                decreases indices.len() - k,
            {
                if indices[k] >= max_index {
                    assert(self@.1[i as int].spec_nodes()[k as int] >= self@.0.len());
                    return Err(FemError::MissingNode);
                }
                k = k + 1;
            }
            i = i + 1;
        }
        Ok(())
    }
}

} // verus!

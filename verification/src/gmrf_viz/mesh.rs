//! Styling options of mesh plots, and the shape check of the fields they colour.

use vstd::prelude::*;

use crate::gmrf_viz::errors::VizError;

verus! {

/// Visual styling for mesh plots.
#[derive(Debug, Clone)]
pub struct MeshPlotOptions {
    pub width: u32,
    pub height: u32,
    pub margin: u32,
    pub stroke_width: u32,
    pub show_nodes: bool,
    pub node_radius: u32,
}

impl Default for MeshPlotOptions {
    fn default() -> (o: Self)
        ensures
            o.width == 800,
            o.height == 600,
            o.margin == 30,
            o.stroke_width == 2,
            o.show_nodes,
            o.node_radius == 4,
    {
        Self {
            width: 800,
            height: 600,
            margin: 30,
            stroke_width: 2,
            show_nodes: true,
            node_radius: 4,
        }
    }
}

/// A field that colours a mesh has one value per node of the mesh.
pub fn check_field_length(num_nodes: usize, field_len: usize) -> (r: Result<(), VizError>)
    ensures
        field_len == num_nodes ==> r is Ok,
        field_len != num_nodes ==> r == Err::<(), VizError>(
            (VizError::DimensionMismatch { expected: num_nodes, actual: field_len }),
        ),
{
    if field_len != num_nodes {
        return Err(VizError::DimensionMismatch { expected: num_nodes, actual: field_len });
    }
    Ok(())
}

} // verus!

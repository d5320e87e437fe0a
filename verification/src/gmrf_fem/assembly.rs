//! Index structure of finite element assembly: gathering an element's node
//! data from the mesh, and scattering an element matrix into the global one.
//!
//! The element matrices themselves are computed from shape functions and
//! quadrature in the numerical layer; this module decides where every local
//! entry lands.

use vstd::prelude::*;

use crate::gmrf_fem::mesh::{connectivity_within, ElementConnectivity, Mesh2d};

verus! {

/// Every node index of the element lies below `num_nodes`.
pub open spec fn element_within(element: ElementConnectivity, num_nodes: nat) -> bool {
    forall|k: int| 0 <= k < element.spec_nodes().len() ==> #[trigger] element.spec_nodes()[k] < num_nodes
}

/// The node data of the element's nodes, in the element's node order.
pub fn element_coordinates<P: Copy>(mesh: &Mesh2d<P>, element: &ElementConnectivity) -> (r: Vec<P>)
    requires
        element_within(*element, mesh@.0.len()),
    ensures
        r@ == element.spec_nodes().map_values(|idx: usize| mesh@.0[idx as int]),
{
    let indices = element.node_indices();
    let nodes = mesh.nodes();
    let mut r: Vec<P> = Vec::new();
    let mut k: usize = 0;
    while k < indices.len()
        invariant
            k <= indices@.len(),
            indices@ == element.spec_nodes(),
            nodes@ == mesh@.0,
            element_within(*element, mesh@.0.len()),
            r@ == indices@.subrange(0, k as int).map_values(|idx: usize| mesh@.0[idx as int]),
        decreases indices.len() - k,
    {
        let idx = indices[k];
        r.push(nodes[idx]);
        k = k + 1;
        assert(r@ =~= indices@.subrange(0, k as int).map_values(|idx: usize| mesh@.0[idx as int]));
    }
    assert(indices@.subrange(0, indices@.len() as int) =~= indices@);
    r
}

/// The scatter of an element matrix over the nodes `nodes`, rows `0 .. i`:
/// for each local row in order and each local column in order, the global
/// row and column, then the local row and column.
pub open spec fn scatter_rows(nodes: Seq<usize>, i: nat) -> Seq<(usize, usize, usize, usize)>
    decreases i,
{
    if i == 0 {
        Seq::empty()
    } else {
        scatter_rows(nodes, (i - 1) as nat) + Seq::new(
            nodes.len(),
            |j: int| (nodes[i - 1], nodes[j], (i - 1) as usize, j as usize),
        )
    }
}

/// Where the entries of an element matrix go in the global matrix: for each
/// pair of local indices `(i, j)`, row by row, the entry
/// `(nodes[i], nodes[j], i, j)`.
pub fn element_scatter(nodes: &[usize]) -> (r: Vec<(usize, usize, usize, usize)>)
    ensures
        r@ == scatter_rows(nodes@, nodes@.len()),
{
    let mut r: Vec<(usize, usize, usize, usize)> = Vec::new();
    let mut i: usize = 0;
    while i < nodes.len()
        invariant
            i <= nodes@.len(),
            r@ == scatter_rows(nodes@, i as nat),
        decreases nodes.len() - i,
    {
        let ghost base = r@;
        let mut j: usize = 0;
        while j < nodes.len()
            invariant
                i < nodes@.len(),
                j <= nodes@.len(),
                r@ == base + Seq::new(j as nat, |q: int| (nodes@[i as int], nodes@[q], i, q as usize)),
            decreases nodes.len() - j,
        {
            r.push((nodes[i], nodes[j], i, j));
            j = j + 1;
            assert(r@ =~= base + Seq::new(j as nat, |q: int| (nodes@[i as int], nodes@[q], i, q as usize)));
        }
        i = i + 1;
        assert(r@ =~= scatter_rows(nodes@, i as nat));
    }
    r
}

/// Layout of the scatter: one entry per pair of local indices, and the pair
/// `(i, j)` stands at `i * nodes.len() + j`.
pub proof fn lemma_scatter_layout(nodes: Seq<usize>, i: int, j: int)
    requires
        0 <= i < nodes.len(),
        0 <= j < nodes.len(),
    ensures
        scatter_rows(nodes, nodes.len()).len() == nodes.len() * nodes.len(),
        scatter_rows(nodes, nodes.len())[i * nodes.len() + j] == (
            nodes[i],
            nodes[j],
            i as usize,
            j as usize,
        ),
{
    lemma_scatter_prefix(nodes, nodes.len(), i, j);
}

proof fn lemma_scatter_prefix(nodes: Seq<usize>, k: nat, i: int, j: int)
    requires
        0 <= i < k,
        0 <= j < nodes.len(),
    ensures
        scatter_rows(nodes, k).len() == k * nodes.len(),
        scatter_rows(nodes, k)[i * nodes.len() + j] == (nodes[i], nodes[j], i as usize, j as usize),
    decreases k,
{
    let n = nodes.len();
    lemma_scatter_len(nodes, (k - 1) as nat);
    assert(k * n == (k - 1) * n + n) by (nonlinear_arith);
    if i < k - 1 {
        lemma_scatter_prefix(nodes, (k - 1) as nat, i, j);
        assert(i * n + j < (k - 1) * n) by (nonlinear_arith)
            requires
                i < k - 1,
                0 <= j < n,
        ;
    } else {
        assert(i * n == (k - 1) * n);
    }
}

proof fn lemma_scatter_len(nodes: Seq<usize>, k: nat)
    ensures
        scatter_rows(nodes, k).len() == k * nodes.len(),
    decreases k,
{
    if k > 0 {
        let prev = (k - 1) as nat;
        lemma_scatter_len(nodes, prev);
        assert(scatter_rows(nodes, k).len() == scatter_rows(nodes, prev).len() + nodes.len());
        assert(k * nodes.len() == prev * nodes.len() + nodes.len()) by (nonlinear_arith)
            requires
                k == prev + 1,
        ;
    } else {
        assert(k * nodes.len() == 0) by (nonlinear_arith)
            requires
                k == 0,
        ;
    }
}

/// Assembly stays inside the global matrix: for an element of a mesh whose
/// connectivity references existing nodes, every scattered entry has global
/// row and column below the node count and local indices below the element's
/// node count.
pub proof fn lemma_scatter_within<P>(mesh: Mesh2d<P>, e: int)
    requires
        mesh.well_formed(),
        0 <= e < mesh@.1.len(),
    ensures
        element_within(mesh@.1[e], mesh@.0.len()),
        forall|p: int|
            0 <= p < scatter_rows(mesh@.1[e].spec_nodes(), mesh@.1[e].spec_nodes().len()).len() ==> {
                let t = #[trigger] scatter_rows(
                    mesh@.1[e].spec_nodes(),
                    mesh@.1[e].spec_nodes().len(),
                )[p];
                &&& t.0 < mesh@.0.len()
                &&& t.1 < mesh@.0.len()
                &&& t.2 < mesh@.1[e].spec_nodes().len()
                &&& t.3 < mesh@.1[e].spec_nodes().len()
            },
{
    let nodes = mesh@.1[e].spec_nodes();
    assert(connectivity_within(mesh@.1, mesh@.0.len()));
    assert forall|k: int| 0 <= k < nodes.len() implies #[trigger] nodes[k] < mesh@.0.len() by {
        assert(mesh@.1[e].spec_nodes()[k] < mesh@.0.len());
    }
    lemma_scatter_rows_within(nodes, nodes.len(), mesh@.0.len());
}

proof fn lemma_scatter_rows_within(nodes: Seq<usize>, k: nat, n: nat)
    requires
        k <= nodes.len(),
        forall|q: int| 0 <= q < nodes.len() ==> #[trigger] nodes[q] < n,
    ensures
        forall|p: int|
            0 <= p < scatter_rows(nodes, k).len() ==> {
                let t = #[trigger] scatter_rows(nodes, k)[p];
                &&& t.0 < n
                &&& t.1 < n
                &&& t.2 < nodes.len()
                &&& t.3 < nodes.len()
            },
    decreases k,
{
    if k > 0 {
        lemma_scatter_rows_within(nodes, (k - 1) as nat, n);
        let a = scatter_rows(nodes, (k - 1) as nat);
        let b = Seq::new(
            nodes.len(),
            |j: int| (nodes[k - 1], nodes[j], (k - 1) as usize, j as usize),
        );
        assert(scatter_rows(nodes, k) == a + b);
        assert forall|p: int| 0 <= p < (a + b).len() implies {
            let t = #[trigger] (a + b)[p];
            &&& t.0 < n
            &&& t.1 < n
            &&& t.2 < nodes.len()
            &&& t.3 < nodes.len()
        } by {
            if p < a.len() {
                assert((a + b)[p] == a[p]);
            } else {
                assert((a + b)[p] == b[p - a.len()]);
                assert(nodes[k - 1] < n);
                assert(nodes[p - a.len()] < n);
            }
        }
    }
}

} // verus!

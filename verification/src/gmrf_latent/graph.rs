//! Neighbourhood graphs for conditional autoregressive (Besag-type) priors,
//! kept in a `petgraph` undirected graph.

use vstd::multiset::Multiset;
use vstd::prelude::*;

use crate::gmrf_latent::errors::LatentModelError;
use petgraph::graph::{EdgeIndex, Graph, NodeIndex, UnGraph};
use petgraph::Undirected;

verus! {

/// `petgraph::graph::Graph`.
#[verifier::external_type_specification]
#[verifier::external_body]
#[verifier::reject_recursive_types(N)]
#[verifier::reject_recursive_types(E)]
#[verifier::reject_recursive_types(Ty)]
#[verifier::reject_recursive_types(Ix)]
pub struct ExGraph<N, E, Ty, Ix>(Graph<N, E, Ty, Ix>);

/// `petgraph::Undirected`, the edge-type marker of undirected graphs.
#[verifier::external_type_specification]
#[verifier::external_body]
pub struct ExUndirected(Undirected);

/// The edges of a graph, as (source, target) node index pairs in the order of
/// their insertion (which is the order of their edge indices).
pub uninterp spec fn graph_edges(g: UnGraph<(), ()>) -> Seq<(usize, usize)>;

/// The number of nodes of a graph.
pub uninterp spec fn graph_node_count(g: UnGraph<(), ()>) -> nat;

/// `UnGraph::new_undirected`: a graph without nodes or edges.
#[verifier::external_body]
fn graph_new() -> (g: UnGraph<(), ()>)
    ensures
        graph_edges(g) == Seq::<(usize, usize)>::empty(),
        graph_node_count(g) == 0,
{
    UnGraph::<(), ()>::new_undirected()
}

/// `Graph::add_node`: appends a node, whose index is the former node count.
/// It panics when that count is `u32::MAX` (the index type is `u32`), which
/// `requires` rules out.
#[verifier::external_body]
fn graph_add_node(g: &mut UnGraph<(), ()>) -> (idx: usize)
    requires
        graph_node_count(*old(g)) < u32::MAX,
    ensures
        idx == graph_node_count(*old(g)),
        graph_node_count(*final(g)) == graph_node_count(*old(g)) + 1,
        graph_edges(*final(g)) == graph_edges(*old(g)),
{
    g.add_node(()).index()
}

/// `Graph::add_edge`: appends the edge `(a, b)`. It panics on a node that does
/// not exist or when the edge count is `u32::MAX`, which `requires` rules out
/// (node indices are `u32`, so they are held below `u32::MAX` too).
#[verifier::external_body]
fn graph_add_edge(g: &mut UnGraph<(), ()>, a: usize, b: usize)
    requires
        a < graph_node_count(*old(g)),
        b < graph_node_count(*old(g)),
        a < u32::MAX,
        b < u32::MAX,
        graph_edges(*old(g)).len() < u32::MAX,
    ensures
        graph_edges(*final(g)) == graph_edges(*old(g)).push((a, b)),
        graph_node_count(*final(g)) == graph_node_count(*old(g)),
{
    g.add_edge(NodeIndex::new(a), NodeIndex::new(b), ());
}

/// The node that edge `e` leads to from `v`: its other end, or `v` itself for a
/// loop; `None` where `e` does not touch `v`.
pub open spec fn other_end(e: (usize, usize), v: usize) -> Option<usize> {
    if e.0 == v {
        Some(e.1)
    } else if e.1 == v {
        Some(e.0)
    } else {
        None
    }
}

/// The neighbours of `v` along the edges `es`, one for each edge that touches
/// `v` (a loop counts once).
pub open spec fn neighbor_multiset(es: Seq<(usize, usize)>, v: usize) -> Multiset<usize>
    decreases es.len(),
{
    if es.len() == 0 {
        Multiset::empty()
    } else {
        let rest = neighbor_multiset(es.drop_last(), v);
        match other_end(es.last(), v) {
            Some(w) => rest.insert(w),
            None => rest,
        }
    }
}

/// `Graph::neighbors` in an undirected graph: one entry per edge touching `v`,
/// the edge's other end (a loop is listed once, as `petgraph` skips loops in the
/// incoming list). The order is left unsaid.
#[verifier::external_body]
fn graph_neighbors(g: &UnGraph<(), ()>, v: usize) -> (r: Vec<usize>)
    requires
        v < graph_node_count(*g),
        v < u32::MAX,
    ensures
        r@.to_multiset() == neighbor_multiset(graph_edges(*g), v),
{
    g.neighbors(NodeIndex::new(v)).map(|n| n.index()).collect()
}

/// `Graph::edge_indices`: `0, 1, ..`, one per edge (edge indices are `u32`,
/// hence the bound on the edge count).
#[verifier::external_body]
fn graph_edge_indices(g: &UnGraph<(), ()>) -> (r: Vec<usize>)
    requires
        graph_edges(*g).len() <= u32::MAX,
    ensures
        r@ == Seq::new(graph_edges(*g).len(), |i: int| i as usize),
{
    g.edge_indices().map(|e| e.index()).collect()
}

/// `Graph::edge_endpoints`: the (source, target) pair of edge `e`.
#[verifier::external_body]
fn graph_edge_endpoints(g: &UnGraph<(), ()>, e: usize) -> (r: Option<(usize, usize)>)
    requires
        e < graph_edges(*g).len(),
        e < u32::MAX,
    ensures
        r == Some(graph_edges(*g)[e as int]),
{
    g.edge_endpoints(EdgeIndex::new(e)).map(|(a, b)| (a.index(), b.index()))
}

/// Number of edges of `es` that touch `v` (a loop counts once).
pub open spec fn degree(es: Seq<(usize, usize)>, v: usize) -> nat
    decreases es.len(),
{
    if es.len() == 0 {
        0
    } else {
        degree(es.drop_last(), v) + if other_end(es.last(), v) is Some {
            1nat
        } else {
            0nat
        }
    }
}

/// Every endpoint of `es` is a node index below `n`.
pub open spec fn edges_within(es: Seq<(usize, usize)>, n: nat) -> bool {
    forall|i: int| 0 <= i < es.len() ==> (#[trigger] es[i]).0 < n && es[i].1 < n
}

/// Undirected neighbor graph for conditional autoregressive priors.
pub struct Neighborhood {
    graph: UnGraph<(), ()>,
    nodes: Vec<usize>,
}

impl View for Neighborhood {
    /// The node count and the edges in insertion order.
    type V = (nat, Seq<(usize, usize)>);

    closed spec fn view(&self) -> (nat, Seq<(usize, usize)>) {
        (self.nodes@.len(), graph_edges(self.graph))
    }
}

impl Neighborhood {
    #[verifier::type_invariant]
    closed spec fn inv(self) -> bool {
        &&& graph_node_count(self.graph) == self.nodes@.len()
        &&& self.nodes@ == Seq::new(self.nodes@.len(), |i: int| i as usize)
        &&& edges_within(graph_edges(self.graph), self.nodes@.len())
        &&& 0 < self.nodes@.len() <= u32::MAX
        &&& graph_edges(self.graph).len() <= u32::MAX
    }

    /// Build a graph with a fixed number of nodes and undirected edges.
    pub fn from_edges(node_count: usize, edges: &[(usize, usize)]) -> (res: Result<
        Self,
        LatentModelError,
    >)
        requires
            node_count > 0 && edges_within(edges@, node_count as nat) ==> node_count <= u32::MAX
                && edges@.len() <= u32::MAX,
        ensures
            node_count == 0 ==> res == Err::<Self, LatentModelError>(
                LatentModelError::InvalidGraph("neighborhood must contain at least one node"),
            ),
            node_count > 0 && !edges_within(edges@, node_count as nat) ==> res == Err::<
                Self,
                LatentModelError,
            >(LatentModelError::InvalidGraph("edge indices must be within node count")),
            node_count > 0 && edges_within(edges@, node_count as nat) ==> (res matches Ok(nb)
                && nb@ == (node_count as nat, edges@)),
    {
        if node_count == 0 {
            return Err(LatentModelError::InvalidGraph("neighborhood must contain at least one node"));
        }
        let mut i: usize = 0;
        while i < edges.len()
            invariant
                node_count > 0,
                i <= edges@.len(),
                forall|j: int| 0 <= j < i ==> (#[trigger] edges@[j]).0 < node_count && edges@[j].1
                    < node_count,
            decreases edges.len() - i,
        {
            let (u, v) = edges[i];
            if u >= node_count || v >= node_count {
                assert(!edges_within(edges@, node_count as nat)) by {
                    assert(edges@[i as int] == (u, v));
                }
                return Err(LatentModelError::InvalidGraph("edge indices must be within node count"));
            }
            i = i + 1;
        }
        let mut graph = graph_new();
        let mut nodes: Vec<usize> = Vec::new();
        let mut k: usize = 0;
        while k < node_count
            invariant
                k <= node_count <= u32::MAX,
                graph_node_count(graph) == k,
                graph_edges(graph) == Seq::<(usize, usize)>::empty(),
                nodes@ == Seq::new(k as nat, |j: int| j as usize),
            decreases node_count - k,
        {
            let idx = graph_add_node(&mut graph);
            nodes.push(idx);
            k = k + 1;
            assert(nodes@ =~= Seq::new(k as nat, |j: int| j as usize));
        }
        let mut e: usize = 0;
        while e < edges.len()
            invariant
                e <= edges@.len() <= u32::MAX,
                node_count <= u32::MAX,
                graph_node_count(graph) == node_count,
                edges_within(edges@, node_count as nat),
                graph_edges(graph) == edges@.subrange(0, e as int),
            decreases edges.len() - e,
        {
            let (u, v) = edges[e];
            assert(edges@[e as int] == (u, v));
            graph_add_edge(&mut graph, u, v);
            e = e + 1;
            assert(graph_edges(graph) =~= edges@.subrange(0, e as int));
        }
        assert(edges@.subrange(0, edges@.len() as int) =~= edges@);
        Ok(Self { graph, nodes })
    }

    /// Number of nodes in the graph.
    pub fn node_count(&self) -> (n: usize)
        ensures
            n == self@.0,
            n > 0,
            edges_within(self@.1, self@.0),
    {
        proof {
            use_type_invariant(self);
        }
        self.nodes.len()
    }

    /// Degree for each node in insertion order: the number of edges that touch
    /// it, a loop counting once.
    pub fn degrees(&self) -> (r: Vec<usize>)
        ensures
            r@.len() == self@.0,
            forall|v: int| 0 <= v < r@.len() ==> #[trigger] r@[v] == degree(self@.1, v as usize),
    {
        proof {
            use_type_invariant(self);
        }
        let mut r: Vec<usize> = Vec::new();
        let mut i: usize = 0;
        while i < self.nodes.len()
            invariant
                i <= self.nodes@.len(),
                graph_node_count(self.graph) == self.nodes@.len(),
                self.nodes@.len() <= u32::MAX,
                self.nodes@ == Seq::new(self.nodes@.len(), |j: int| j as usize),
                r@.len() == i,
                forall|v: int| 0 <= v < i ==> #[trigger] r@[v] == degree(
                    graph_edges(self.graph),
                    v as usize,
                ),
            decreases self.nodes.len() - i,
        {
            let n = self.nodes[i];
            let nbrs = graph_neighbors(&self.graph, n);
            proof {
                lemma_neighbor_count(graph_edges(self.graph), n);
                nbrs@.to_multiset_ensures();
            }
            r.push(nbrs.len());
            i = i + 1;
        }
        r
    }

    /// Undirected edge list as zero-based index pairs, in insertion order.
    pub fn edges(&self) -> (r: Vec<(usize, usize)>)
        ensures
            r@ == self@.1,
    {
        proof {
            use_type_invariant(self);
        }
        let indices = graph_edge_indices(&self.graph);
        let mut r: Vec<(usize, usize)> = Vec::new();
        let mut i: usize = 0;
        while i < indices.len()
            invariant
                i <= indices@.len(),
                indices@ == Seq::new(graph_edges(self.graph).len(), |j: int| j as usize),
                graph_edges(self.graph).len() <= u32::MAX,
                r@ == graph_edges(self.graph).subrange(0, i as int),
            decreases indices.len() - i,
        {
            match graph_edge_endpoints(&self.graph, indices[i]) {
                Some(pair) => {
                    r.push(pair);
                },
                None => {},
            }
            i = i + 1;
            assert(r@ =~= graph_edges(self.graph).subrange(0, i as int));
        }
        assert(r@ =~= graph_edges(self.graph));
        r
    }
    /// The combinatorial Laplacian `D - A` of the graph as triplets: first the
    /// diagonal entry `(i, i, degree of i)` of every node in order, then for
    /// every edge `(u, v)` in insertion order the entries `(u, v, -1)` and
    /// `(v, u, -1)`.
    pub fn laplacian(&self) -> (r: Vec<(usize, usize, i64)>)
        ensures
            r@ == laplacian_triplets(self@.0, self@.1),
    {
        let degrees = self.degrees();
        let edges = self.edges();
        let mut r: Vec<(usize, usize, i64)> = Vec::new();
        let mut i: usize = 0;
        while i < degrees.len()
            invariant
                i <= degrees@.len(),
                degrees@.len() == self@.0,
                forall|v: int| 0 <= v < degrees@.len() ==> #[trigger] degrees@[v] == degree(
                    self@.1,
                    v as usize,
                ),
                r@ == laplacian_diagonal(i as nat, self@.1),
            decreases degrees.len() - i,
        {
            let d = degrees[i];
            r.push((i, i, d as i64));
            i = i + 1;
            assert(r@ =~= laplacian_diagonal(i as nat, self@.1));
        }
        let ghost diag = r@;
        let mut e: usize = 0;
        while e < edges.len()
            invariant
                e <= edges@.len(),
                edges@ == self@.1,
                diag == laplacian_diagonal(self@.0, self@.1),
                r@ == diag + laplacian_adjacency(edges@.subrange(0, e as int)),
            decreases edges.len() - e,
        {
            let (u, v) = edges[e];
            r.push((u, v, -1i64));
            r.push((v, u, -1i64));
            let ghost next = edges@.subrange(0, e + 1);
            assert(next.drop_last() =~= edges@.subrange(0, e as int));
            assert(next.last() == (u, v));
            e = e + 1;
            assert(r@ =~= diag + laplacian_adjacency(edges@.subrange(0, e as int)));
        }
        assert(edges@.subrange(0, edges@.len() as int) =~= edges@);
        r
    }
}

/// The neighbour list of `v` has one entry per edge that touches it.
pub proof fn lemma_neighbor_count(es: Seq<(usize, usize)>, v: usize)
    ensures
        neighbor_multiset(es, v).len() == degree(es, v),
    decreases es.len(),
{
    if es.len() > 0 {
        lemma_neighbor_count(es.drop_last(), v);
    }
}


/// Sum of the degrees of the nodes `0 .. n`.
pub open spec fn degree_sum(es: Seq<(usize, usize)>, n: nat) -> nat
    decreases n,
{
    if n == 0 {
        0
    } else {
        degree_sum(es, (n - 1) as nat) + degree(es, (n - 1) as usize)
    }
}

/// Number of loops (edges from a node to itself) among `es`.
pub open spec fn loop_count(es: Seq<(usize, usize)>) -> nat
    decreases es.len(),
{
    if es.len() == 0 {
        0
    } else {
        loop_count(es.drop_last()) + if es.last().0 == es.last().1 {
            1nat
        } else {
            0nat
        }
    }
}

/// Number of the nodes `0 .. n` that the edge `e` touches.
pub open spec fn touch_count(e: (usize, usize), n: nat) -> nat
    decreases n,
{
    if n == 0 {
        0
    } else {
        touch_count(e, (n - 1) as nat) + if other_end(e, (n - 1) as usize) is Some {
            1nat
        } else {
            0nat
        }
    }
}

proof fn lemma_touch_count(e: (usize, usize), n: nat)
    requires
        n <= usize::MAX + 1,
    ensures
        touch_count(e, n) == (if e.0 < n { 1nat } else { 0nat }) + (if e.1 < n && e.1 != e.0 {
            1nat
        } else {
            0nat
        }),
    decreases n,
{
    if n > 0 {
        lemma_touch_count(e, (n - 1) as nat);
    }
}

proof fn lemma_degree_sum_step(es: Seq<(usize, usize)>, n: nat)
    requires
        es.len() > 0,
        n <= usize::MAX + 1,
    ensures
        degree_sum(es, n) == degree_sum(es.drop_last(), n) + touch_count(es.last(), n),
    decreases n,
{
    if n > 0 {
        lemma_degree_sum_step(es, (n - 1) as nat);
    }
}

/// Handshake law: over a graph whose edges join nodes below `n`, the degrees
/// of the nodes add up to twice the number of edges, less one for each loop
/// (a loop counts once in the degree of its node).
pub proof fn lemma_handshake(es: Seq<(usize, usize)>, n: nat)
    requires
        edges_within(es, n),
        n <= usize::MAX + 1,
    ensures
        degree_sum(es, n) + loop_count(es) == 2 * es.len(),
    decreases es.len(),
{
    if es.len() == 0 {
        lemma_degree_sum_empty(es, n);
    } else {
        let p = es.drop_last();
        assert(edges_within(p, n)) by {
            assert forall|i: int| 0 <= i < p.len() implies (#[trigger] p[i]).0 < n && p[i].1 < n by {
                assert(p[i] == es[i]);
            }
        }
        lemma_handshake(p, n);
        lemma_degree_sum_step(es, n);
        assert(es[es.len() - 1] == es.last());
        lemma_touch_count(es.last(), n);
    }
}

proof fn lemma_degree_sum_empty(es: Seq<(usize, usize)>, n: nat)
    requires
        es.len() == 0,
    ensures
        degree_sum(es, n) == 0,
    decreases n,
{
    if n > 0 {
        lemma_degree_sum_empty(es, (n - 1) as nat);
    }
}

/// The diagonal entries `(i, i, degree of i)` of the nodes `0 .. n`.
pub open spec fn laplacian_diagonal(n: nat, es: Seq<(usize, usize)>) -> Seq<(usize, usize, i64)> {
    Seq::new(n, |i: int| (i as usize, i as usize, degree(es, i as usize) as i64))
}

/// The off-diagonal entries: `(u, v, -1)` and `(v, u, -1)` for every edge `(u, v)`.
pub open spec fn laplacian_adjacency(es: Seq<(usize, usize)>) -> Seq<(usize, usize, i64)>
    decreases es.len(),
{
    if es.len() == 0 {
        Seq::empty()
    } else {
        laplacian_adjacency(es.drop_last()) + seq![
            (es.last().0, es.last().1, -1i64),
            (es.last().1, es.last().0, -1i64),
        ]
    }
}

/// The graph Laplacian `D - A` of `n` nodes and edges `es`, as triplets.
pub open spec fn laplacian_triplets(n: nat, es: Seq<(usize, usize)>) -> Seq<(usize, usize, i64)> {
    laplacian_diagonal(n, es) + laplacian_adjacency(es)
}

/// Sum of the weights of the triplets of `s` in row `row`.
pub open spec fn weight_row_sum(s: Seq<(usize, usize, i64)>, row: usize) -> int
    decreases s.len(),
{
    if s.len() == 0 {
        0
    } else {
        weight_row_sum(s.drop_last(), row) + if s.last().0 == row {
            s.last().2 as int
        } else {
            0
        }
    }
}

proof fn lemma_weight_row_sum_concat(a: Seq<(usize, usize, i64)>, b: Seq<(usize, usize, i64)>, row: usize)
    ensures
        weight_row_sum(a + b, row) == weight_row_sum(a, row) + weight_row_sum(b, row),
    decreases b.len(),
{
    if b.len() > 0 {
        lemma_weight_row_sum_concat(a, b.drop_last(), row);
        assert((a + b).drop_last() =~= a + b.drop_last());
        assert((a + b).last() == b.last());
    }
}

proof fn lemma_degree_bound(es: Seq<(usize, usize)>, v: usize)
    ensures
        degree(es, v) <= es.len(),
    decreases es.len(),
{
    if es.len() > 0 {
        lemma_degree_bound(es.drop_last(), v);
    }
}

proof fn lemma_diagonal_row_sum(k: nat, es: Seq<(usize, usize)>, row: usize)
    requires
        k <= usize::MAX + 1,
        es.len() <= i64::MAX,
    ensures
        weight_row_sum(laplacian_diagonal(k, es), row) == if row < k {
            degree(es, row) as int
        } else {
            0
        },
    decreases k,
{
    if k > 0 {
        let s = laplacian_diagonal(k, es);
        assert(s.drop_last() =~= laplacian_diagonal((k - 1) as nat, es));
        lemma_diagonal_row_sum((k - 1) as nat, es, row);
        lemma_degree_bound(es, ((k - 1) as nat) as usize);
    }
}

proof fn lemma_adjacency_row_sum(es: Seq<(usize, usize)>, row: usize)
    requires
        loop_count(es) == 0,
    ensures
        weight_row_sum(laplacian_adjacency(es), row) == -(degree(es, row) as int),
    decreases es.len(),
{
    if es.len() > 0 {
        let p = es.drop_last();
        let e = es.last();
        lemma_adjacency_row_sum(p, row);
        let pair = seq![(e.0, e.1, -1i64), (e.1, e.0, -1i64)];
        lemma_weight_row_sum_concat(laplacian_adjacency(p), pair, row);
        assert(pair.drop_last() =~= seq![(e.0, e.1, -1i64)]);
        assert(pair.drop_last().drop_last() =~= Seq::<(usize, usize, i64)>::empty());
        assert(weight_row_sum(pair.drop_last().drop_last(), row) == 0);
        assert(weight_row_sum(pair.drop_last(), row) == if e.0 == row { -1int } else { 0 });
        assert(weight_row_sum(pair, row) == weight_row_sum(pair.drop_last(), row) + if e.1 == row {
            -1int
        } else {
            0
        });
        assert(laplacian_adjacency(es) == laplacian_adjacency(p) + pair);
        assert(e.0 != e.1);
        assert(degree(es, row) == degree(p, row) + if other_end(e, row) is Some {
            1nat
        } else {
            0nat
        });
    }
}

/// The Besag (intrinsic CAR) structure annihilates constants: on a graph
/// without loops, every row of the Laplacian `D - A` sums to zero.
pub proof fn lemma_laplacian_rows_sum_to_zero(n: nat, es: Seq<(usize, usize)>, row: usize)
    requires
        edges_within(es, n),
        loop_count(es) == 0,
        row < n <= usize::MAX + 1,
        es.len() <= i64::MAX,
    ensures
        weight_row_sum(laplacian_triplets(n, es), row) == 0,
{
    lemma_weight_row_sum_concat(laplacian_diagonal(n, es), laplacian_adjacency(es), row);
    lemma_diagonal_row_sum(n, es, row);
    lemma_adjacency_row_sum(es, row);
}

/// Layout law of the graph Laplacian: it holds `n + 2 * es.len()` triplets;
/// triplet `i < n` is the diagonal `(i, i, degree of i)`, and for the edge
/// `es[e] = (u, v)` triplets `n + 2 * e` and `n + 2 * e + 1` are `(u, v, -1)`
/// and `(v, u, -1)`. So every edge joining two nodes appears at both of its
/// off-diagonal positions, and every off-diagonal triplet comes from an edge
/// joining its row and its column.
pub proof fn lemma_laplacian_layout(n: nat, es: Seq<(usize, usize)>)
    ensures
        laplacian_triplets(n, es).len() == n + 2 * es.len(),
        forall|i: int|
            0 <= i < n ==> #[trigger] laplacian_triplets(n, es)[i] == (
                i as usize,
                i as usize,
                degree(es, i as usize) as i64,
            ),
        forall|e: int|
            #![trigger es[e]]
            0 <= e < es.len() ==> {
                &&& laplacian_triplets(n, es)[n + 2 * e] == (es[e].0, es[e].1, -1i64)
                &&& laplacian_triplets(n, es)[n + 2 * e + 1] == (es[e].1, es[e].0, -1i64)
            },
{
    let d = laplacian_diagonal(n, es);
    let a = laplacian_adjacency(es);
    lemma_adjacency_layout(es);
    assert forall|i: int| 0 <= i < n implies #[trigger] laplacian_triplets(n, es)[i] == (
        i as usize,
        i as usize,
        degree(es, i as usize) as i64,
    ) by {
        assert((d + a)[i] == d[i]);
    }
    assert forall|e: int| #![trigger es[e]] 0 <= e < es.len() implies {
        &&& laplacian_triplets(n, es)[n + 2 * e] == (es[e].0, es[e].1, -1i64)
        &&& laplacian_triplets(n, es)[n + 2 * e + 1] == (es[e].1, es[e].0, -1i64)
    } by {
        assert((d + a)[n + 2 * e] == a[2 * e]);
        assert((d + a)[n + 2 * e + 1] == a[2 * e + 1]);
    }
}

proof fn lemma_adjacency_layout(es: Seq<(usize, usize)>)
    ensures
        laplacian_adjacency(es).len() == 2 * es.len(),
        forall|e: int|
            #![trigger es[e]]
            0 <= e < es.len() ==> {
                &&& laplacian_adjacency(es)[2 * e] == (es[e].0, es[e].1, -1i64)
                &&& laplacian_adjacency(es)[2 * e + 1] == (es[e].1, es[e].0, -1i64)
            },
    decreases es.len(),
{
    if es.len() > 0 {
        let p = es.drop_last();
        lemma_adjacency_layout(p);
        let a = laplacian_adjacency(p);
        let pair = seq![(es.last().0, es.last().1, -1i64), (es.last().1, es.last().0, -1i64)];
        assert(laplacian_adjacency(es) == a + pair);
        assert forall|e: int| #![trigger es[e]] 0 <= e < es.len() implies {
            &&& laplacian_adjacency(es)[2 * e] == (es[e].0, es[e].1, -1i64)
            &&& laplacian_adjacency(es)[2 * e + 1] == (es[e].1, es[e].0, -1i64)
        } by {
            if e < p.len() {
                assert(p[e] == es[e]);
                assert((a + pair)[2 * e] == a[2 * e]);
                assert((a + pair)[2 * e + 1] == a[2 * e + 1]);
            } else {
                assert((a + pair)[2 * e] == pair[0]);
                assert((a + pair)[2 * e + 1] == pair[1]);
            }
        }
    }
}

} // verus!

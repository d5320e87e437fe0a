//! Sparsity structure of the latent priors: the chain stencil shared by the
//! AR(1) and random-walk precisions, and the block-diagonal composition of
//! precisions given as triplets.
//!
//! The numeric values of the priors are scalings of these structures; what is
//! here is where each entry goes and what role it plays.

use vstd::prelude::*;

use crate::gmrf_latent::errors::LatentModelError;

verus! {

/// Role of one stored entry of a chain-structured precision.
#[derive(Debug, Clone, Copy, PartialEq, Eq, Structural)]
pub enum ChainEntry {
    /// Diagonal entry of the first node of a chain of two or more nodes.
    FirstDiagonal,
    /// Diagonal entry of a node with a neighbour on each side.
    InteriorDiagonal,
    /// Diagonal entry of the last node (the only node of a chain of one).
    LastDiagonal,
    /// Coupling between two consecutive nodes, stored in both orientations.
    Coupling,
}

/// Role of the diagonal entry of node `i` in a chain of `length` nodes.
pub open spec fn chain_diagonal(length: nat, i: nat) -> ChainEntry {
    if i + 1 == length {
        ChainEntry::LastDiagonal
    } else if i == 0 {
        ChainEntry::FirstDiagonal
    } else {
        ChainEntry::InteriorDiagonal
    }
}

/// Entries stored for node `i`: its diagonal, then (when it has a successor)
/// the coupling to `i + 1` and its transpose.
pub open spec fn chain_node_entries(length: nat, i: nat) -> Seq<(usize, usize, ChainEntry)> {
    if i + 1 < length {
        seq![
            (i as usize, i as usize, chain_diagonal(length, i)),
            (i as usize, (i + 1) as usize, ChainEntry::Coupling),
            ((i + 1) as usize, i as usize, ChainEntry::Coupling),
        ]
    } else {
        seq![(i as usize, i as usize, chain_diagonal(length, i))]
    }
}

/// Entries stored for the nodes `0 .. k` of a chain of `length` nodes, node by node.
pub open spec fn chain_entries(length: nat, k: nat) -> Seq<(usize, usize, ChainEntry)>
    decreases k,
{
    if k == 0 {
        Seq::empty()
    } else {
        chain_entries(length, (k - 1) as nat) + chain_node_entries(length, (k - 1) as nat)
    }
}

/// The stencil of a chain precision with `length` nodes: for each node in
/// order, its diagonal entry and then its coupling to the next node, stored
/// in both orientations.
pub fn chain_stencil(length: usize) -> (r: Vec<(usize, usize, ChainEntry)>)
    ensures
        r@ == chain_entries(length as nat, length as nat),
{
    let mut r: Vec<(usize, usize, ChainEntry)> = Vec::new();
    let mut i: usize = 0;
    while i < length
        invariant
            i <= length,
            r@ == chain_entries(length as nat, i as nat),
        decreases length - i,
    {
        let diag = if i + 1 == length {
            ChainEntry::LastDiagonal
        } else if i == 0 {
            ChainEntry::FirstDiagonal
        } else {
            ChainEntry::InteriorDiagonal
        };
        r.push((i, i, diag));
        if i + 1 < length {
            r.push((i, i + 1, ChainEntry::Coupling));
            r.push((i + 1, i, ChainEntry::Coupling));
        }
        proof {
            assert(chain_entries(length as nat, (i + 1) as nat) == chain_entries(
                length as nat,
                i as nat,
            ) + chain_node_entries(length as nat, i as nat));
        }
        i = i + 1;
        assert(r@ =~= chain_entries(length as nat, i as nat));
    }
    r
}

/// The stencil of the first-order autoregressive chain; a chain needs a node.
pub fn ar1_stencil(length: usize) -> (r: Result<Vec<(usize, usize, ChainEntry)>, LatentModelError>)
    ensures
        length == 0 ==> r == Err::<Vec<(usize, usize, ChainEntry)>, LatentModelError>(
            LatentModelError::InvalidParameters("AR1 chain requires at least one node"),
        ),
        length > 0 ==> (r matches Ok(s) && s@ == chain_entries(length as nat, length as nat)),
{
    if length == 0 {
        return Err(LatentModelError::InvalidParameters("AR1 chain requires at least one node"));
    }
    Ok(chain_stencil(length))
}

/// The stencil of the first-order random walk; a walk needs two nodes.
pub fn rw1_stencil(length: usize) -> (r: Result<Vec<(usize, usize, ChainEntry)>, LatentModelError>)
    ensures
        length < 2 ==> r == Err::<Vec<(usize, usize, ChainEntry)>, LatentModelError>(
            LatentModelError::InvalidParameters("RW1 requires at least two nodes"),
        ),
        length >= 2 ==> (r matches Ok(s) && s@ == chain_entries(length as nat, length as nat)),
{
    if length < 2 {
        return Err(LatentModelError::InvalidParameters("RW1 requires at least two nodes"));
    }
    Ok(chain_stencil(length))
}

/// Where an entry of a chain stencil stands: a diagonal entry of a node of the
/// chain, with that node's diagonal role, or a coupling between two
/// consecutive nodes of the chain.
pub open spec fn chain_entry_in_place(length: nat, e: (usize, usize, ChainEntry)) -> bool {
    if e.2 == ChainEntry::Coupling {
        &&& e.0 < length
        &&& e.1 < length
        &&& (e.0 + 1 == e.1 || e.1 + 1 == e.0)
    } else {
        &&& e.0 == e.1
        &&& e.0 < length
        &&& e.2 == chain_diagonal(length, e.0 as nat)
    }
}

/// Shape law of the chain stencil: it holds only diagonal entries of the
/// chain's nodes, each with its node's role, and couplings of consecutive
/// nodes, so the precision it describes is tridiagonal.
pub proof fn lemma_chain_stencil_shape(length: nat)
    requires
        length <= usize::MAX,
    ensures
        forall|p: int|
            0 <= p < chain_entries(length, length).len() ==> chain_entry_in_place(
                length,
                #[trigger] chain_entries(length, length)[p],
            ),
{
    lemma_chain_prefix_shape(length, length);
}

proof fn lemma_chain_prefix_shape(length: nat, k: nat)
    requires
        k <= length <= usize::MAX,
    ensures
        forall|p: int|
            0 <= p < chain_entries(length, k).len() ==> chain_entry_in_place(
                length,
                #[trigger] chain_entries(length, k)[p],
            ),
    decreases k,
{
    if k > 0 {
        let i = (k - 1) as nat;
        lemma_chain_prefix_shape(length, i);
        let a = chain_entries(length, i);
        let b = chain_node_entries(length, i);
        assert(chain_entries(length, k) == a + b);
        assert forall|p: int| 0 <= p < (a + b).len() implies chain_entry_in_place(
            length,
            #[trigger] (a + b)[p],
        ) by {
            if p >= a.len() {
                assert((a + b)[p] == b[p - a.len()]);
            } else {
                assert((a + b)[p] == a[p]);
            }
        }
    }
}

/// Weight of an entry in the first-order random walk precision `D'D`
/// (before scaling by the precision parameter).
pub open spec fn rw1_weight(e: ChainEntry) -> int {
    match e {
        ChainEntry::FirstDiagonal => 1,
        ChainEntry::InteriorDiagonal => 2,
        ChainEntry::LastDiagonal => 1,
        ChainEntry::Coupling => -1,
    }
}

/// Sum of the random-walk weights of the entries of `s` in row `row`.
pub open spec fn rw1_row_sum(s: Seq<(usize, usize, ChainEntry)>, row: usize) -> int
    decreases s.len(),
{
    if s.len() == 0 {
        0
    } else {
        rw1_row_sum(s.drop_last(), row) + if s.last().0 == row {
            rw1_weight(s.last().2)
        } else {
            0
        }
    }
}

proof fn lemma_rw1_row_sum_concat(a: Seq<(usize, usize, ChainEntry)>, b: Seq<(usize, usize, ChainEntry)>, row: usize)
    ensures
        rw1_row_sum(a + b, row) == rw1_row_sum(a, row) + rw1_row_sum(b, row),
    decreases b.len(),
{
    if b.len() > 0 {
        lemma_rw1_row_sum_concat(a, b.drop_last(), row);
        assert((a + b).drop_last() =~= a + b.drop_last());
        assert((a + b).last() == b.last());
    }
}

/// Contribution of the entries of node `k` to the row sums, as a formula.
proof fn lemma_rw1_node_row_sum(length: nat, k: nat, row: nat)
    requires
        k < length <= usize::MAX,
        row < length,
    ensures
        rw1_row_sum(chain_node_entries(length, k), row as usize) == (if k == row {
            rw1_weight(chain_diagonal(length, k)) - (if k + 1 < length { 1int } else { 0int })
        } else {
            0int
        }) - (if k + 1 == row && k + 1 < length { 1int } else { 0int }),
{
    let s = chain_node_entries(length, k);
    let d = (k as usize, k as usize, chain_diagonal(length, k));
    if k + 1 < length {
        let c1 = (k as usize, (k + 1) as usize, ChainEntry::Coupling);
        let s2 = seq![d, c1];
        let s1 = seq![d];
        assert(s.drop_last() =~= s2);
        assert(s2.drop_last() =~= s1);
        assert(s1.drop_last() =~= Seq::<(usize, usize, ChainEntry)>::empty());
        assert(rw1_row_sum(s1.drop_last(), row as usize) == 0);
        assert(s1.last() == d);
        assert(rw1_row_sum(s1, row as usize) == if k == row { rw1_weight(d.2) } else { 0 });
        assert(rw1_row_sum(s2, row as usize) == rw1_row_sum(s1, row as usize) + if k == row { -1int } else { 0 });
        assert(rw1_row_sum(s, row as usize) == rw1_row_sum(s2, row as usize) + if k + 1 == row { -1int } else { 0 });
    } else {
        assert(s.drop_last() =~= Seq::<(usize, usize, ChainEntry)>::empty());
        assert(rw1_row_sum(s.drop_last(), row as usize) == 0);
        assert(s.last() == d);
        assert(rw1_row_sum(s, row as usize) == if k == row { rw1_weight(d.2) } else { 0 });
    }
}

proof fn lemma_rw1_prefix_row_sum(length: nat, k: nat, row: nat)
    requires
        k <= length <= usize::MAX,
        row < length,
    ensures
        rw1_row_sum(chain_entries(length, k), row as usize) == (if row < k {
            rw1_weight(chain_diagonal(length, row)) - (if row + 1 < length { 1int } else { 0int })
        } else {
            0int
        }) - (if 1 <= row && row <= k { 1int } else { 0int }),
    decreases k,
{
    if k > 0 {
        let i = (k - 1) as nat;
        lemma_rw1_prefix_row_sum(length, i, row);
        lemma_rw1_row_sum_concat(chain_entries(length, i), chain_node_entries(length, i), row as usize);
        lemma_rw1_node_row_sum(length, i, row);
    }
}

/// The first-order random walk precision annihilates constants: with the
/// weights of `D'D`, every row of the chain stencil of two or more nodes sums
/// to zero (the prior is intrinsic).
pub proof fn lemma_rw1_rows_sum_to_zero(length: nat, row: nat)
    requires
        2 <= length <= usize::MAX,
        row < length,
    ensures
        rw1_row_sum(chain_entries(length, length), row as usize) == 0,
{
    lemma_rw1_prefix_row_sum(length, length, row);
}

/// A latent field as the block composition sees it: its dimension, its mean,
/// and its precision as (row, column, value) triplets when the precision is
/// stored as a matrix (`None` for a matrix-free precision).
pub struct LatentBlock<T> {
    pub dimension: usize,
    pub mean: Vec<T>,
    pub precision: Option<Vec<(usize, usize, T)>>,
}

/// Every triplet of `p` lies in an `n` by `n` matrix.
pub open spec fn triplets_within<T>(p: Seq<(usize, usize, T)>, n: nat) -> bool {
    forall|i: int| 0 <= i < p.len() ==> (#[trigger] p[i]).0 < n && p[i].1 < n
}

/// A block is consistent: its mean has one entry per dimension and its
/// precision triplets lie inside its square.
pub open spec fn block_well_formed<T>(b: LatentBlock<T>) -> bool {
    &&& b.mean@.len() == b.dimension
    &&& (b.precision matches Some(p) ==> triplets_within(p@, b.dimension as nat))
}

/// Sum of the dimensions of the blocks.
pub open spec fn total_dimension<T>(bs: Seq<LatentBlock<T>>) -> nat
    decreases bs.len(),
{
    if bs.len() == 0 {
        0
    } else {
        total_dimension(bs.drop_last()) + bs.last().dimension as nat
    }
}

/// Every block stores its precision as a matrix.
pub open spec fn all_stored<T>(bs: Seq<LatentBlock<T>>) -> bool {
    forall|k: int| 0 <= k < bs.len() ==> (#[trigger] bs[k]).precision is Some
}

/// The precision triplets of a block (none for a matrix-free precision).
pub open spec fn block_triplets<T>(b: LatentBlock<T>) -> Seq<(usize, usize, T)> {
    match b.precision {
        Some(p) => p@,
        None => Seq::empty(),
    }
}

/// The triplets `p` moved down and right by `offset`.
pub open spec fn shifted<T>(p: Seq<(usize, usize, T)>, offset: nat) -> Seq<(usize, usize, T)> {
    Seq::new(p.len(), |i: int| ((p[i].0 + offset) as usize, (p[i].1 + offset) as usize, p[i].2))
}

/// The triplets of the block-diagonal precision: block by block, each block's
/// triplets moved by the dimensions of the blocks before it.
pub open spec fn block_diagonal_triplets<T>(bs: Seq<LatentBlock<T>>) -> Seq<(usize, usize, T)>
    decreases bs.len(),
{
    if bs.len() == 0 {
        Seq::empty()
    } else {
        block_diagonal_triplets(bs.drop_last()) + shifted(
            block_triplets(bs.last()),
            total_dimension(bs.drop_last()),
        )
    }
}

/// The means of the blocks, one after the other.
pub open spec fn stacked_means<T>(bs: Seq<LatentBlock<T>>) -> Seq<T>
    decreases bs.len(),
{
    if bs.len() == 0 {
        Seq::empty()
    } else {
        stacked_means(bs.drop_last()) + bs.last().mean@
    }
}

proof fn lemma_total_dimension_prefix<T>(bs: Seq<LatentBlock<T>>, k: int)
    requires
        0 <= k <= bs.len(),
    ensures
        total_dimension(bs.subrange(0, k)) <= total_dimension(bs),
    decreases bs.len(),
{
    if k < bs.len() {
        assert(bs.drop_last().subrange(0, k) =~= bs.subrange(0, k));
        lemma_total_dimension_prefix(bs.drop_last(), k);
    } else {
        assert(bs.subrange(0, k) =~= bs);
    }
}

/// Block-diagonal combination of independent latent fields: the means are
/// stacked and each block's precision triplets are moved along the diagonal
/// by the dimensions of the blocks before it. It needs at least one block, and
/// every block's precision stored as a matrix.
pub fn combine_block_diagonal<T: Copy>(blocks: &[LatentBlock<T>]) -> (r: Result<
    LatentBlock<T>,
    LatentModelError,
>)
    requires
        forall|k: int| 0 <= k < blocks@.len() ==> block_well_formed(#[trigger] blocks@[k]),
        total_dimension(blocks@) <= usize::MAX,
    ensures
        blocks@.len() == 0 ==> r == Err::<LatentBlock<T>, LatentModelError>(
            LatentModelError::InvalidParameters("at least one model is required"),
        ),
        blocks@.len() > 0 && !all_stored(blocks@) ==> r == Err::<LatentBlock<T>, LatentModelError>(
            LatentModelError::MissingPrecision,
        ),
        blocks@.len() > 0 && all_stored(blocks@) ==> (r matches Ok(c) && c.dimension
            == total_dimension(blocks@) && c.mean@ == stacked_means(blocks@) && c.precision is Some
            && block_triplets(c) == block_diagonal_triplets(blocks@) && block_well_formed(c)),
{
    if blocks.len() == 0 {
        return Err(LatentModelError::InvalidParameters("at least one model is required"));
    }
    let mut offset: usize = 0;
    let mut mean: Vec<T> = Vec::new();
    let mut entries: Vec<(usize, usize, T)> = Vec::new();
    let mut k: usize = 0;
    while k < blocks.len()
        invariant
            k <= blocks@.len(),
            forall|q: int| 0 <= q < blocks@.len() ==> block_well_formed(#[trigger] blocks@[q]),
            total_dimension(blocks@) <= usize::MAX,
            offset == total_dimension(blocks@.subrange(0, k as int)),
            mean@ == stacked_means(blocks@.subrange(0, k as int)),
            entries@ == block_diagonal_triplets(blocks@.subrange(0, k as int)),
            all_stored(blocks@.subrange(0, k as int)),
        decreases blocks.len() - k,
    {
        let ghost pre = blocks@.subrange(0, k as int);
        let ghost next = blocks@.subrange(0, k + 1);
        proof {
            assert(next.drop_last() =~= pre);
            assert(next.last() == blocks@[k as int]);
            lemma_total_dimension_prefix(blocks@, k + 1);
        }
        let block = &blocks[k];
        assert(block_well_formed(*block));
        match &block.precision {
            None => {
                assert(!all_stored(blocks@)) by {
                    assert(blocks@[k as int].precision is None);
                }
                return Err(LatentModelError::MissingPrecision);
            },
            Some(p) => {
                let ghost base = entries@;
                let mut j: usize = 0;
                while j < p.len()
                    invariant
                        j <= p@.len(),
                        triplets_within(p@, block.dimension as nat),
                        offset + block.dimension <= usize::MAX,
                        entries@ == base + shifted(p@.subrange(0, j as int), offset as nat),
                    decreases p.len() - j,
                {
                    let (a, b, v) = p[j];
                    assert(p@[j as int] == (a, b, v));
                    entries.push((a + offset, b + offset, v));
                    j = j + 1;
                    assert(entries@ =~= base + shifted(p@.subrange(0, j as int), offset as nat));
                }
                assert(p@.subrange(0, p@.len() as int) =~= p@);
            },
        }
        let mut j: usize = 0;
        let ghost base_mean = mean@;
        while j < block.mean.len()
            invariant
                j <= block.mean@.len(),
                mean@ == base_mean + block.mean@.subrange(0, j as int),
            decreases block.mean.len() - j,
        {
            mean.push(block.mean[j]);
            j = j + 1;
            assert(mean@ =~= base_mean + block.mean@.subrange(0, j as int));
        }
        assert(block.mean@.subrange(0, block.mean@.len() as int) =~= block.mean@);
        offset = offset + block.dimension;
        k = k + 1;
        proof {
            assert(all_stored(next)) by {
                assert forall|q: int| 0 <= q < next.len() implies (#[trigger] next[q]).precision is Some by {
                    if q < k - 1 {
                        assert(next[q] == pre[q]);
                    }
                }
            }
        }
    }
    assert(blocks@.subrange(0, blocks@.len() as int) =~= blocks@);
    proof {
        lemma_block_diagonal_well_formed(blocks@);
    }
    Ok(LatentBlock { dimension: offset, mean, precision: Some(entries) })
}

/// The block-diagonal combination of consistent blocks is consistent: its
/// stacked mean has one entry per dimension and its triplets lie inside the
/// square of the total dimension.
pub proof fn lemma_block_diagonal_well_formed<T>(bs: Seq<LatentBlock<T>>)
    requires
        forall|k: int| 0 <= k < bs.len() ==> block_well_formed(#[trigger] bs[k]),
    ensures
        stacked_means(bs).len() == total_dimension(bs),
        triplets_within(block_diagonal_triplets(bs), total_dimension(bs)),
    decreases bs.len(),
{
    if bs.len() > 0 {
        let pre = bs.drop_last();
        assert forall|k: int| 0 <= k < pre.len() implies block_well_formed(#[trigger] pre[k]) by {
            assert(pre[k] == bs[k]);
        }
        lemma_block_diagonal_well_formed(pre);
        let last = bs.last();
        assert(block_well_formed(bs[bs.len() - 1]));
        let a = block_diagonal_triplets(pre);
        let b = shifted(block_triplets(last), total_dimension(pre));
        let n = total_dimension(bs);
        assert forall|i: int| 0 <= i < (a + b).len() implies (#[trigger] (a + b)[i]).0 < n && (a
            + b)[i].1 < n by {
            if i >= a.len() {
                assert((a + b)[i] == b[i - a.len()]);
                assert(block_triplets(last)[i - a.len()].0 < last.dimension);
            } else {
                assert((a + b)[i] == a[i]);
            }
        }
    }
}

/// Number of precision triplets of the blocks, all together.
pub open spec fn triplet_count<T>(bs: Seq<LatentBlock<T>>) -> nat
    decreases bs.len(),
{
    if bs.len() == 0 {
        0
    } else {
        triplet_count(bs.drop_last()) + block_triplets(bs.last()).len()
    }
}

/// Placement law of the block-diagonal combination: it holds one triplet per
/// triplet of the blocks, block after block, and triplet `q` of block `k`
/// becomes the same value moved down and right by the sum of the dimensions
/// of the blocks before `k`. For consistent blocks, block `k` thus lands in
/// the rows and columns `[d_0 + .. + d_(k-1), d_0 + .. + d_k)`, ranges that are
/// disjoint for distinct blocks.
pub proof fn lemma_block_diagonal_placement<T>(bs: Seq<LatentBlock<T>>, k: int, q: int)
    requires
        0 <= k < bs.len(),
        0 <= q < block_triplets(bs[k]).len(),
    ensures
        block_diagonal_triplets(bs).len() == triplet_count(bs),
        ({
            let before = bs.subrange(0, k);
            let off = total_dimension(before);
            let e = block_triplets(bs[k])[q];
            &&& triplet_count(before) + q < triplet_count(bs)
            &&& block_diagonal_triplets(bs)[triplet_count(before) + q] == (
                (e.0 + off) as usize,
                (e.1 + off) as usize,
                e.2,
            )
            &&& block_well_formed(bs[k]) ==> {
                &&& off <= e.0 + off < off + bs[k].dimension
                &&& off <= e.1 + off < off + bs[k].dimension
                &&& off + bs[k].dimension == total_dimension(bs.subrange(0, k + 1))
            }
        }),
    decreases bs.len(),
{
    lemma_triplet_count_len(bs);
    let pre = bs.drop_last();
    lemma_triplet_count_len(pre);
    let before = bs.subrange(0, k);
    let next = bs.subrange(0, k + 1);
    assert(next.drop_last() =~= before);
    assert(next.last() == bs[k]);
    if k == bs.len() - 1 {
        assert(before =~= pre);
    } else {
        assert(pre.subrange(0, k) =~= before);
        assert(pre[k] == bs[k]);
        lemma_block_diagonal_placement(pre, k, q);
        lemma_triplet_count_prefix(pre, k + 1);
        assert(pre.subrange(0, k + 1) =~= next);
        assert(triplet_count(next) == triplet_count(before) + block_triplets(bs[k]).len());
    }
}

proof fn lemma_triplet_count_len<T>(bs: Seq<LatentBlock<T>>)
    ensures
        block_diagonal_triplets(bs).len() == triplet_count(bs),
    decreases bs.len(),
{
    if bs.len() > 0 {
        lemma_triplet_count_len(bs.drop_last());
    }
}

proof fn lemma_triplet_count_prefix<T>(bs: Seq<LatentBlock<T>>, k: int)
    requires
        0 <= k <= bs.len(),
    ensures
        triplet_count(bs.subrange(0, k)) <= triplet_count(bs),
    decreases bs.len(),
{
    if k < bs.len() {
        assert(bs.drop_last().subrange(0, k) =~= bs.subrange(0, k));
        lemma_triplet_count_prefix(bs.drop_last(), k);
    } else {
        assert(bs.subrange(0, k) =~= bs);
    }
}

/// Layout law of the chain stencil of `length >= 1` nodes: it holds
/// `3 * length - 2` entries; for every node `i` but the last, entry `3 * i` is
/// its diagonal (`FirstDiagonal` for node `0`, `InteriorDiagonal` otherwise)
/// and entries `3 * i + 1`, `3 * i + 2` are the couplings `(i, i + 1)` and
/// `(i + 1, i)`; the final entry is the diagonal of node `length - 1`, with the
/// role `LastDiagonal`.
pub proof fn lemma_chain_stencil_layout(length: nat, i: int)
    requires
        1 <= length <= usize::MAX,
        0 <= i < length,
    ensures
        chain_entries(length, length).len() == 3 * length - 2,
        i + 1 == length ==> chain_entries(length, length)[3 * i] == (
            i as usize,
            i as usize,
            ChainEntry::LastDiagonal,
        ),
        i + 1 < length ==> {
            &&& chain_entries(length, length)[3 * i] == (
                i as usize,
                i as usize,
                if i == 0 {
                    ChainEntry::FirstDiagonal
                } else {
                    ChainEntry::InteriorDiagonal
                },
            )
            &&& chain_entries(length, length)[3 * i + 1] == (
                i as usize,
                (i + 1) as usize,
                ChainEntry::Coupling,
            )
            &&& chain_entries(length, length)[3 * i + 2] == (
                (i + 1) as usize,
                i as usize,
                ChainEntry::Coupling,
            )
        },
{
    lemma_chain_prefix_layout(length, length, i);
}

proof fn lemma_chain_prefix_len(length: nat, k: nat)
    requires
        k < length,
    ensures
        chain_entries(length, k).len() == 3 * k,
    decreases k,
{
    if k > 0 {
        lemma_chain_prefix_len(length, (k - 1) as nat);
    }
}

proof fn lemma_chain_prefix_layout(length: nat, k: nat, i: int)
    requires
        1 <= length <= usize::MAX,
        0 <= i < k <= length,
    ensures
        k == length ==> chain_entries(length, k).len() == 3 * length - 2,
        k < length ==> chain_entries(length, k).len() == 3 * k,
        i + 1 == length ==> chain_entries(length, k)[3 * i] == (
            i as usize,
            i as usize,
            ChainEntry::LastDiagonal,
        ),
        i + 1 < length ==> {
            &&& chain_entries(length, k)[3 * i] == (
                i as usize,
                i as usize,
                if i == 0 {
                    ChainEntry::FirstDiagonal
                } else {
                    ChainEntry::InteriorDiagonal
                },
            )
            &&& chain_entries(length, k)[3 * i + 1] == (
                i as usize,
                (i + 1) as usize,
                ChainEntry::Coupling,
            )
            &&& chain_entries(length, k)[3 * i + 2] == (
                (i + 1) as usize,
                i as usize,
                ChainEntry::Coupling,
            )
        },
    decreases k,
{
    let p = (k - 1) as nat;
    lemma_chain_prefix_len(length, p);
    let a = chain_entries(length, p);
    let b = chain_node_entries(length, p);
    assert(chain_entries(length, k) == a + b);
    if i < p {
        lemma_chain_prefix_layout(length, p, i);
        assert((a + b)[3 * i] == a[3 * i]);
        if i + 1 < length {
            assert((a + b)[3 * i + 1] == a[3 * i + 1]);
            assert((a + b)[3 * i + 2] == a[3 * i + 2]);
        }
    } else {
        assert((a + b)[3 * i] == b[0]);
        if i + 1 < length {
            assert((a + b)[3 * i + 1] == b[1]);
            assert((a + b)[3 * i + 2] == b[2]);
        }
    }
}

/// Placement law of the stacked means: entry `q` of the mean of block `k`
/// becomes entry `d_0 + .. + d_(k-1) + q` of the combined mean, and the
/// combined mean has one entry per dimension.
pub proof fn lemma_stacked_mean_placement<T>(bs: Seq<LatentBlock<T>>, k: int, q: int)
    requires
        forall|m: int| 0 <= m < bs.len() ==> block_well_formed(#[trigger] bs[m]),
        0 <= k < bs.len(),
        0 <= q < bs[k].dimension,
    ensures
        stacked_means(bs).len() == total_dimension(bs),
        total_dimension(bs.subrange(0, k)) + q < total_dimension(bs),
        stacked_means(bs)[total_dimension(bs.subrange(0, k)) + q] == bs[k].mean@[q],
    decreases bs.len(),
{
    let pre = bs.drop_last();
    assert forall|m: int| 0 <= m < pre.len() implies block_well_formed(#[trigger] pre[m]) by {
        assert(pre[m] == bs[m]);
    }
    lemma_block_diagonal_well_formed(bs);
    lemma_block_diagonal_well_formed(pre);
    assert(block_well_formed(bs[bs.len() - 1]));
    let before = bs.subrange(0, k);
    if k == bs.len() - 1 {
        assert(before =~= pre);
    } else {
        assert(pre.subrange(0, k) =~= before);
        assert(pre[k] == bs[k]);
        lemma_stacked_mean_placement(pre, k, q);
    }
}

} // verus!

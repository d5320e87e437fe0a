//! Index structure of the Kronecker product of sparse matrices given as
//! (row, column, value) triplets.

use vstd::prelude::*;

verus! {

/// Every triplet of `p` lies in a `rows` by `cols` matrix.
pub open spec fn triplets_in<T>(p: Seq<(usize, usize, T)>, rows: nat, cols: nat) -> bool {
    forall|i: int| 0 <= i < p.len() ==> (#[trigger] p[i]).0 < rows && p[i].1 < cols
}

/// Where the Kronecker product puts the product of entry `ea` of the first
/// factor and entry `eb` of the second (of `b_rows` rows and `b_cols`
/// columns), with the two values to be multiplied.
pub open spec fn kronecker_entry<T>(ea: (usize, usize, T), b_rows: nat, b_cols: nat, eb: (usize, usize, T)) -> (
    usize,
    usize,
    T,
    T,
) {
    ((ea.0 * b_rows + eb.0) as usize, (ea.1 * b_cols + eb.1) as usize, ea.2, eb.2)
}

/// The entries of the Kronecker product: for each entry of the first factor
/// in order, its products with every entry of the second factor in order.
pub open spec fn kronecker_entries<T>(
    a: Seq<(usize, usize, T)>,
    b_rows: nat,
    b_cols: nat,
    b: Seq<(usize, usize, T)>,
) -> Seq<(usize, usize, T, T)>
    decreases a.len(),
{
    if a.len() == 0 {
        Seq::empty()
    } else {
        kronecker_entries(a.drop_last(), b_rows, b_cols, b) + Seq::new(
            b.len(),
            |j: int| kronecker_entry(a.last(), b_rows, b_cols, b[j]),
        )
    }
}

/// The entries of the Kronecker product `A ⊗ B` of an `a_rows` by `a_cols`
/// matrix `A` and a `b_rows` by `b_cols` matrix `B` given as triplets: entry
/// `(ai, aj)` of `A` and entry `(bi, bj)` of `B` meet at row
/// `ai * b_rows + bi` and column `aj * b_cols + bj`, carrying both values for
/// the caller to multiply. The product has `a_rows * b_rows` rows and
/// `a_cols * b_cols` columns.
pub fn kronecker_pairs<T: Copy>(
    a_rows: usize,
    a_cols: usize,
    a: &[(usize, usize, T)],
    b_rows: usize,
    b_cols: usize,
    b: &[(usize, usize, T)],
) -> (r: Vec<(usize, usize, T, T)>)
    requires
        a_rows * b_rows <= usize::MAX,
        a_cols * b_cols <= usize::MAX,
        triplets_in(a@, a_rows as nat, a_cols as nat),
        triplets_in(b@, b_rows as nat, b_cols as nat),
    ensures
        r@ == kronecker_entries(a@, b_rows as nat, b_cols as nat, b@),
{
    let mut r: Vec<(usize, usize, T, T)> = Vec::new();
    let mut i: usize = 0;
    while i < a.len()
        invariant
            i <= a@.len(),
            a_rows * b_rows <= usize::MAX,
            a_cols * b_cols <= usize::MAX,
            triplets_in(a@, a_rows as nat, a_cols as nat),
            triplets_in(b@, b_rows as nat, b_cols as nat),
            r@ == kronecker_entries(a@.subrange(0, i as int), b_rows as nat, b_cols as nat, b@),
        decreases a.len() - i,
    {
        let (ai, aj, av) = a[i];
        assert(a@[i as int] == (ai, aj, av));
        let ghost base = r@;
        let mut j: usize = 0;
        while j < b.len()
            invariant
                j <= b@.len(),
                ai < a_rows,
                aj < a_cols,
                a_rows * b_rows <= usize::MAX,
                a_cols * b_cols <= usize::MAX,
                triplets_in(b@, b_rows as nat, b_cols as nat),
                r@ == base + Seq::new(
                    j as nat,
                    |q: int| kronecker_entry((ai, aj, av), b_rows as nat, b_cols as nat, b@[q]),
                ),
            decreases b.len() - j,
        {
            let (bi, bj, bv) = b[j];
            assert(b@[j as int] == (bi, bj, bv));
            assert(ai * b_rows + bi < a_rows * b_rows) by (nonlinear_arith)
                requires
                    ai < a_rows,
                    bi < b_rows,
            ;
            assert(aj * b_cols + bj < a_cols * b_cols) by (nonlinear_arith)
                requires
                    aj < a_cols,
                    bj < b_cols,
            ;
            r.push((ai * b_rows + bi, aj * b_cols + bj, av, bv));
            j = j + 1;
            assert(r@ =~= base + Seq::new(
                j as nat,
                |q: int| kronecker_entry((ai, aj, av), b_rows as nat, b_cols as nat, b@[q]),
            ));
        }
        let ghost next = a@.subrange(0, i + 1);
        assert(next.drop_last() =~= a@.subrange(0, i as int));
        assert(next.last() == (ai, aj, av));
        i = i + 1;
        assert(r@ =~= kronecker_entries(a@.subrange(0, i as int), b_rows as nat, b_cols as nat, b@));
    }
    assert(a@.subrange(0, a@.len() as int) =~= a@);
    r
}

/// Layout of the Kronecker entries: there is one per pair of entries of the
/// factors, and the product of `a[i]` and `b[j]` stands at `i * b.len() + j`.
pub proof fn lemma_kronecker_layout<T>(
    a: Seq<(usize, usize, T)>,
    b_rows: nat,
    b_cols: nat,
    b: Seq<(usize, usize, T)>,
    i: int,
    j: int,
)
    requires
        0 <= i < a.len(),
        0 <= j < b.len(),
    ensures
        kronecker_entries(a, b_rows, b_cols, b).len() == a.len() * b.len(),
        kronecker_entries(a, b_rows, b_cols, b)[i * b.len() + j] == kronecker_entry(
            a[i],
            b_rows,
            b_cols,
            b[j],
        ),
    decreases a.len(),
{
    lemma_kronecker_len(a, b_rows, b_cols, b);
    let pre = a.drop_last();
    lemma_kronecker_len(pre, b_rows, b_cols, b);
    let k = kronecker_entries(pre, b_rows, b_cols, b);
    if i < a.len() - 1 {
        lemma_kronecker_layout(pre, b_rows, b_cols, b, i, j);
        assert(i * b.len() + j < pre.len() * b.len()) by (nonlinear_arith)
            requires
                i < pre.len(),
                0 <= j < b.len(),
        ;
        assert(pre[i] == a[i]);
    } else {
        assert(i * b.len() == k.len());
    }
}

proof fn lemma_kronecker_len<T>(a: Seq<(usize, usize, T)>, b_rows: nat, b_cols: nat, b: Seq<(usize, usize, T)>)
    ensures
        kronecker_entries(a, b_rows, b_cols, b).len() == a.len() * b.len(),
    decreases a.len(),
{
    if a.len() > 0 {
        lemma_kronecker_len(a.drop_last(), b_rows, b_cols, b);
        assert(a.len() * b.len() == (a.len() - 1) * b.len() + b.len()) by (nonlinear_arith);
    }
}

/// The Kronecker placement is one-to-one and stays inside the product: from
/// the row and column of a product entry one reads back the rows and columns
/// of the two entries it came from.
pub proof fn lemma_kronecker_entry_inverse<T>(
    a_rows: nat,
    a_cols: nat,
    ea: (usize, usize, T),
    b_rows: nat,
    b_cols: nat,
    eb: (usize, usize, T),
)
    requires
        a_rows * b_rows <= usize::MAX,
        a_cols * b_cols <= usize::MAX,
        ea.0 < a_rows,
        ea.1 < a_cols,
        eb.0 < b_rows,
        eb.1 < b_cols,
    ensures
        kronecker_entry(ea, b_rows, b_cols, eb).0 < a_rows * b_rows,
        kronecker_entry(ea, b_rows, b_cols, eb).1 < a_cols * b_cols,
        kronecker_entry(ea, b_rows, b_cols, eb).0 as nat / b_rows == ea.0,
        kronecker_entry(ea, b_rows, b_cols, eb).0 as nat % b_rows == eb.0,
        kronecker_entry(ea, b_rows, b_cols, eb).1 as nat / b_cols == ea.1,
        kronecker_entry(ea, b_rows, b_cols, eb).1 as nat % b_cols == eb.1,
{
    assert(ea.0 * b_rows + eb.0 < a_rows * b_rows) by (nonlinear_arith)
        requires
            ea.0 < a_rows,
            eb.0 < b_rows,
    ;
    assert(ea.1 * b_cols + eb.1 < a_cols * b_cols) by (nonlinear_arith)
        requires
            ea.1 < a_cols,
            eb.1 < b_cols,
    ;
    vstd::arithmetic::div_mod::lemma_fundamental_div_mod_converse(
        ea.0 * b_rows + eb.0,
        b_rows as int,
        ea.0 as int,
        eb.0 as int,
    );
    vstd::arithmetic::div_mod::lemma_fundamental_div_mod_converse(
        ea.1 * b_cols + eb.1,
        b_cols as int,
        ea.1 as int,
        eb.1 as int,
    );
}

} // verus!

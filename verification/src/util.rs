pub mod pos;

pub use pos::{LibrarySymbolType, ModuleId, Pos};
pub mod ordered_map;
pub use ordered_map::OrderedMap;
pub mod chain_map;
pub use chain_map::ChainMap;
pub mod linked;
pub use linked::LinkedStack;
pub mod text;
pub mod interner;
pub use interner::Interner;

use vstd::prelude::*;

verus! {

/// `a / b`, rounded up.
pub open spec fn spec_div_up(a: nat, b: nat) -> nat
    recommends
        b > 0,
{
    if a == 0 {
        0
    } else {
        ((a - 1) / (b as int) + 1) as nat
    }
}

/// How many steps of `b` it takes to cover `0..a`: `a / b` rounded up.
pub fn div_up(a: usize, b: usize) -> (r: usize)
    requires
        b > 0,
    ensures
        r == spec_div_up(a as nat, b as nat),
        r * b >= a,
        r == 0 || (r - 1) * b < a,
{
    if a == 0 {
        0
    } else {
        let q = (a - 1) / b;
        assert(q * b <= a - 1 && a - 1 < q * b + b) by (nonlinear_arith)
            requires
                q == (a - 1) / (b as int),
                b > 0,
                a >= 1,
        ;
        assert(q < a) by (nonlinear_arith)
            requires
                q * b <= a - 1,
                b > 0,
        ;
        assert((q + 1) * b == q * b + b) by (nonlinear_arith);
        q + 1
    }
}

/// Column `j` of a ragged matrix: item `j` of every row long enough, in row order.
pub open spec fn column<T>(m: Seq<Seq<T>>, j: int) -> Seq<T>
    decreases m.len(),
{
    if m.len() == 0 {
        Seq::empty()
    } else {
        column(m.drop_last(), j) + if 0 <= j < m.last().len() {
            seq![m.last()[j]]
        } else {
            Seq::empty()
        }
    }
}

/// The length of the longest row.
pub open spec fn max_row_len<T>(m: Seq<Seq<T>>) -> nat
    decreases m.len(),
{
    if m.len() == 0 {
        0
    } else {
        let rest = max_row_len(m.drop_last());
        if m.last().len() > rest {
            m.last().len()
        } else {
            rest
        }
    }
}

/// The rows of `m` turned into columns: row `j` of the result holds item `j`
/// of each row of `m` that has one, in order.
pub open spec fn transposed<T>(m: Seq<Seq<T>>) -> Seq<Seq<T>> {
    Seq::new(max_row_len(m), |j: int| column(m, j))
}

/// Turns rows into columns; rows may differ in length.
pub fn transpose<T: Copy>(m: &[Vec<T>]) -> (r: Vec<Vec<T>>)
    ensures
        r@.len() == max_row_len(m@.map_values(|v: Vec<T>| v@)),
        forall|j: int| 0 <= j < r@.len() ==> (#[trigger] r@[j])@ == transposed(m@.map_values(|v: Vec<T>| v@))[j],
{
    let ghost mm = m@.map_values(|v: Vec<T>| v@);
    let mut rows: usize = 0;
    let mut i: usize = 0;
    while i < m.len()
        invariant
            i <= m@.len(),
            mm == m@.map_values(|v: Vec<T>| v@),
            rows == max_row_len(mm.take(i as int)),
        decreases m@.len() - i,
    {
        proof {
            assert(mm.take(i + 1).drop_last() =~= mm.take(i as int));
        }
        if m[i].len() > rows {
            rows = m[i].len();
        }
        i = i + 1;
    }
    proof {
        assert(mm.take(m@.len() as int) =~= mm);
    }
    let mut row_vec: Vec<Vec<T>> = Vec::new();
    let mut j: usize = 0;
    while j < rows
        invariant
            j <= rows,
            row_vec@.len() == j,
            forall|k: int| 0 <= k < j ==> (#[trigger] row_vec@[k])@ == Seq::<T>::empty(),
        decreases rows - j,
    {
        row_vec.push(Vec::new());
        j = j + 1;
    }
    let mut i: usize = 0;
    while i < m.len()
        invariant
            i <= m@.len(),
            mm == m@.map_values(|v: Vec<T>| v@),
            rows == max_row_len(mm),
            row_vec@.len() == rows,
            forall|k: int| 0 <= k < rows ==> (#[trigger] row_vec@[k])@ == column(mm.take(i as int), k),
        decreases m@.len() - i,
    {
        proof {
            lemma_row_le_max(mm, i as int);
        }
        let row = &m[i];
        let mut k: usize = 0;
        while k < row.len()
            invariant
                i < m@.len(),
                k <= row@.len(),
                row@ == mm[i as int],
                row@.len() <= rows,
                row_vec@.len() == rows,
                forall|c: int| 0 <= c < k ==> (#[trigger] row_vec@[c])@ == column(mm.take(i as int), c).push(row@[c]),
                forall|c: int| k <= c < rows ==> (#[trigger] row_vec@[c])@ == column(mm.take(i as int), c),
            decreases row@.len() - k,
        {
            let item = row[k];
            let mut col = Vec::new();
            std::mem::swap(&mut col, &mut row_vec[k]);
            col.push(item);
            row_vec.set(k, col);
            k = k + 1;
        }
        proof {
            assert forall|c: int| 0 <= c < rows implies (#[trigger] row_vec@[c])@ == column(mm.take(i + 1), c) by {
                assert(mm.take(i + 1).drop_last() =~= mm.take(i as int));
                assert(mm.take(i + 1).last() == mm[i as int]);
                if c < row@.len() {
                    assert(column(mm.take(i as int), c).push(row@[c]) =~= column(mm.take(i as int), c) + seq![row@[c]]);
                } else {
                    assert(column(mm.take(i as int), c) =~= column(mm.take(i as int), c) + Seq::<T>::empty());
                }
            }
        }
        i = i + 1;
    }
    proof {
        assert(mm.take(m@.len() as int) =~= mm);
    }
    row_vec
}

/// No row is longer than the longest one.
proof fn lemma_row_le_max<T>(m: Seq<Seq<T>>, i: int)
    requires
        0 <= i < m.len(),
    ensures
        m[i].len() <= max_row_len(m),
    decreases m.len(),
{
    if i < m.len() - 1 {
        lemma_row_le_max(m.drop_last(), i);
    }
}

} // verus!

//! The weights of a blur: how much a neighbour counts, by how far it lies
//! from the centre of the window.
//!
//! A kernel is a table of whole numbers. The entry in row `dy`, column `dx`
//! is the weight of the four neighbours that lie `dx` columns and `dy` rows
//! from the centre, whichever way. Only the proportions of the weights
//! matter: the blur divides by their sum. A neighbour that lies beyond the
//! table has no weight.

use vstd::prelude::*;

verus! {

/// The largest weight a kernel can hold: two to the power of 53. With it the
/// sums over the largest window still fit in 128 bits.
pub const MAX_WEIGHT: u64 = 0x20_0000_0000_0000;

/// The rows of a table, each as a sequence.
pub open spec fn table_of(rows: Seq<Vec<u64>>) -> Seq<Seq<u64>> {
    Seq::new(rows.len(), |b: int| rows[b]@)
}

/// Whether a table can serve as a kernel: it has a row and a column, all its
/// rows are as long as the first, no weight exceeds `MAX_WEIGHT`, and the
/// centre, the entry in row 0 and column 0, has a weight above zero.
pub open spec fn is_kernel_table(table: Seq<Seq<u64>>) -> bool {
    &&& table.len() >= 1
    &&& table[0].len() >= 1
    &&& table[0][0] > 0
    &&& forall|b: int| 0 <= b < table.len() ==> (#[trigger] table[b]).len() == table[0].len()
    &&& forall|a: int, b: int|
        0 <= b < table.len() && 0 <= a < table[b].len() ==> #[trigger] table[b][a] <= MAX_WEIGHT
}

/// Distance that a difference of coordinates spans.
pub open spec fn span(d: int) -> int {
    if d < 0 {
        -d
    } else {
        d
    }
}

/// Weight of a neighbour that lies `dx` columns and `dy` rows from the
/// centre: the table's entry for that distance, and zero beyond the table.
pub open spec fn table_weight(table: Seq<Seq<u64>>, dx: int, dy: int) -> int {
    if span(dy) < table.len() && span(dx) < table[span(dy)].len() {
        table[span(dy)][span(dx)] as int
    } else {
        0
    }
}

/// The weights of a blur.
pub struct Kernel {
    rows: Vec<Vec<u64>>,
}

impl View for Kernel {
    type V = Seq<Seq<u64>>;

    /// The table of the kernel, row by row.
    closed spec fn view(&self) -> Seq<Seq<u64>> {
        table_of(self.rows@)
    }
}

impl Kernel {
    #[verifier::type_invariant]
    spec fn valid(&self) -> bool {
        is_kernel_table(table_of(self.rows@))
    }

    /// Makes a kernel of a table of weights, `rows[dy][dx]` for the
    /// neighbours `dx` columns and `dy` rows from the centre. The result is
    /// `None` where the table cannot serve as a kernel.
    pub fn new(rows: Vec<Vec<u64>>) -> (kernel: Option<Kernel>)
        ensures
            kernel is Some <==> is_kernel_table(table_of(rows@)),
            kernel matches Some(k) ==> k@ == table_of(rows@),
    {
        let ghost table = table_of(rows@);
        if rows.len() == 0 {
            return None;
        }
        let cols = rows[0].len();
        if cols == 0 {
            return None;
        }
        if rows[0][0] == 0 {
            return None;
        }
        let mut b: usize = 0;
        while b < rows.len()
            invariant
                b <= rows@.len(),
                table == table_of(rows@),
                cols == table[0].len(),
                forall|j: int| 0 <= j < b ==> (#[trigger] table[j]).len() == cols,
                forall|a: int, j: int|
                    0 <= j < b && 0 <= a < table[j].len() ==> #[trigger] table[j][a] <= MAX_WEIGHT,
            decreases rows@.len() - b,
        {
            let row = &rows[b];
            assert(row@ == table[b as int]);
            if row.len() != cols {
                return None;
            }
            let mut a: usize = 0;
            while a < cols
                invariant
                    a <= cols,
                    cols == row@.len(),
                    b < rows@.len(),
                    table == table_of(rows@),
                    row@ == table[b as int],
                    forall|i: int| 0 <= i < a ==> #[trigger] row@[i] <= MAX_WEIGHT,
                decreases cols - a,
            {
                if row[a] > MAX_WEIGHT {
                    assert(table[b as int][a as int] > MAX_WEIGHT);
                    return None;
                }
                a = a + 1;
            }
            b = b + 1;
        }
        Some(Kernel { rows })
    }

    /// The weight of a neighbour that lies `dx` columns and `dy` rows from
    /// the centre, whichever way.
    pub fn weight_at(&self, dx: usize, dy: usize) -> (weight: u64)
        ensures
            weight == table_weight(self@, dx as int, dy as int),
            weight <= MAX_WEIGHT,
            is_kernel_table(self@),
    {
        proof {
            use_type_invariant(self);
        }
        if dy < self.rows.len() {
            let row = &self.rows[dy];
            assert(row@ == table_of(self.rows@)[dy as int]);
            if dx < row.len() {
                row[dx]
            } else {
                0
            }
        } else {
            0
        }
    }
}

} // verus!

use vstd::prelude::*;

verus! {

/// `m` is an `n`-by-`n` table.
pub open spec fn square(m: Seq<Seq<u64>>) -> bool {
    forall|i: int| 0 <= i < m.len() ==> (#[trigger] m[i]).len() == m.len()
}

/// Every entry equals its mirror across the diagonal.
pub open spec fn symmetric(m: Seq<Seq<u64>>) -> bool {
    forall|i: int, j: int|
        0 <= i < m.len() && 0 <= j < m.len() ==> #[trigger] m[i][j] == m[j][i]
}

/// Every diagonal entry is zero: an object is at distance zero from itself.
pub open spec fn zero_diagonal(m: Seq<Seq<u64>>) -> bool {
    forall|i: int| 0 <= i < m.len() ==> #[trigger] m[i][i] == 0
}

/// The entry that the builder owes at position `(i, j)` when handed the
/// strictly-upper-triangular rows `upper`: zero on the diagonal, and the
/// caller's key for the unordered pair otherwise.
pub open spec fn triangle_entry(upper: Seq<Vec<u64>>, i: int, j: int) -> u64 {
    if i == j {
        0
    } else if i < j {
        upper[i]@[j - i - 1]
    } else {
        upper[j]@[i - j - 1]
    }
}

/// The strictly-upper-triangular rows are well shaped for `n` objects:
/// row `i` holds the keys for the pairs `(i, i+1) .. (i, n-1)`.
pub open spec fn triangle_shaped(upper: Seq<Vec<u64>>) -> bool {
    forall|i: int| 0 <= i < upper.len() ==> (#[trigger] upper[i])@.len() == upper.len() - 1 - i
}

/// The pairwise dissimilarity table of one problem instance: an `n`-by-`n`
/// symmetric matrix of order keys with a zero diagonal, built once and then
/// immutable.
///
/// A key is a non-negative dissimilarity on a totally ordered scale; the
/// merge engine reads keys only to compare them and to copy them into the
/// merge log.
pub struct DistanceMatrix {
    entries: Vec<Vec<u64>>,
}

impl View for DistanceMatrix {
    type V = Seq<Seq<u64>>;

    closed spec fn view(&self) -> Seq<Seq<u64>> {
        self.entries.deep_view()
    }
}

impl DistanceMatrix {
    /// The table is square, symmetric, and zero on the diagonal.
    pub open spec fn wf(&self) -> bool {
        square(self@) && symmetric(self@) && zero_diagonal(self@)
    }

    /// Number of objects (rows) of the table.
    pub fn dim(&self) -> (n: usize)
        ensures
            n == self@.len(),
    {
        self.entries.len()
    }

    /// The key at row `i`, column `j`.
    pub fn get(&self, i: usize, j: usize) -> (d: u64)
        requires
            square(self@),
            i < self@.len(),
            j < self@.len(),
        ensures
            d == self@[i as int][j as int],
    {
        assert(self@[i as int] == self.entries@[i as int].deep_view());
        self.entries[i][j]
    }

    /// Assemble the full table from the strictly-upper-triangular pair keys.
    ///
    /// Row `i` of `upper` holds the caller's dissimilarity keys between
    /// object `i` and each later object, so `upper` must have one row per
    /// object, of shrinking length; the single object of a one-object
    /// instance contributes one empty row. The result mirrors every key
    /// across the diagonal and puts zero on the diagonal, which is what
    /// makes the table symmetric by construction.
    pub fn build(upper: &Vec<Vec<u64>>) -> (m: DistanceMatrix)
        requires
            upper@.len() >= 1,
            triangle_shaped(upper@),
        ensures
            m.wf(),
            m@.len() == upper@.len(),
            forall|i: int, j: int|
                0 <= i < m@.len() && 0 <= j < m@.len()
                    ==> #[trigger] m@[i][j] == triangle_entry(upper@, i, j),
    {
        let n = upper.len();
        let mut entries: Vec<Vec<u64>> = Vec::new();
        let mut i: usize = 0;
        while i < n
            invariant
                n == upper@.len(),
                triangle_shaped(upper@),
                i <= n,
                entries@.len() == i,
                forall|p: int, q: int|
                    0 <= p < i && 0 <= q < n
                        ==> (#[trigger] entries@[p]@[q]) == triangle_entry(upper@, p, q),
                forall|p: int| 0 <= p < i ==> (#[trigger] entries@[p])@.len() == n,
            decreases n - i,
        {
            let mut row: Vec<u64> = Vec::new();
            let mut j: usize = 0;
            while j < n
                invariant
                    n == upper@.len(),
                    triangle_shaped(upper@),
                    i < n,
                    j <= n,
                    row@.len() == j,
                    forall|q: int|
                        0 <= q < j ==> (#[trigger] row@[q]) == triangle_entry(upper@, i as int, q),
                decreases n - j,
            {
                if j == i {
                    row.push(0);
                } else if i < j {
                    row.push(upper[i][j - i - 1]);
                } else {
                    row.push(upper[j][i - j - 1]);
                }
                j += 1;
            }
            entries.push(row);
            i += 1;
        }
        let m = DistanceMatrix { entries };
        assert forall|p: int, q: int|
            0 <= p < m@.len() && 0 <= q < m@.len()
                implies #[trigger] m@[p][q] == triangle_entry(upper@, p, q) by {
            assert(m@[p] == m.entries@[p].deep_view());
        }
        assert forall|p: int| 0 <= p < m@.len() implies (#[trigger] m@[p]).len() == m@.len() by {
            assert(m@[p] == m.entries@[p].deep_view());
        }
        m
    }
}

} // verus!

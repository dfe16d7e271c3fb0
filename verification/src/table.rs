//! The table (tree) metadata the decoder works from: per column, the name,
//! the declared element type, and the ordered chunk index — for every chunk
//! its on-disk byte range and its cumulative end row.
//!
//! The chunk index is handed in by the caller: enumerating a file's columns
//! and chunks means interpreting the tree and branch objects the file's
//! embedded type descriptions define, which lives outside this crate.  The
//! decoder checks the index for well-formedness and consumes it.
use vstd::prelude::*;

verus! {

/// One column (branch) of the table: its name, its declared element type
/// tag (such as `f64` or `i32`), and its ordered chunk index.
pub struct ColumnDesc {
    /// The column's name.
    pub name: String,
    /// The column's declared element type tag.
    pub type_tag: String,
    /// Per chunk, its on-disk byte range (start, length).
    pub containers: Vec<(u32, u32)>,
    /// Per chunk, the cumulative row count at its end: a strictly
    /// increasing sequence whose last element equals the table's entries.
    pub boundaries: Vec<u64>,
}

impl ColumnDesc {
    /// A well-formed chunk index: one boundary per chunk, at least one
    /// chunk, strictly increasing boundaries ending at the table's entries.
    pub open spec fn wf(self, entries: u64) -> bool {
        &&& self.containers@.len() == self.boundaries@.len()
        &&& self.boundaries@.len() >= 1
        &&& forall|i: int, j: int|
            0 <= i < j < self.boundaries@.len() ==> self.boundaries@[i] < self.boundaries@[j]
        &&& self.boundaries@[0] >= 1
        &&& self.boundaries@.last() == entries
    }
}

/// The single supported table of a file: its total row count and its
/// ordered columns.
pub struct TableDesc {
    /// The table's total number of rows.
    pub entries: u64,
    /// The table's columns, in file column order.
    pub columns: Vec<ColumnDesc>,
}

impl TableDesc {
    /// A well-formed table: at least one column, each with a well-formed
    /// chunk index ending at the table's entries.
    pub open spec fn wf(self) -> bool {
        &&& self.columns@.len() >= 1
        &&& forall|c: int|
            0 <= c < self.columns@.len() ==> #[trigger] self.columns@[c].wf(self.entries)
    }

    /// Checks well-formedness at run time.
    pub fn check_wf(&self) -> (r: bool)
        ensures
            r == self.wf(),
    {
        if self.columns.len() == 0 {
            return false;
        }
        let mut c: usize = 0;
        while c < self.columns.len()
            invariant
                c <= self.columns@.len(),
                forall|k: int| 0 <= k < c ==> #[trigger] self.columns@[k].wf(self.entries),
            decreases self.columns@.len() - c,
        {
            let col = &self.columns[c];
            if col.containers.len() != col.boundaries.len() || col.boundaries.len() == 0 {
                proof {
                    assert(!self.wf()) by {
                        if self.wf() {
                            assert(self.columns@[c as int].wf(self.entries));
                        }
                    }
                }
                return false;
            }
            if col.boundaries[col.boundaries.len() - 1] != self.entries || col.boundaries[0] == 0 {
                proof {
                    assert(!self.wf()) by {
                        if self.wf() {
                            assert(self.columns@[c as int].wf(self.entries));
                        }
                    }
                }
                return false;
            }
            let blen = col.boundaries.len();
            let mut i: usize = 0;
            while i < blen - 1
                invariant
                    c < self.columns@.len(),
                    *col == self.columns@[c as int],
                    blen == col.boundaries@.len(),
                    blen >= 1,
                    i < col.boundaries@.len(),
                    forall|k: int| 0 <= k < i ==> #[trigger] col.boundaries@[k] < col.boundaries@[k + 1],
                decreases col.boundaries@.len() - i,
            {
                if col.boundaries[i] >= col.boundaries[i + 1] {
                    proof {
                        assert(!self.wf()) by {
                            if self.wf() {
                                assert(self.columns@[c as int].wf(self.entries));
                                assert(col.boundaries@[i as int] < col.boundaries@[i as int + 1]);
                            }
                        }
                    }
                    return false;
                }
                i += 1;
            }
            proof {
                lemma_sorted_from_adjacent(col.boundaries@);
            }
            c += 1;
        }
        true
    }
}

/// Strictly increasing adjacent pairs make the whole sequence strictly
/// increasing.
pub proof fn lemma_sorted_from_adjacent(s: Seq<u64>)
    requires
        forall|k: int| 0 <= k < s.len() - 1 ==> #[trigger] s[k] < s[k + 1],
    ensures
        forall|i: int, j: int| 0 <= i < j < s.len() ==> s[i] < s[j],
{
    assert forall|i: int, j: int| 0 <= i < j < s.len() implies s[i] < s[j] by {
        lemma_sorted_pair(s, i, j);
    }
}

proof fn lemma_sorted_pair(s: Seq<u64>, i: int, j: int)
    requires
        forall|k: int| 0 <= k < s.len() - 1 ==> #[trigger] s[k] < s[k + 1],
        0 <= i < j < s.len(),
    ensures
        s[i] < s[j],
    decreases j - i,
{
    if i + 1 < j {
        lemma_sorted_pair(s, i, j - 1);
    }
}

} // verus!

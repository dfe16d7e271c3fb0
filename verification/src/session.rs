//! The incremental decode session.
//!
//! A session holds the immutable, file-scoped metadata (column schema and
//! row-group index) plus a mutable cache of the most recently materialized
//! row group.  A decode request is served from the cache whenever its row
//! range and projection both fall inside the cached group; otherwise the
//! group containing the first requested row is rebuilt and replaces the
//! cache.  Either way the returned batch depends only on the file bytes,
//! the immutable metadata and the request — never on the cache state.
use vstd::prelude::*;

use crate::batch::spec_type_of_tag;
use crate::batch::string_to_column_type;
use crate::batch::ColumnBuffer;
use crate::batch::ColumnData;
use crate::batch::ColumnarBatch;
use crate::batch::FieldMeta;
use crate::errors::RootError;
use crate::projection::spec_mask_bit;
use crate::projection::ColumnProjection;
use crate::rowgroup::spec_col_entry;
use crate::rowgroup::spec_column_payload;
use crate::rowgroup::spec_contiguous;
use crate::rowgroup::spec_flat;
use crate::rowgroup::spec_selected_upto;
use crate::rowgroup::conts;
use crate::rowgroup::RowGroup;
use crate::table::TableDesc;
use crate::Tid;

verus! {

/// The (name, tag) views of a schema restricted to the selected columns,
/// keeping file column order.
pub open spec fn spec_projected_schema(branches: Seq<FieldMeta>, mask: u64) -> Seq<
    (Seq<char>, Seq<char>),
> {
    spec_selected_upto(mask, branches.len() as int).map_values(
        |c: int| (branches[c].name@, branches[c].type_tag@),
    )
}

/// Projects a schema: keeps exactly the columns whose bit is set in the
/// mask, in file column order.
pub fn branches_to_schema(branches: &Vec<FieldMeta>, cols: u64) -> (r: Vec<FieldMeta>)
    ensures
        r@.map_values(|f: FieldMeta| (f.name@, f.type_tag@)) == spec_projected_schema(
            branches@,
            cols,
        ),
{
    let proj = ColumnProjection::from_u64(cols);
    let mut out: Vec<FieldMeta> = Vec::new();
    let mut c: usize = 0;
    while c < branches.len()
        invariant
            c <= branches@.len(),
            proj.spec_mask() == cols,
            out@.len() == spec_selected_upto(cols, c as int).len(),
            forall|i: int|
                0 <= i < out@.len() ==> (#[trigger] out@[i]).name@ == branches@[spec_selected_upto(
                    cols,
                    c as int,
                )[i]].name@ && out@[i].type_tag@ == branches@[spec_selected_upto(
                    cols,
                    c as int,
                )[i]].type_tag@,
        decreases branches@.len() - c,
    {
        let selected = c < 64 && proj.contains(c as u32);
        proof {
            assert(selected == spec_mask_bit(cols, c as int));
        }
        if selected {
            out.push(branches[c].duplicate());
        }
        proof {
            if selected {
                assert(spec_selected_upto(cols, c + 1) =~= spec_selected_upto(cols, c as int).push(
                    c as int,
                ));
            } else {
                assert(spec_selected_upto(cols, c + 1) =~= spec_selected_upto(cols, c as int));
            }
        }
        c += 1;
    }
    proof {
        let f = |f: FieldMeta| (f.name@, f.type_tag@);
        assert forall|i: int|
            0 <= i < out@.len() implies out@.map_values(f)[i] == spec_projected_schema(
            branches@,
            cols,
        )[i] by {
            assert(out@.map_values(f)[i] == f(out@[i]));
        }
        assert(out@.map_values(f) =~= spec_projected_schema(branches@, cols));
    }
    out
}

/// Whether every selected column of a row group decodes and fits its
/// declared type, so that the whole group materializes.
pub open spec fn spec_group_batch_ok(
    data: Seq<u8>,
    g: RowGroup,
    branches: Seq<FieldMeta>,
    mask: u64,
) -> bool {
    &&& g.count <= usize::MAX
    &&& forall|c: int|
        0 <= c < g.containers@.len() && spec_mask_bit(mask, c) ==> spec_col_entry(
            data,
            (#[trigger] g.containers@[c])@,
            branches[c].type_tag@,
            g.count as int,
        ) is Some
}

/// The batch entry of the `k`-th selected column of a row group.
pub open spec fn spec_batch_entry_at(
    data: Seq<u8>,
    g: RowGroup,
    branches: Seq<FieldMeta>,
    mask: u64,
    k: int,
) -> Option<Option<Seq<u8>>> {
    let sel = spec_selected_upto(mask, g.containers@.len() as int);
    spec_col_entry(data, g.containers@[sel[k]]@, branches[sel[k]].type_tag@, g.count as int)
}

/// Whether a batch's columns are exactly the decoded entries of a row
/// group's selected columns.
pub open spec fn spec_batch_cols_match(
    data: Seq<u8>,
    g: RowGroup,
    branches: Seq<FieldMeta>,
    mask: u64,
    b: ColumnarBatch,
) -> bool {
    forall|k: int|
        #![trigger b.spec_cols()[k]]
        0 <= k < b.spec_cols().len() ==> spec_batch_entry_at(data, g, branches, mask, k) == Some(
            b.spec_cols()[k],
        )
}

/// Decompresses and type-decodes the selected columns of one row group
/// into a columnar batch covering the whole group.
pub fn rowgroup_to_batch(
    data: &[u8],
    colmask: u64,
    rg: &RowGroup,
    branches: &Vec<FieldMeta>,
) -> (r: Result<ColumnarBatch, RootError>)
    requires
        branches@.len() == rg.containers@.len(),
    ensures
        match r {
            Ok(b) => {
                &&& spec_group_batch_ok(data@, *rg, branches@, colmask)
                &&& b.wf()
                &&& b.row_count == rg.count
                &&& b.spec_schema() == spec_projected_schema(branches@, colmask)
                &&& b.spec_cols().len() == spec_selected_upto(
                    colmask,
                    rg.containers@.len() as int,
                ).len()
                &&& spec_batch_cols_match(data@, *rg, branches@, colmask, b)
            },
            Err(e) => !spec_group_batch_ok(data@, *rg, branches@, colmask) && (e
                == RootError::TruncatedInput || e == RootError::UnsupportedStructure || e
                == RootError::DecompressError),
        },
{
    if rg.count > usize::MAX as u64 {
        return Err(RootError::UnsupportedStructure);
    }
    let rows = rg.count as usize;
    let schema = branches_to_schema(branches, colmask);
    let decoded = rg.decode(data, colmask)?;
    let ghost sel = spec_selected_upto(colmask, rg.containers@.len() as int);
    let mut columns: Vec<ColumnData> = Vec::new();
    let mut k: usize = 0;
    proof {
        lemma_selected_in_range(colmask, rg.containers@.len() as int);
        lemma_projected_tags(branches@, colmask);
        let f = |f: FieldMeta| (f.name@, f.type_tag@);
        assert forall|i: int|
            0 <= i < schema@.len() implies (#[trigger] schema@[i]).type_tag@ == branches@[sel[i]].type_tag@ by {
            assert(schema@.map_values(f)[i] == spec_projected_schema(branches@, colmask)[i]);
            assert(schema@.map_values(f)[i] == f(schema@[i]));
        }
    }
    while k < decoded.len()
        invariant
            rg.count <= usize::MAX,
            rows == rg.count,
            branches@.len() == rg.containers@.len(),
            sel == spec_selected_upto(colmask, rg.containers@.len() as int),
            decoded@.len() == sel.len(),
            forall|i: int| 0 <= i < sel.len() ==> 0 <= #[trigger] sel[i] < rg.containers@.len(),
            forall|i: int| 0 <= i < sel.len() ==> spec_mask_bit(colmask, #[trigger] sel[i]),
            forall|i: int|
                0 <= i < decoded@.len() ==> crate::rowgroup::spec_column_payload(
                    data@,
                    rg.containers@[sel[i]]@,
                ) == Some((#[trigger] decoded@[i]).1@),
            schema@.len() == sel.len(),
            forall|i: int|
                0 <= i < schema@.len() ==> (#[trigger] schema@[i]).type_tag@ == branches@[sel[i]].type_tag@,
            k <= decoded@.len(),
            columns@.len() == k,
            forall|i: int|
                #![trigger columns@[i]]
                0 <= i < k ==> spec_col_entry(
                    data@,
                    rg.containers@[sel[i]]@,
                    branches@[sel[i]].type_tag@,
                    rg.count as int,
                ) == Some(
                    match columns@[i] {
                        ColumnData::Values(b) => Some(b.spec_bytes()),
                        ColumnData::Unsupported => None,
                    },
                ),
            forall|i: int|
                0 <= i < k ==> match #[trigger] columns@[i] {
                    ColumnData::Values(b) => {
                        &&& b.wf()
                        &&& b.spec_rows() == rows
                        &&& spec_type_of_tag(branches@[sel[i]].type_tag@) == Some(b.spec_ty())
                    },
                    ColumnData::Unsupported => spec_type_of_tag(branches@[sel[i]].type_tag@)
                        is None,
                },
        decreases decoded@.len() - k,
    {
        let tag = &schema[k].type_tag;
        match string_to_column_type(tag) {
            Err(_) => {
                proof {
                    assert(spec_column_payload(data@, rg.containers@[sel[k as int]]@) == Some(
                        decoded@[k as int].1@,
                    ));
                    assert(spec_type_of_tag(branches@[sel[k as int]].type_tag@) is None);
                }
                columns.push(ColumnData::Unsupported);
            },
            Ok(ty) => {
                let size = ty.size();
                let bytes_len = decoded[k].1.len();
                proof {
                    assert((rows as int) * (size as int) <= (rows as int) * 8) by (nonlinear_arith)
                        requires
                            size as int <= 8,
                            rows as int >= 0,
                    ;
                }
                if (bytes_len as u128) != (rows as u128) * (size as u128) {
                    proof {
                        let c = sel[k as int];
                        assert(spec_col_entry(
                            data@,
                            rg.containers@[c]@,
                            branches@[c].type_tag@,
                            rg.count as int,
                        ) is None);
                        assert(!spec_group_batch_ok(data@, *rg, branches@, colmask)) by {
                            if spec_group_batch_ok(data@, *rg, branches@, colmask) {
                                assert(spec_col_entry(
                                    data@,
                                    rg.containers@[c]@,
                                    branches@[c].type_tag@,
                                    rg.count as int,
                                ) is Some);
                            }
                        }
                    }
                    return Err(RootError::DecompressError);
                }
                proof {
                    assert(spec_column_payload(data@, rg.containers@[sel[k as int]]@) == Some(
                        decoded@[k as int].1@,
                    ));
                    assert(spec_type_of_tag(branches@[sel[k as int]].type_tag@) == Some(ty));
                }
                let buf = crate::rowgroup::copy_payload(&decoded[k].1);
                columns.push(ColumnData::Values(ColumnBuffer::new(ty, buf, rows)));
            },
        }
        k += 1;
    }
    let b = ColumnarBatch { schema, columns, row_count: rows };
    proof {
        assert(b.spec_schema() =~= spec_projected_schema(branches@, colmask));
        assert forall|c: int|
            0 <= c < rg.containers@.len() && spec_mask_bit(colmask, c) implies spec_col_entry(
            data@,
            (#[trigger] rg.containers@[c])@,
            branches@[c].type_tag@,
            rg.count as int,
        ) is Some by {
            lemma_selected_covers(colmask, rg.containers@.len() as int, c);
            let i = choose|i: int| 0 <= i < sel.len() && sel[i] == c;
            let ce = columns@[i];
            assert(spec_col_entry(
                data@,
                rg.containers@[sel[i]]@,
                branches@[sel[i]].type_tag@,
                rg.count as int,
            ) is Some);
        }
    }
    Ok(b)
}

/// Every index in the selected list is a set mask bit below `n`.
pub proof fn lemma_selected_in_range(mask: u64, n: int)
    ensures
        forall|i: int|
            0 <= i < spec_selected_upto(mask, n).len() ==> 0 <= #[trigger] spec_selected_upto(
                mask,
                n,
            )[i] < n && spec_mask_bit(mask, spec_selected_upto(mask, n)[i]),
    decreases n,
{
    if n > 0 {
        lemma_selected_in_range(mask, n - 1);
        let p = spec_selected_upto(mask, n - 1);
        let s = spec_selected_upto(mask, n);
        assert forall|i: int|
            0 <= i < s.len() implies 0 <= #[trigger] s[i] < n && spec_mask_bit(mask, s[i]) by {
            if spec_mask_bit(mask, n - 1) {
                if i < p.len() {
                    assert(s[i] == p[i]);
                } else {
                    assert(s[i] == n - 1);
                }
            } else {
                assert(s[i] == p[i]);
            }
        }
    }
}

/// Every set mask bit below `n` appears in the selected list.
pub proof fn lemma_selected_covers(mask: u64, n: int, c: int)
    requires
        0 <= c < n,
        spec_mask_bit(mask, c),
    ensures
        exists|i: int|
            0 <= i < spec_selected_upto(mask, n).len() && #[trigger] spec_selected_upto(
                mask,
                n,
            )[i] == c,
    decreases n,
{
    if c == n - 1 {
        let s = spec_selected_upto(mask, n);
        assert(s[s.len() - 1] == c);
    } else {
        lemma_selected_covers(mask, n - 1, c);
        let i = choose|i: int|
            0 <= i < spec_selected_upto(mask, n - 1).len() && #[trigger] spec_selected_upto(
                mask,
                n - 1,
            )[i] == c;
        assert(spec_selected_upto(mask, n)[i] == c);
    }
}

/// The projected schema's tags line up with the selected source columns.
proof fn lemma_projected_tags(branches: Seq<FieldMeta>, mask: u64)
    ensures
        spec_projected_schema(branches, mask).len() == spec_selected_upto(
            mask,
            branches.len() as int,
        ).len(),
        forall|i: int|
            0 <= i < spec_projected_schema(branches, mask).len()
                ==> (#[trigger] spec_projected_schema(branches, mask)[i]).1 == branches[
                spec_selected_upto(mask, branches.len() as int)[i]
            ].type_tag@,
{
}

/// Whether a row group holds the given row.
pub open spec fn spec_group_contains(g: RowGroup, tuple: u64) -> bool {
    g.start_tid <= tuple < g.spec_end_tid()
}

/// The index of the row group holding the given row (unique for contiguous
/// groups).
pub open spec fn spec_group_of(gs: Seq<RowGroup>, tuple: u64) -> int {
    choose|i: int| 0 <= i < gs.len() && spec_group_contains(gs[i], tuple)
}

/// Earlier groups end no later than later groups start.
proof fn lemma_groups_ordered(gs: Seq<RowGroup>, entries: u64, i: int, j: int)
    requires
        spec_contiguous(gs, entries),
        0 <= i < j < gs.len(),
    ensures
        gs[i].spec_end_tid() <= gs[j].start_tid,
    decreases j - i,
{
    if i + 1 < j {
        lemma_groups_ordered(gs, entries, i + 1, j);
    }
}

/// Every group end stays within the table.
pub proof fn lemma_group_end_bounded(gs: Seq<RowGroup>, entries: u64, i: int)
    requires
        spec_contiguous(gs, entries),
        0 <= i < gs.len(),
    ensures
        gs[i].spec_end_tid() <= entries,
        gs[i].start_tid < gs[i].spec_end_tid(),
    decreases gs.len() - i,
{
    if i < gs.len() - 1 {
        lemma_group_end_bounded(gs, entries, i + 1);
    }
}

/// For contiguous groups, every row below `entries` lies in exactly one
/// group, the one `spec_group_of` names.
pub proof fn lemma_group_of(gs: Seq<RowGroup>, entries: u64, tuple: u64)
    requires
        spec_contiguous(gs, entries),
        tuple < entries,
    ensures
        0 <= spec_group_of(gs, tuple) < gs.len(),
        spec_group_contains(gs[spec_group_of(gs, tuple)], tuple),
        forall|i: int|
            0 <= i < gs.len() && spec_group_contains(#[trigger] gs[i], tuple) ==> i
                == spec_group_of(gs, tuple),
{
    lemma_group_exists(gs, entries, tuple);
    let w = choose|i: int| 0 <= i < gs.len() && spec_group_contains(gs[i], tuple);
    assert(spec_group_contains(gs[spec_group_of(gs, tuple)], tuple));
    assert forall|i: int|
        0 <= i < gs.len() && spec_group_contains(#[trigger] gs[i], tuple) implies i
        == spec_group_of(gs, tuple) by {
        let j = spec_group_of(gs, tuple);
        if i < j {
            lemma_groups_ordered(gs, entries, i, j);
        } else if j < i {
            lemma_groups_ordered(gs, entries, j, i);
        }
    }
}

proof fn lemma_group_exists(gs: Seq<RowGroup>, entries: u64, tuple: u64)
    requires
        spec_contiguous(gs, entries),
        tuple < entries,
    ensures
        exists|i: int| 0 <= i < gs.len() && spec_group_contains(#[trigger] gs[i], tuple),
    decreases gs.len(),
{
    if tuple >= gs.last().start_tid {
        assert(spec_group_contains(gs[gs.len() - 1], tuple));
    } else {
        let pre = gs.drop_last();
        assert(gs.len() >= 2) by {
            if gs.len() == 1 {
                assert(gs[0].start_tid == 0);
            }
        }
        assert forall|i: int|
            0 <= i < pre.len() - 1 implies #[trigger] pre[i].spec_end_tid() == pre[i
            + 1].start_tid by {
            assert(pre[i] == gs[i]);
            assert(pre[i + 1] == gs[i + 1]);
        }
        assert(pre[0] == gs[0]);
        assert(pre.last() == gs[gs.len() - 2]);
        assert(pre.last().spec_end_tid() == gs[gs.len() - 1].start_tid);
        assert forall|i: int| 0 <= i < pre.len() implies #[trigger] pre[i].count > 0 by {
            assert(pre[i] == gs[i]);
        }
        let entries2 = gs[gs.len() - 1].start_tid;
        assert(spec_contiguous(pre, entries2));
        lemma_group_exists(pre, entries2, tuple);
        let i = choose|i: int| 0 <= i < pre.len() && spec_group_contains(#[trigger] pre[i], tuple);
        assert(spec_group_contains(gs[i], tuple));
    }
}

/// Whether a file state is one that building from the given table can
/// produce: well-formed groups covering the table's rows, partitioning
/// each column's chunks, under the table's schema.
pub open spec fn spec_file_state_of(table: TableDesc, s: DecoderFileState) -> bool {
    &&& s.wf()
    &&& s.tuples == table.entries
    &&& s.columns@.len() == table.columns@.len()
    &&& forall|c: int|
        0 <= c < s.columns@.len() ==> (#[trigger] s.columns@[c]).name@
            == table.columns@[c].name@ && s.columns@[c].type_tag@
            == table.columns@[c].type_tag@
    &&& forall|c: int|
        0 <= c < table.columns@.len() ==> #[trigger] spec_flat(s.rowgroups@, c) == conts(
            table,
            c,
        )
}

/// The immutable, file-scoped decode metadata: the table's row count, its
/// row-group index, and its column schema.
pub struct DecoderFileState {
    pub tuples: Tid,
    pub rowgroups: Vec<RowGroup>,
    pub columns: Vec<FieldMeta>,
}

impl DecoderFileState {
    /// Contiguous row groups covering the table, each as wide as the
    /// schema.
    pub open spec fn wf(self) -> bool {
        &&& spec_contiguous(self.rowgroups@, self.tuples)
        &&& forall|i: int|
            0 <= i < self.rowgroups@.len() ==> (#[trigger] self.rowgroups@[i].containers@.len())
                == self.columns@.len()
    }

    /// Builds the file-scoped metadata from a table description: discovers
    /// the row groups and copies the schema.
    pub fn new(table: &TableDesc) -> (r: Result<DecoderFileState, RootError>)
        ensures
            match r {
                Ok(s) => table.wf() && spec_file_state_of(*table, s),
                Err(e) => !table.wf() && e == RootError::AlignmentError,
            },
    {
        let rowgroups = RowGroup::find_rowgroups(table)?;
        let mut columns: Vec<FieldMeta> = Vec::new();
        let mut c: usize = 0;
        while c < table.columns.len()
            invariant
                c <= table.columns@.len(),
                columns@.len() == c,
                forall|k: int|
                    0 <= k < c ==> (#[trigger] columns@[k]).name@ == table.columns@[k].name@
                        && columns@[k].type_tag@ == table.columns@[k].type_tag@,
            decreases table.columns@.len() - c,
        {
            columns.push(
                FieldMeta {
                    name: table.columns[c].name.clone(),
                    type_tag: table.columns[c].type_tag.clone(),
                },
            );
            c += 1;
        }
        Ok(DecoderFileState { tuples: table.entries, rowgroups, columns })
    }

    /// Locates the row group containing the given row: the least group
    /// whose end lies past it (a lower-bound binary search, so a row equal
    /// to a group boundary resolves to the following group).
    pub fn find_rowgroup_containing_tid(&self, tuple: Tid) -> (r: usize)
        requires
            self.wf(),
            tuple < self.tuples,
        ensures
            r == spec_group_of(self.rowgroups@, tuple),
            r < self.rowgroups@.len(),
            spec_group_contains(self.rowgroups@[r as int], tuple),
    {
        let ghost gs = self.rowgroups@;
        let mut lo: usize = 0;
        let mut hi: usize = self.rowgroups.len();
        while lo < hi
            invariant
                self.wf(),
                tuple < self.tuples,
                gs == self.rowgroups@,
                lo <= hi <= gs.len(),
                forall|i: int| 0 <= i < lo ==> (#[trigger] gs[i]).spec_end_tid() <= tuple,
                forall|i: int| hi <= i < gs.len() ==> (#[trigger] gs[i]).spec_end_tid() > tuple,
            decreases hi - lo,
        {
            let mid = lo + (hi - lo) / 2;
            proof {
                lemma_group_end_bounded(gs, self.tuples, mid as int);
            }
            let end = self.rowgroups[mid].end_tid();
            if end <= tuple {
                proof {
                    assert forall|i: int|
                        0 <= i < mid + 1 implies (#[trigger] gs[i]).spec_end_tid() <= tuple by {
                        if lo <= i < mid {
                            lemma_groups_ordered(gs, self.tuples, i, mid as int);
                            lemma_group_end_bounded(gs, self.tuples, i);
                        }
                    }
                }
                lo = mid + 1;
            } else {
                proof {
                    assert forall|i: int|
                        mid <= i < gs.len() implies (#[trigger] gs[i]).spec_end_tid() > tuple by {
                        if mid < i {
                            lemma_groups_ordered(gs, self.tuples, mid as int, i);
                            lemma_group_end_bounded(gs, self.tuples, i);
                        }
                    }
                }
                hi = mid;
            }
        }
        proof {
            assert(gs.last().spec_end_tid() == self.tuples > tuple);
            if lo == gs.len() {
                assert(gs[gs.len() - 1].spec_end_tid() <= tuple);
            }
            assert(lo < gs.len());
            if lo > 0 {
                assert(gs[lo - 1].spec_end_tid() <= tuple);
                assert(gs[lo - 1].spec_end_tid() == gs[lo as int].start_tid);
            }
            assert(spec_group_contains(gs[lo as int], tuple));
            lemma_group_of(gs, self.tuples, tuple);
        }
        lo
    }
}

/// The expected bytes of the `k`-th column of a served batch: the group's
/// decoded column, cut to the requested window, or nothing for a column of
/// unsupported type.
pub open spec fn spec_request_entry(
    data: Seq<u8>,
    g: RowGroup,
    branches: Seq<FieldMeta>,
    mask: u64,
    k: int,
    off: int,
    n: int,
) -> Option<Seq<u8>> {
    let sel = spec_selected_upto(mask, g.containers@.len() as int);
    let entry = spec_batch_entry_at(data, g, branches, mask, k);
    match entry {
        Some(inner) => match inner {
            Some(p) => {
                let ty = spec_type_of_tag(branches[sel[k]].type_tag@)->0;
                Some(p.subrange(off * ty.spec_size(), (off + n) * ty.spec_size()))
            },
            None => None,
        },
        None => None,
    }
}

/// What a served batch must hold for a request: everything is a function
/// of the file bytes, the immutable file metadata and the request alone —
/// the cache state plays no part.
pub open spec fn spec_request_result(
    data: Seq<u8>,
    fs: DecoderFileState,
    start: u64,
    count: u64,
    mask: u64,
    b: ColumnarBatch,
) -> bool {
    let gi = spec_group_of(fs.rowgroups@, start);
    let g = fs.rowgroups@[gi];
    let off = start - g.start_tid;
    let n = if count <= g.count - off {
        count as int
    } else {
        g.count - off
    };
    &&& b.wf()
    &&& b.row_count == n
    &&& b.spec_schema() == spec_projected_schema(fs.columns@, mask)
    &&& b.spec_cols().len() == spec_selected_upto(mask, g.containers@.len() as int).len()
    &&& forall|k: int|
        #![trigger b.spec_cols()[k]]
        0 <= k < b.spec_cols().len() ==> b.spec_cols()[k] == spec_request_entry(
            data,
            g,
            fs.columns@,
            mask,
            k,
            off,
            n,
        )
}

/// Cache correctness: two batches served for the same request against the
/// same file bytes and metadata are identical in schema, row count, and
/// column bytes, whatever cache states produced them.
pub proof fn lemma_cache_transparent(
    data: Seq<u8>,
    fs: DecoderFileState,
    start: u64,
    count: u64,
    mask: u64,
    b1: ColumnarBatch,
    b2: ColumnarBatch,
)
    requires
        spec_request_result(data, fs, start, count, mask, b1),
        spec_request_result(data, fs, start, count, mask, b2),
    ensures
        b1.spec_schema() == b2.spec_schema(),
        b1.row_count == b2.row_count,
        b1.spec_cols() == b2.spec_cols(),
{
    assert forall|k: int|
        0 <= k < b1.spec_cols().len() implies #[trigger] b1.spec_cols()[k]
        == b2.spec_cols()[k] by {}
    assert(b1.spec_cols() =~= b2.spec_cols());
}

/// The mutable cache: the most recently materialized row group, with the
/// projection and row range it was built for.
pub struct DecoderCache {
    pub prev_columns: u64,
    pub batch_tid_start: Tid,
    pub batch_size: Tid,
    pub batch: ColumnarBatch,
    pub gi: Ghost<int>,
}

impl DecoderCache {
    /// The cache holds exactly the materialization of one row group for
    /// its recorded projection.
    pub open spec fn wf(self, fs: DecoderFileState, data: Seq<u8>) -> bool {
        let g = fs.rowgroups@[self.gi@];
        &&& 0 <= self.gi@ < fs.rowgroups@.len()
        &&& g.start_tid == self.batch_tid_start
        &&& g.count == self.batch_size
        &&& self.batch.wf()
        &&& self.batch.row_count == self.batch_size
        &&& self.batch.spec_schema() == spec_projected_schema(fs.columns@, self.prev_columns)
        &&& self.batch.spec_cols().len() == spec_selected_upto(
            self.prev_columns,
            g.containers@.len() as int,
        ).len()
        &&& spec_batch_cols_match(data, g, fs.columns@, self.prev_columns, self.batch)
        &&& spec_group_batch_ok(data, g, fs.columns@, self.prev_columns)
    }

    /// Materializes the row group containing the first requested row.
    pub fn new(
        data: &[u8],
        global: &DecoderFileState,
        start_tuple: Tid,
        _tuple_count: Tid,
        columns: u64,
    ) -> (r: Result<DecoderCache, RootError>)
        requires
            global.wf(),
            start_tuple < global.tuples,
        ensures
            match r {
                Ok(c) => {
                    &&& c.wf(*global, data@)
                    &&& c.gi@ == spec_group_of(global.rowgroups@, start_tuple)
                    &&& c.prev_columns == columns
                },
                Err(e) => {
                    &&& !spec_group_batch_ok(
                        data@,
                        global.rowgroups@[spec_group_of(global.rowgroups@, start_tuple)],
                        global.columns@,
                        columns,
                    )
                    &&& (e == RootError::TruncatedInput || e == RootError::UnsupportedStructure
                        || e == RootError::DecompressError)
                },
            },
    {
        let rg_idx = global.find_rowgroup_containing_tid(start_tuple);
        let group = &global.rowgroups[rg_idx];
        let batch = rowgroup_to_batch(data, columns, group, &global.columns)?;
        Ok(
            DecoderCache {
                prev_columns: columns,
                batch_tid_start: group.start_tid,
                batch_size: group.count,
                batch,
                gi: Ghost(rg_idx as int),
            },
        )
    }

    /// Serves a request: reuses the cached group when the projection is
    /// unchanged and the first requested row lies inside it, rebuilds it
    /// otherwise, and returns the requested window as a logical slice.
    pub fn invalidate(
        &mut self,
        data: &[u8],
        global: &DecoderFileState,
        start_tuple: Tid,
        tuple_count: Tid,
        columns: u64,
    ) -> (r: Result<ColumnarBatch, RootError>)
        requires
            global.wf(),
            start_tuple < global.tuples,
            old(self).wf(*global, data@),
        ensures
            match r {
                Ok(b) => {
                    &&& final(self).wf(*global, data@)
                    &&& final(self).gi@ == spec_group_of(global.rowgroups@, start_tuple)
                    &&& final(self).prev_columns == columns
                    &&& spec_request_result(data@, *global, start_tuple, tuple_count, columns, b)
                },
                Err(e) => {
                    &&& *final(self) == *old(self)
                    &&& !spec_group_batch_ok(
                        data@,
                        global.rowgroups@[spec_group_of(global.rowgroups@, start_tuple)],
                        global.columns@,
                        columns,
                    )
                    &&& (e == RootError::TruncatedInput || e == RootError::UnsupportedStructure
                        || e == RootError::DecompressError)
                },
            },
    {
        proof {
            lemma_group_of(global.rowgroups@, global.tuples, start_tuple);
        }
        let in_range = start_tuple >= self.batch_tid_start && start_tuple - self.batch_tid_start
            < self.batch_size;
        if columns != self.prev_columns || !in_range {
            let rebuilt = DecoderCache::new(data, global, start_tuple, tuple_count, columns)?;
            *self = rebuilt;
        } else {
            proof {
                lemma_group_end_bounded(global.rowgroups@, global.tuples, self.gi@);
                assert(spec_group_contains(global.rowgroups@[self.gi@], start_tuple));
                assert(self.gi@ == spec_group_of(global.rowgroups@, start_tuple));
            }
        }
        let start_off = start_tuple - self.batch_tid_start;
        let avail = self.batch_size - start_off;
        let n = if tuple_count < avail {
            tuple_count
        } else {
            avail
        };
        proof {
            lemma_group_end_bounded(global.rowgroups@, global.tuples, self.gi@);
            lemma_selected_in_range(columns, global.rowgroups@[self.gi@].containers@.len() as int);
        }
        let window = self.batch.slice(start_off as usize, n as usize);
        proof {
            let g = global.rowgroups@[self.gi@];
            assert forall|k: int|
                0 <= k < window.spec_cols().len() implies #[trigger] window.spec_cols()[k]
                == spec_request_entry(
                data@,
                g,
                global.columns@,
                columns,
                k,
                start_off as int,
                n as int,
            ) by {
                let sel = spec_selected_upto(columns, g.containers@.len() as int);
                assert(self.batch.spec_cols()[k] == spec_batch_entry_at(
                    data@,
                    g,
                    global.columns@,
                    columns,
                    k,
                )->0);
                match self.batch.columns@[k] {
                    ColumnData::Values(b) => {
                        assert(spec_type_of_tag(self.batch.schema@[k].type_tag@) == Some(
                            b.spec_ty(),
                        ));
                        assert(self.batch.spec_schema()[k].1 == global.columns@[sel[k]].type_tag@);
                    },
                    ColumnData::Unsupported => {},
                }
            }
        }
        Ok(window)
    }
}

/// The whole per-file decode state: immutable metadata plus the cache.
pub struct DecoderState {
    pub file: DecoderFileState,
    pub cache: DecoderCache,
}

impl DecoderState {
    /// The metadata is well-formed and the cache matches it and the file
    /// bytes.
    pub open spec fn wf(self, data: Seq<u8>) -> bool {
        self.file.wf() && self.cache.wf(self.file, data)
    }
}

/// Serves one decode request.  On the first call (no state yet) the
/// session is built from the table description; afterwards the immutable
/// metadata is reused and only the cache may change.  The returned batch
/// is a function of the file bytes, the metadata, and the request alone.
pub fn decode_batch(
    data: &[u8],
    table: &TableDesc,
    start_tuple: Tid,
    tuple_count: Tid,
    state: &mut Option<DecoderState>,
    columns: u64,
) -> (r: Result<ColumnarBatch, RootError>)
    requires
        match *old(state) {
            Some(s) => s.wf(data@) && start_tuple < s.file.tuples,
            None => start_tuple < table.entries,
        },
    ensures
        match r {
            Ok(b) => {
                &&& (*final(state)) matches Some(s) && s.wf(data@) && spec_request_result(
                    data@,
                    s.file,
                    start_tuple,
                    tuple_count,
                    columns,
                    b,
                )
                &&& ((*old(state)) matches Some(s0) ==> (*final(state))->0.file == s0.file)
            },
            Err(e) => {
                &&& ((*old(state)) matches Some(s0) ==> *final(state) == *old(state)
                    && !spec_group_batch_ok(
                    data@,
                    s0.file.rowgroups@[spec_group_of(s0.file.rowgroups@, start_tuple)],
                    s0.file.columns@,
                    columns,
                ))
                &&& (*old(state) is None ==> *final(state) is None && (e
                    == RootError::AlignmentError <==> !table.wf()))
                &&& (*old(state) is None && e != RootError::AlignmentError ==> (exists|
                    fs: DecoderFileState,
                |
                    spec_file_state_of(*table, fs) && !spec_group_batch_ok(
                        data@,
                        fs.rowgroups@[spec_group_of(fs.rowgroups@, start_tuple)],
                        fs.columns@,
                        columns,
                    )))
            },
        },
{
    let taken = state.take();
    let mut s: DecoderState = match taken {
        Some(s) => s,
        None => {
            let file = match DecoderFileState::new(table) {
                Ok(f) => f,
                Err(e) => {
                    return Err(e);
                },
            };
            let cache = match DecoderCache::new(data, &file, start_tuple, tuple_count, columns) {
                Ok(c) => c,
                Err(e) => {
                    return Err(e);
                },
            };
            DecoderState { file, cache }
        },
    };
    let r = s.cache.invalidate(data, &s.file, start_tuple, tuple_count, columns);
    let result = match r {
        Ok(b) => Ok(b),
        Err(e) => Err(e),
    };
    *state = Some(s);
    result
}

} // verus!

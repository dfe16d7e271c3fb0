//! Row-group discovery: the alignment sweep.
//!
//! Row groups are implicit in the format; they are found by aligning the
//! independently chunked column streams.  A row group ends exactly at the
//! row counts where *every* column has a chunk boundary.  The sweep keeps
//! one cursor per column, repeatedly advances every column standing at the
//! minimum boundary, and closes a group whenever all boundaries agree.
use vstd::prelude::*;

use crate::container::spec_basket_values;
use crate::errors::RootError;
use crate::projection::spec_mask_bit;
use crate::table::TableDesc;
use crate::Tid;

verus! {

/// One row group: its first row, its row count, and, per column, the
/// chunks (disk byte ranges) that hold exactly its rows.
#[derive(Debug)]
pub struct RowGroup {
    pub start_tid: Tid,
    pub count: Tid,
    pub containers: Vec<Vec<(u32, u32)>>,
}

impl RowGroup {
    /// The row just past this group.
    pub open spec fn spec_end_tid(self) -> int {
        self.start_tid + self.count
    }

    /// The row just past this group.
    pub fn end_tid(&self) -> (r: Tid)
        requires
            self.start_tid + self.count <= u64::MAX,
        ensures
            r == self.spec_end_tid(),
    {
        self.start_tid + self.count
    }
}

/// The boundary sequence of column `c`.
pub open spec fn bnd(t: TableDesc, c: int) -> Seq<u64> {
    t.columns@[c].boundaries@
}

/// The chunk ranges of column `c`.
pub open spec fn conts(t: TableDesc, c: int) -> Seq<(u32, u32)> {
    t.columns@[c].containers@
}

/// Whether every column's chunk index holds a boundary at `v`.
pub open spec fn spec_common_boundary(t: TableDesc, v: u64) -> bool {
    forall|c: int| 0 <= c < t.columns@.len() ==> #[trigger] bnd(t, c).contains(v)
}

/// The chunks of column `c` over a sequence of row groups, concatenated in
/// group order.
pub open spec fn spec_flat(gs: Seq<RowGroup>, c: int) -> Seq<(u32, u32)>
    decreases gs.len(),
{
    if gs.len() == 0 {
        Seq::empty()
    } else {
        spec_flat(gs.drop_last(), c) + gs.last().containers@[c]@
    }
}

/// The sum of the row counts of a sequence of row groups.
pub open spec fn spec_count_sum(gs: Seq<RowGroup>) -> int
    decreases gs.len(),
{
    if gs.len() == 0 {
        0
    } else {
        spec_count_sum(gs.drop_last()) + gs.last().count
    }
}

/// Contiguity: the groups start at row 0, abut exactly, have nonzero
/// counts, and end at `entries`.
pub open spec fn spec_contiguous(gs: Seq<RowGroup>, entries: u64) -> bool {
    &&& gs.len() >= 1
    &&& gs[0].start_tid == 0
    &&& forall|i: int|
        0 <= i < gs.len() - 1 ==> #[trigger] gs[i].spec_end_tid() == gs[i + 1].start_tid
    &&& gs.last().spec_end_tid() == entries
    &&& forall|i: int| 0 <= i < gs.len() ==> #[trigger] gs[i].count > 0
}

/// Contiguous groups cover the table: their row counts sum to `entries`.
pub proof fn lemma_rowgroups_cover_entries(gs: Seq<RowGroup>, entries: u64)
    requires
        spec_contiguous(gs, entries),
    ensures
        spec_count_sum(gs) == entries,
{
    lemma_count_sum_telescopes(gs);
}

/// For abutting groups the counts telescope: the sum is last end minus
/// first start.
proof fn lemma_count_sum_telescopes(gs: Seq<RowGroup>)
    requires
        forall|i: int|
            0 <= i < gs.len() - 1 ==> #[trigger] gs[i].spec_end_tid() == gs[i + 1].start_tid,
        gs.len() >= 1,
    ensures
        spec_count_sum(gs) == gs.last().spec_end_tid() - gs[0].start_tid,
    decreases gs.len(),
{
    if gs.len() == 1 {
        assert(gs.drop_last().len() == 0);
        assert(spec_count_sum(gs.drop_last()) == 0);
    } else {
        let pre = gs.drop_last();
        assert forall|i: int|
            0 <= i < pre.len() - 1 implies #[trigger] pre[i].spec_end_tid() == pre[i
            + 1].start_tid by {
            assert(pre[i] == gs[i]);
            assert(pre[i + 1] == gs[i + 1]);
        }
        lemma_count_sum_telescopes(pre);
        assert(pre.last() == gs[gs.len() - 2]);
        assert(gs[gs.len() - 2].spec_end_tid() == gs[gs.len() - 1].start_tid);
        assert(spec_count_sum(gs) == spec_count_sum(pre) + gs.last().count);
    }
}

/// The per-group chunk counts of a column sum to the length of its
/// flattened chunk list.
pub open spec fn spec_chunk_count_sum(gs: Seq<RowGroup>, c: int) -> int
    decreases gs.len(),
{
    if gs.len() == 0 {
        0
    } else {
        spec_chunk_count_sum(gs.drop_last(), c) + gs.last().containers@[c]@.len()
    }
}

/// Per column, the group chunk counts sum to the column's chunk count
/// whenever the flattened group chunks are exactly the column's chunk list.
pub proof fn lemma_container_partition(gs: Seq<RowGroup>, t: TableDesc, c: int)
    requires
        0 <= c < t.columns@.len(),
        spec_flat(gs, c) == conts(t, c),
    ensures
        spec_chunk_count_sum(gs, c) == t.columns@[c].containers@.len(),
{
    lemma_chunk_count_sum_is_flat_len(gs, c);
}

proof fn lemma_chunk_count_sum_is_flat_len(gs: Seq<RowGroup>, c: int)
    ensures
        spec_chunk_count_sum(gs, c) == spec_flat(gs, c).len(),
    decreases gs.len(),
{
    if gs.len() > 0 {
        lemma_chunk_count_sum_is_flat_len(gs.drop_last(), c);
    }
}

/// The number of chunks not yet consumed over the first `k` columns.
pub open spec fn spec_rem(t: TableDesc, cur: Seq<usize>, k: int) -> int
    decreases k,
{
    if k <= 0 {
        0
    } else {
        spec_rem(t, cur, k - 1) + (bnd(t, k - 1).len() - cur[k - 1])
    }
}

proof fn lemma_rem_nonneg(t: TableDesc, cur: Seq<usize>, k: int)
    requires
        forall|c: int| 0 <= c < k ==> cur[c] <= bnd(t, c).len(),
    ensures
        spec_rem(t, cur, k) >= 0,
    decreases k,
{
    if k > 0 {
        lemma_rem_nonneg(t, cur, k - 1);
    }
}

proof fn lemma_rem_decreases(t: TableDesc, cur1: Seq<usize>, cur2: Seq<usize>, c0: int, k: int)
    requires
        forall|c: int| 0 <= c < k ==> cur1[c] <= cur2[c],
        0 <= c0 < k,
        cur1[c0] < cur2[c0],
    ensures
        spec_rem(t, cur2, k) < spec_rem(t, cur1, k),
    decreases k,
{
    if c0 == k - 1 {
        lemma_rem_le(t, cur1, cur2, k - 1);
    } else {
        lemma_rem_decreases(t, cur1, cur2, c0, k - 1);
    }
}

proof fn lemma_rem_le(t: TableDesc, cur1: Seq<usize>, cur2: Seq<usize>, k: int)
    requires
        forall|c: int| 0 <= c < k ==> cur1[c] <= cur2[c],
    ensures
        spec_rem(t, cur2, k) <= spec_rem(t, cur1, k),
    decreases k,
{
    if k > 0 {
        lemma_rem_le(t, cur1, cur2, k - 1);
    }
}

/// The sweep's loop invariant, over the cursors, the open (not yet closed)
/// chunk lists, the closed groups, and the frontier `gs` (the last closed
/// row-group end).
pub open spec fn sweep_inv(
    t: TableDesc,
    cur: Seq<usize>,
    opens: Seq<Vec<(u32, u32)>>,
    groups: Seq<RowGroup>,
    gs: u64,
) -> bool {
    let ncols = t.columns@.len() as int;
    &&& cur.len() == ncols
    &&& opens.len() == ncols
    &&& forall|c: int| 0 <= c < ncols ==> #[trigger] cur[c] <= bnd(t, c).len()
    &&& forall|c: int|
        0 <= c < ncols ==> ((#[trigger] cur[c]) == bnd(t, c).len() <==> cur[0] == bnd(t, 0).len())
    &&& (cur[0] == bnd(t, 0).len() <==> gs == t.entries)
    &&& (cur[0] == bnd(t, 0).len() ==> forall|c: int|
        0 <= c < ncols ==> (#[trigger] opens[c])@.len() == 0)
    &&& forall|c: int|
        0 <= c < ncols && cur[c] < bnd(t, c).len() ==> (#[trigger] bnd(t, c)[cur[c] as int]) > gs
    &&& gs <= t.entries
    &&& forall|c: int, x: int, d: int|
        0 <= c < ncols && 0 <= x < cur[c] && 0 <= d < ncols && cur[d] < bnd(t, d).len()
            ==> #[trigger] bnd(t, c)[x] < #[trigger] bnd(t, d)[cur[d] as int]
    &&& (groups.len() == 0 ==> gs == 0)
    &&& (groups.len() > 0 ==> groups[0].start_tid == 0 && groups.last().spec_end_tid() == gs)
    &&& forall|i: int|
        0 <= i < groups.len() - 1 ==> #[trigger] groups[i].spec_end_tid() == groups[i
            + 1].start_tid
    &&& forall|i: int| 0 <= i < groups.len() ==> #[trigger] groups[i].count > 0
    &&& forall|i: int| 0 <= i < groups.len() ==> (#[trigger] groups[i].containers@.len()) == ncols
    &&& forall|c: int|
        0 <= c < ncols ==> #[trigger] spec_flat(groups, c) + opens[c]@ == conts(t, c).take(
            cur[c] as int,
        )
    &&& forall|i: int, c: int|
        #![trigger spec_flat(groups.take(i + 1), c)]
        0 <= i < groups.len() && 0 <= c < ncols ==> 1 <= spec_flat(groups.take(i + 1), c).len()
            <= bnd(t, c).len() && bnd(t, c)[spec_flat(groups.take(i + 1), c).len() - 1]
            == groups[i].spec_end_tid()
    &&& forall|i: int|
        0 <= i < groups.len() ==> spec_common_boundary(
            t,
            (#[trigger] groups[i].spec_end_tid()) as u64,
        )
    &&& forall|v: u64|
        spec_common_boundary(t, v) && 0 < v && (forall|d: int|
            0 <= d < ncols && cur[d] < bnd(t, d).len() ==> v < (#[trigger] bnd(
                t,
                d,
            )[cur[d] as int])) ==> exists|i: int|
            0 <= i < groups.len() && #[trigger] groups[i].spec_end_tid() == v
}

/// How one sweep pass moves the cursors and open chunk lists: every column
/// standing at `m` advanced by one chunk, appending it; the others stood
/// still.
pub open spec fn sweep_moved(
    t: TableDesc,
    cur0: Seq<usize>,
    cur1: Seq<usize>,
    opens0: Seq<Vec<(u32, u32)>>,
    opens_mid: Seq<Vec<(u32, u32)>>,
    m: u64,
) -> bool {
    let ncols = t.columns@.len() as int;
    &&& forall|d: int|
        0 <= d < ncols && (#[trigger] bnd(t, d)[cur0[d] as int]) == m ==> cur1[d] == cur0[d] + 1
    &&& forall|d: int|
        0 <= d < ncols && (#[trigger] bnd(t, d)[cur0[d] as int]) == m ==> opens_mid[d]@
            == opens0[d]@.push(conts(t, d)[cur0[d] as int])
    &&& forall|d: int|
        0 <= d < ncols && (#[trigger] bnd(t, d)[cur0[d] as int]) != m ==> cur1[d] == cur0[d]
    &&& forall|d: int|
        0 <= d < ncols && (#[trigger] bnd(t, d)[cur0[d] as int]) != m ==> opens_mid[d]
            == opens0[d]
    &&& forall|d: int| 0 <= d < ncols ==> m <= #[trigger] bnd(t, d)[cur0[d] as int]
    &&& (exists|d: int| 0 <= d < ncols && m == #[trigger] bnd(t, d)[cur0[d] as int])
}

impl RowGroup {
    /// Finds the row groups of a table: the maximal runs of rows between
    /// consecutive row counts at which every column has a chunk boundary.
    ///
    /// On success the groups are contiguous from row 0 to `entries`; per
    /// column the group chunks concatenate back to the column's chunk list;
    /// every group end is a row count at which every column has a boundary;
    /// and conversely every such row count closes a group.  Fails with
    /// `AlignmentError` exactly when the table's chunk index is not
    /// well-formed.
    pub fn find_rowgroups(t: &TableDesc) -> (r: Result<Vec<RowGroup>, RootError>)
        ensures
            match r {
                Ok(groups) => {
                    &&& t.wf()
                    &&& spec_contiguous(groups@, t.entries)
                    &&& forall|i: int|
                        0 <= i < groups@.len() ==> #[trigger] groups@[i].containers@.len()
                            == t.columns@.len()
                    &&& forall|c: int|
                        0 <= c < t.columns@.len() ==> #[trigger] spec_flat(groups@, c) == conts(
                            *t,
                            c,
                        )
                    &&& forall|i: int, c: int|
                        #![trigger spec_flat(groups@.take(i + 1), c)]
                        0 <= i < groups@.len() && 0 <= c < t.columns@.len() ==> 1 <= spec_flat(
                            groups@.take(i + 1),
                            c,
                        ).len() <= bnd(*t, c).len() && bnd(*t, c)[spec_flat(
                            groups@.take(i + 1),
                            c,
                        ).len() - 1] == groups@[i].spec_end_tid()
                    &&& forall|i: int|
                        0 <= i < groups@.len() ==> spec_common_boundary(
                            *t,
                            (#[trigger] groups@[i].spec_end_tid()) as u64,
                        )
                    &&& forall|v: u64|
                        spec_common_boundary(*t, v) && 0 < v <= t.entries ==> exists|i: int|
                            0 <= i < groups@.len() && #[trigger] groups@[i].spec_end_tid() == v
                },
                Err(e) => !t.wf() && e == RootError::AlignmentError,
            },
    {
        if !t.check_wf() {
            return Err(RootError::AlignmentError);
        }
        let ncols = t.columns.len();
        let mut cursors: Vec<usize> = Vec::new();
        let mut opens: Vec<Vec<(u32, u32)>> = Vec::new();
        let mut k: usize = 0;
        while k < ncols
            invariant
                k <= ncols,
                cursors@.len() == k,
                opens@.len() == k,
                forall|c: int| 0 <= c < k ==> cursors@[c] == 0usize,
                forall|c: int| 0 <= c < k ==> (#[trigger] opens@[c])@.len() == 0,
            decreases ncols - k,
        {
            cursors.push(0);
            opens.push(Vec::new());
            k += 1;
        }
        let mut groups: Vec<RowGroup> = Vec::new();
        let mut group_start: u64 = 0;
        proof {
            sweep_init(*t, cursors@, opens@, groups@);
        }
        while cursors[0] < t.columns[0].boundaries.len()
            invariant
                t.wf(),
                ncols == t.columns@.len(),
                sweep_inv(*t, cursors@, opens@, groups@, group_start),
            decreases spec_rem(*t, cursors@, ncols as int),
        {
            let ghost cur0 = cursors@;
            let ghost opens0 = opens@;
            let ghost groups0 = groups@;
            let ghost gs0 = group_start;
            proof {
                assert(forall|d: int|
                    0 <= d < ncols ==> #[trigger] cursors@[d] < bnd(*t, d).len());
            }
            // first pass: the minimum current boundary
            let mut m: u64 = t.columns[0].boundaries[cursors[0]];
            let mut c: usize = 1;
            while c < ncols
                invariant
                    t.wf(),
                    ncols == t.columns@.len(),
                    cursors@.len() == ncols,
                    1 <= c <= ncols,
                    forall|d: int| 0 <= d < ncols ==> #[trigger] cursors@[d] < bnd(*t, d).len(),
                    forall|d: int| 0 <= d < c ==> m <= #[trigger] bnd(*t, d)[cursors@[d] as int],
                    (exists|d: int| 0 <= d < c && m == #[trigger] bnd(*t, d)[cursors@[d] as int]),
                decreases ncols - c,
            {
                let b = t.columns[c].boundaries[cursors[c]];
                if b < m {
                    m = b;
                }
                c += 1;
            }
            // second pass: do all current boundaries equal the minimum?
            let mut all_eq: bool = true;
            let mut c2: usize = 0;
            while c2 < ncols
                invariant
                    t.wf(),
                    ncols == t.columns@.len(),
                    cursors@.len() == ncols,
                    c2 <= ncols,
                    forall|d: int| 0 <= d < ncols ==> #[trigger] cursors@[d] < bnd(*t, d).len(),
                    all_eq <==> (forall|d: int|
                        0 <= d < c2 ==> (#[trigger] bnd(*t, d)[cursors@[d] as int]) == m),
                decreases ncols - c2,
            {
                if t.columns[c2].boundaries[cursors[c2]] != m {
                    all_eq = false;
                }
                c2 += 1;
            }
            // third pass: advance every column standing at the minimum,
            // appending its chunk to the open group
            let mut c3: usize = 0;
            while c3 < ncols
                invariant
                    t.wf(),
                    ncols == t.columns@.len(),
                    cursors@.len() == ncols,
                    opens@.len() == ncols,
                    cur0.len() == ncols,
                    opens0.len() == ncols,
                    c3 <= ncols,
                    forall|d: int| 0 <= d < ncols ==> #[trigger] cur0[d] < bnd(*t, d).len(),
                    forall|d: int| c3 <= d < ncols ==> (#[trigger] cursors@[d]) == cur0[d],
                    forall|d: int| c3 <= d < ncols ==> (#[trigger] opens@[d]) == opens0[d],
                    forall|d: int|
                        0 <= d < c3 && (#[trigger] bnd(*t, d)[cur0[d] as int]) == m ==> cursors@[d]
                            == cur0[d] + 1,
                    forall|d: int|
                        0 <= d < c3 && (#[trigger] bnd(*t, d)[cur0[d] as int]) == m ==> opens@[d]@
                            == opens0[d]@.push(conts(*t, d)[cur0[d] as int]),
                    forall|d: int|
                        0 <= d < c3 && (#[trigger] bnd(*t, d)[cur0[d] as int]) != m ==> cursors@[d]
                            == cur0[d],
                    forall|d: int|
                        0 <= d < c3 && (#[trigger] bnd(*t, d)[cur0[d] as int]) != m ==> opens@[d]
                            == opens0[d],
                decreases ncols - c3,
            {
                if t.columns[c3].boundaries[cursors[c3]] == m {
                    proof {
                        assert(t.columns@[c3 as int].wf(t.entries));
                    }
                    let ghost cpre = cursors@;
                    let ghost opre = opens@;
                    let _blen = t.columns[c3].boundaries.len();
                    let chunk = t.columns[c3].containers[cursors[c3]];
                    let mut col: Vec<(u32, u32)> = Vec::new();
                    opens.set_and_swap(c3, &mut col);
                    col.push(chunk);
                    opens.set(c3, col);
                    let cval = cursors[c3];
                    cursors.set(c3, cval + 1);
                    proof {
                        assert(cursors@[c3 as int] == cur0[c3 as int] + 1);
                        assert(opens@[c3 as int]@ == opens0[c3 as int]@.push(
                            conts(*t, c3 as int)[cur0[c3 as int] as int],
                        ));
                        assert forall|d: int|
                            c3 + 1 <= d < ncols implies (#[trigger] cursors@[d]) == cur0[d]
                            && opens@[d] == opens0[d] by {
                            assert(cpre[d] == cur0[d]);
                            assert(opre[d] == opens0[d]);
                            assert(cursors@[d] == cpre[d]);
                            assert(opens@[d] == opre[d]);
                        }
                    }
                }
                c3 += 1;
            }
            let ghost opens_mid = opens@;
            if all_eq {
                proof {
                    let wd = choose|d: int|
                        0 <= d < ncols && m == bnd(*t, d)[cur0[d] as int];
                    assert(bnd(*t, wd)[cur0[wd] as int] > gs0);
                }
                let finished = opens;
                opens = Vec::new();
                let mut k2: usize = 0;
                while k2 < ncols
                    invariant
                        k2 <= ncols,
                        opens@.len() == k2,
                        forall|d: int| 0 <= d < k2 ==> (#[trigger] opens@[d])@.len() == 0,
                    decreases ncols - k2,
                {
                    opens.push(Vec::new());
                    k2 += 1;
                }
                let g = RowGroup {
                    start_tid: group_start,
                    count: m - group_start,
                    containers: finished,
                };
                groups.push(g);
                group_start = m;
            }
            proof {
                sweep_step(
                    *t,
                    cur0,
                    cursors@,
                    groups0,
                    groups@,
                    opens0,
                    opens_mid,
                    opens@,
                    m,
                    all_eq,
                    gs0,
                    group_start,
                );
            }
        }
        proof {
            sweep_done(*t, cursors@, opens@, groups@, group_start);
        }
        Ok(groups)
    }
}

/// The sweep invariant holds before the first step.
proof fn sweep_init(t: TableDesc, cur: Seq<usize>, opens: Seq<Vec<(u32, u32)>>, gs: Seq<RowGroup>)
    requires
        t.wf(),
        cur.len() == t.columns@.len(),
        opens.len() == t.columns@.len(),
        forall|c: int| 0 <= c < cur.len() ==> cur[c] == 0usize,
        forall|c: int| 0 <= c < opens.len() ==> (#[trigger] opens[c])@.len() == 0,
        gs.len() == 0,
    ensures
        sweep_inv(t, cur, opens, gs, 0),
{
    let ncols = t.columns@.len() as int;
    assert(t.columns@[0].wf(t.entries));
    assert(t.entries >= 1) by {
        if bnd(t, 0).len() > 1 {
            assert(bnd(t, 0)[0] < bnd(t, 0)[bnd(t, 0).len() - 1]);
        }
    }
    assert forall|c: int| 0 <= c < ncols implies #[trigger] bnd(t, c).len() >= 1 by {
        assert(t.columns@[c].wf(t.entries));
    }
    assert forall|c: int| 0 <= c < ncols && cur[c] < bnd(t, c).len() implies (#[trigger] bnd(
        t,
        c,
    )[cur[c] as int]) > 0u64 by {
        assert(t.columns@[c].wf(t.entries));
    }
    assert forall|c: int|
        0 <= c < ncols implies #[trigger] spec_flat(gs, c) + opens[c]@ == conts(t, c).take(
        cur[c] as int,
    ) by {
        assert(spec_flat(gs, c) + opens[c]@ =~= conts(t, c).take(0));
    }
    assert forall|v: u64|
        spec_common_boundary(t, v) && 0 < v && (forall|d: int|
            0 <= d < ncols && cur[d] < bnd(t, d).len() ==> v < (#[trigger] bnd(
                t,
                d,
            )[cur[d] as int])) implies exists|i: int|
        0 <= i < gs.len() && #[trigger] gs[i].spec_end_tid() == v by {
        assert(bnd(t, 0).contains(v));
        let k = choose|k: int| 0 <= k < bnd(t, 0).len() && bnd(t, 0)[k] == v;
        assert(t.columns@[0].wf(t.entries));
        if k > 0 {
            assert(bnd(t, 0)[0] < bnd(t, 0)[k]);
        }
        assert(v >= bnd(t, 0)[0]);
        assert(v < bnd(t, 0)[cur[0] as int]);
        assert(false);
    }
}

/// When the sweep has consumed every chunk, the closed groups satisfy the
/// full row-group contract.
proof fn sweep_done(
    t: TableDesc,
    cur: Seq<usize>,
    opens: Seq<Vec<(u32, u32)>>,
    groups: Seq<RowGroup>,
    gs: u64,
)
    requires
        t.wf(),
        sweep_inv(t, cur, opens, groups, gs),
        cur[0] == bnd(t, 0).len(),
    ensures
        spec_contiguous(groups, t.entries),
        forall|c: int|
            0 <= c < t.columns@.len() ==> #[trigger] spec_flat(groups, c) == conts(t, c),
        forall|v: u64|
            spec_common_boundary(t, v) && 0 < v <= t.entries ==> exists|i: int|
                0 <= i < groups.len() && #[trigger] groups[i].spec_end_tid() == v,
{
    let ncols = t.columns@.len() as int;
    assert(gs == t.entries);
    assert(t.columns@[0].wf(t.entries));
    assert(t.entries >= 1) by {
        if bnd(t, 0).len() > 1 {
            assert(bnd(t, 0)[0] < bnd(t, 0)[bnd(t, 0).len() - 1]);
        }
    }
    assert(groups.len() >= 1);
    assert forall|c: int|
        0 <= c < ncols implies #[trigger] spec_flat(groups, c) == conts(t, c) by {
        assert(cur[c] == bnd(t, c).len());
        assert(t.columns@[c].wf(t.entries));
        assert(spec_flat(groups, c) + opens[c]@ == conts(t, c).take(cur[c] as int));
        assert(conts(t, c).take(cur[c] as int) =~= conts(t, c));
        assert(spec_flat(groups, c) =~= spec_flat(groups, c) + opens[c]@);
    }
}

/// One sweep step preserves the invariant: the columns at the minimum `m`
/// advanced by one chunk, and when all columns stood at `m` a group was
/// closed there.
#[verifier::rlimit(100)]
proof fn sweep_step(
    t: TableDesc,
    cur0: Seq<usize>,
    cur1: Seq<usize>,
    groups0: Seq<RowGroup>,
    groups1: Seq<RowGroup>,
    opens0: Seq<Vec<(u32, u32)>>,
    opens_mid: Seq<Vec<(u32, u32)>>,
    opens1: Seq<Vec<(u32, u32)>>,
    m: u64,
    all_eq: bool,
    gs0: u64,
    gs1: u64,
)
    requires
        t.wf(),
        sweep_inv(t, cur0, opens0, groups0, gs0),
        forall|d: int| 0 <= d < t.columns@.len() ==> #[trigger] cur0[d] < bnd(t, d).len(),
        sweep_moved(t, cur0, cur1, opens0, opens_mid, m),
        cur1.len() == t.columns@.len(),
        opens_mid.len() == t.columns@.len(),
        opens1.len() == t.columns@.len(),
        all_eq <==> (forall|d: int|
            0 <= d < t.columns@.len() ==> (#[trigger] bnd(t, d)[cur0[d] as int]) == m),
        all_eq ==> groups1 == groups0.push(
            (RowGroup {
                start_tid: gs0,
                count: (m - gs0) as u64,
                containers: groups1.last().containers,
            }),
        ),
        all_eq ==> groups1.last().containers@ == opens_mid && gs1 == m,
        all_eq ==> (forall|c: int|
            0 <= c < t.columns@.len() ==> (#[trigger] opens1[c])@.len() == 0),
        !all_eq ==> groups1 == groups0 && opens1 == opens_mid && gs1 == gs0,
    ensures
        sweep_inv(t, cur1, opens1, groups1, gs1),
        spec_rem(t, cur1, t.columns@.len() as int) < spec_rem(t, cur0, t.columns@.len() as int),
        spec_rem(t, cur0, t.columns@.len() as int) >= 0,
        spec_rem(t, cur1, t.columns@.len() as int) >= 0,
{
    let ncols = t.columns@.len() as int;
    let wd = choose|d: int| 0 <= d < ncols && m == bnd(t, d)[cur0[d] as int];
    assert(m > gs0);
    // `m` lies at a column's last position exactly when it equals `entries`
    assert forall|d: int|
        0 <= d < ncols && (#[trigger] bnd(t, d)[cur0[d] as int]) == m implies (cur0[d] + 1 == bnd(
        t,
        d,
    ).len() <==> m == t.entries) by {
        assert(t.columns@[d].wf(t.entries));
        assert(bnd(t, d).last() == t.entries);
        if cur0[d] + 1 != bnd(t, d).len() {
            assert(bnd(t, d)[cur0[d] as int] < bnd(t, d)[bnd(t, d).len() - 1]);
        }
    }
    assert(m <= t.entries) by {
        assert(t.columns@[wd].wf(t.entries));
        if cur0[wd] as int != bnd(t, wd).len() - 1 {
            assert(bnd(t, wd)[cur0[wd] as int] < bnd(t, wd)[bnd(t, wd).len() - 1]);
        }
    }
    if all_eq {
        let g = groups1.last();
        assert(groups1 == groups0.push(g));
        assert(groups1.len() == groups0.len() + 1);
        assert forall|i: int| 0 <= i < groups0.len() implies groups1[i] == groups0[i] by {}
        assert forall|c: int| 0 <= c < ncols implies #[trigger] cur1[c] == cur0[c] + 1 by {}
        // all-or-none exhaustion, exactly at `entries`
        assert forall|c: int|
            0 <= c < ncols implies ((#[trigger] cur1[c]) == bnd(t, c).len() <==> m
            == t.entries) by {}
        // unconsumed boundaries exceed the new frontier `m`
        assert forall|c: int|
            0 <= c < ncols && cur1[c] < bnd(t, c).len() implies (#[trigger] bnd(
            t,
            c,
        )[cur1[c] as int]) > m by {
            assert(t.columns@[c].wf(t.entries));
            assert(bnd(t, c)[cur0[c] as int] < bnd(t, c)[cur1[c] as int]);
        }
        // consumed below unconsumed
        assert forall|c: int, x: int, d: int|
            0 <= c < ncols && 0 <= x < cur1[c] && 0 <= d < ncols && cur1[d] < bnd(
                t,
                d,
            ).len() implies #[trigger] bnd(t, c)[x] < #[trigger] bnd(t, d)[cur1[d] as int] by {
            assert(bnd(t, d)[cur1[d] as int] > m);
            if x < cur0[c] {
                assert(bnd(t, c)[x] < bnd(t, c)[cur0[c] as int]);
            } else {
                assert(x == cur0[c]);
            }
        }
        // contiguity of the extended group list
        assert(g.spec_end_tid() == gs0 + (m - gs0));
        assert forall|i: int|
            0 <= i < groups1.len() - 1 implies #[trigger] groups1[i].spec_end_tid() == groups1[i
            + 1].start_tid by {
            if i < groups0.len() - 1 {
                assert(groups1[i] == groups0[i]);
                assert(groups1[i + 1] == groups0[i + 1]);
            } else {
                assert(groups1[i] == groups0.last());
                assert(groups1[i + 1] == g);
            }
        }
        // partition: the closed group absorbed the open chunks
        assert forall|c: int|
            0 <= c < ncols implies #[trigger] spec_flat(groups1, c) + opens1[c]@ == conts(
            t,
            c,
        ).take(cur1[c] as int) by {
            assert(groups1.drop_last() =~= groups0);
            assert(spec_flat(groups1, c) == spec_flat(groups0, c) + opens_mid[c]@);
            assert(opens_mid[c]@ == opens0[c]@.push(conts(t, c)[cur0[c] as int]));
            assert(spec_flat(groups0, c) + opens0[c]@ == conts(t, c).take(cur0[c] as int));
            assert(spec_flat(groups1, c) + opens1[c]@ =~= (spec_flat(groups0, c)
                + opens0[c]@).push(conts(t, c)[cur0[c] as int]));
            assert(t.columns@[c].wf(t.entries));
            assert(conts(t, c).take(cur1[c] as int) =~= conts(t, c).take(cur0[c] as int).push(
                conts(t, c)[cur0[c] as int],
            ));
        }
        // the new end is a boundary of every column
        assert forall|i: int|
            0 <= i < groups1.len() implies spec_common_boundary(
            t,
            (#[trigger] groups1[i].spec_end_tid()) as u64,
        ) by {
            if i < groups0.len() {
                assert(groups1[i] == groups0[i]);
            } else {
                assert(groups1[i] == g);
                assert(g.spec_end_tid() as u64 == m);
                assert forall|c: int| 0 <= c < ncols implies #[trigger] bnd(t, c).contains(
                    m,
                ) by {
                    assert(bnd(t, c)[cur0[c] as int] == m);
                }
            }
        }
        // per-group alignment: every column's chunks in each group end at
        // the group's end row
        assert forall|i: int, c: int|
            #![trigger spec_flat(groups1.take(i + 1), c)]
            0 <= i < groups1.len() && 0 <= c < ncols implies 1 <= spec_flat(
            groups1.take(i + 1),
            c,
        ).len() <= bnd(t, c).len() && bnd(t, c)[spec_flat(groups1.take(i + 1), c).len() - 1]
            == groups1[i].spec_end_tid() by {
            assert(t.columns@[c].wf(t.entries));
            if i < groups0.len() {
                assert(groups1.take(i + 1) =~= groups0.take(i + 1));
                assert(groups1[i] == groups0[i]);
            } else {
                assert(groups1.take(i + 1) =~= groups1);
                assert(spec_flat(groups1, c) + opens1[c]@ == conts(t, c).take(cur1[c] as int));
                assert(opens1[c]@.len() == 0);
                assert(spec_flat(groups1, c) =~= spec_flat(groups1, c) + opens1[c]@);
                assert(cur1[c] <= bnd(t, c).len());
                assert(cur1[c] <= conts(t, c).len());
                assert(spec_flat(groups1, c).len() == cur1[c]);
                assert(bnd(t, c)[cur0[c] as int] == m);
                assert(groups1[i].spec_end_tid() == m);
            }
        }
        // maximality: a common boundary below every unconsumed boundary is
        // one of the closed ends
        assert forall|v: u64|
            spec_common_boundary(t, v) && 0 < v && (forall|d: int|
                0 <= d < ncols && cur1[d] < bnd(t, d).len() ==> v < (#[trigger] bnd(
                    t,
                    d,
                )[cur1[d] as int])) implies exists|i: int|
            0 <= i < groups1.len() && #[trigger] groups1[i].spec_end_tid() == v by {
            assert(bnd(t, 0).contains(v));
            let k = choose|k: int| 0 <= k < bnd(t, 0).len() && bnd(t, 0)[k] == v;
            assert(t.columns@[0].wf(t.entries));
            assert(v <= m) by {
                if k >= cur1[0] {
                    assert(cur1[0] < bnd(t, 0).len());
                    if k > cur1[0] {
                        assert(bnd(t, 0)[cur1[0] as int] < bnd(t, 0)[k]);
                    }
                    assert(false);
                } else {
                    if k < cur0[0] {
                        assert(bnd(t, 0)[k] < bnd(t, 0)[cur0[0] as int]);
                    } else {
                        assert(k == cur0[0]);
                    }
                }
            }
            if v == m {
                assert(groups1[groups1.len() - 1].spec_end_tid() == v);
            } else {
                assert(forall|d: int|
                    0 <= d < ncols && cur0[d] < bnd(t, d).len() ==> v < (#[trigger] bnd(
                        t,
                        d,
                    )[cur0[d] as int]));
                let i = choose|i: int|
                    0 <= i < groups0.len() && #[trigger] groups0[i].spec_end_tid() == v;
                assert(groups1[i].spec_end_tid() == v);
            }
        }
        assert(sweep_inv(t, cur1, opens1, groups1, gs1));
    } else {
        // some column stands above the minimum
        let we = choose|e: int| 0 <= e < ncols && bnd(t, e)[cur0[e] as int] != m;
        assert(bnd(t, we)[cur0[we] as int] > m);
        // no column exhausts in a plain advance: `m` is below `entries`
        assert(m < t.entries) by {
            assert(t.columns@[we].wf(t.entries));
            if cur0[we] as int != bnd(t, we).len() - 1 {
                assert(bnd(t, we)[cur0[we] as int] < bnd(t, we)[bnd(t, we).len() - 1]);
            }
            assert(bnd(t, we)[cur0[we] as int] <= t.entries);
        }
        assert forall|c: int| 0 <= c < ncols implies #[trigger] cur1[c] < bnd(t, c).len() by {
            if bnd(t, c)[cur0[c] as int] == m {
                assert(cur0[c] + 1 == bnd(t, c).len() <==> m == t.entries);
            }
        }
        // unconsumed boundaries stay above the unchanged frontier
        assert forall|c: int|
            0 <= c < ncols && cur1[c] < bnd(t, c).len() implies (#[trigger] bnd(
            t,
            c,
        )[cur1[c] as int]) > gs0 by {
            if bnd(t, c)[cur0[c] as int] == m {
                assert(t.columns@[c].wf(t.entries));
                assert(bnd(t, c)[cur0[c] as int] < bnd(t, c)[cur1[c] as int]);
            }
        }
        // consumed below unconsumed
        assert forall|c: int, x: int, d: int|
            0 <= c < ncols && 0 <= x < cur1[c] && 0 <= d < ncols && cur1[d] < bnd(
                t,
                d,
            ).len() implies #[trigger] bnd(t, c)[x] < #[trigger] bnd(t, d)[cur1[d] as int] by {
            assert(t.columns@[d].wf(t.entries));
            if bnd(t, d)[cur0[d] as int] == m {
                assert(cur1[d] == cur0[d] + 1);
                assert(bnd(t, d)[cur0[d] as int] < bnd(t, d)[cur1[d] as int]);
                assert(bnd(t, d)[cur1[d] as int] > m);
            } else {
                assert(cur1[d] == cur0[d]);
                assert(bnd(t, d)[cur1[d] as int] > m);
            }
            if bnd(t, c)[cur0[c] as int] == m {
                if x == cur0[c] {
                    assert(bnd(t, c)[x] == m);
                } else {
                    assert(x < cur0[c]);
                    assert(bnd(t, c)[x] < bnd(t, d)[cur0[d] as int]);
                    assert(bnd(t, c)[x] < bnd(t, wd)[cur0[wd] as int]);
                    assert(bnd(t, c)[x] < m);
                }
            } else {
                assert(cur1[c] == cur0[c]);
                assert(x < cur0[c]);
                assert(bnd(t, c)[x] < bnd(t, d)[cur0[d] as int]);
                assert(bnd(t, c)[x] < bnd(t, wd)[cur0[wd] as int]);
                assert(bnd(t, c)[x] < m);
            }
        }
        // partition
        assert forall|c: int|
            0 <= c < ncols implies #[trigger] spec_flat(groups1, c) + opens1[c]@ == conts(
            t,
            c,
        ).take(cur1[c] as int) by {
            if bnd(t, c)[cur0[c] as int] == m {
                assert(spec_flat(groups0, c) + opens0[c]@ == conts(t, c).take(cur0[c] as int));
                assert(spec_flat(groups1, c) + opens1[c]@ =~= (spec_flat(groups0, c)
                    + opens0[c]@).push(conts(t, c)[cur0[c] as int]));
                assert(t.columns@[c].wf(t.entries));
                assert(conts(t, c).take(cur1[c] as int) =~= conts(t, c).take(cur0[c] as int).push(
                    conts(t, c)[cur0[c] as int],
                ));
            } else {
                assert(spec_flat(groups1, c) + opens1[c]@ == conts(t, c).take(cur1[c] as int));
            }
        }
        // maximality: nothing common was passed over
        assert forall|v: u64|
            spec_common_boundary(t, v) && 0 < v && (forall|d: int|
                0 <= d < ncols && cur1[d] < bnd(t, d).len() ==> v < (#[trigger] bnd(
                    t,
                    d,
                )[cur1[d] as int])) implies exists|i: int|
            0 <= i < groups1.len() && #[trigger] groups1[i].spec_end_tid() == v by {
            assert(v != m) by {
                if v == m {
                    assert(bnd(t, we).contains(v));
                    let k = choose|k: int| 0 <= k < bnd(t, we).len() && bnd(t, we)[k] == v;
                    assert(t.columns@[we].wf(t.entries));
                    if k < cur0[we] {
                        assert(bnd(t, we)[k] < bnd(t, wd)[cur0[wd] as int]);
                    } else if k > cur0[we] {
                        assert(bnd(t, we)[cur0[we] as int] < bnd(t, we)[k]);
                    }
                    assert(false);
                }
            }
            assert(v < m) by {
                if v > m {
                    assert(bnd(t, wd).contains(v));
                    let k = choose|k: int| 0 <= k < bnd(t, wd).len() && bnd(t, wd)[k] == v;
                    assert(t.columns@[wd].wf(t.entries));
                    assert(cur1[wd] == cur0[wd] + 1);
                    assert(cur1[wd] < bnd(t, wd).len());
                    if k < cur0[wd] {
                        assert(bnd(t, wd)[k] < bnd(t, wd)[cur0[wd] as int]);
                    } else if k > cur0[wd] {
                        if k > cur1[wd] {
                            assert(bnd(t, wd)[cur1[wd] as int] < bnd(t, wd)[k]);
                        }
                        assert(v >= bnd(t, wd)[cur1[wd] as int]);
                        assert(v < bnd(t, wd)[cur1[wd] as int]);
                    }
                    assert(false);
                }
            }
            assert(forall|d: int|
                0 <= d < ncols && cur0[d] < bnd(t, d).len() ==> v < (#[trigger] bnd(
                    t,
                    d,
                )[cur0[d] as int]));
            let i = choose|i: int|
                0 <= i < groups0.len() && #[trigger] groups0[i].spec_end_tid() == v;
            assert(groups1[i].spec_end_tid() == v);
        }
        assert(sweep_inv(t, cur1, opens1, groups1, gs1));
    }
    assert(cur1[wd] == cur0[wd] + 1);
    assert forall|c: int| 0 <= c < ncols implies cur0[c] <= cur1[c] by {
        if bnd(t, c)[cur0[c] as int] == m {
            assert(cur1[c] == cur0[c] + 1);
        } else {
            assert(cur1[c] == cur0[c]);
        }
    }
    lemma_rem_decreases(t, cur0, cur1, wd, ncols);
    lemma_rem_nonneg(t, cur0, ncols);
    assert forall|c: int| 0 <= c < ncols implies cur1[c] <= bnd(t, c).len() by {
        if bnd(t, c)[cur0[c] as int] == m {
            assert(cur1[c] == cur0[c] + 1);
        } else {
            assert(cur1[c] == cur0[c]);
        }
    }
    lemma_rem_nonneg(t, cur1, ncols);
}


/// The decoded value bytes of one column over an ordered chunk list: the
/// concatenation of every chunk's decoded basket payload.  `None` when any
/// chunk lies outside the file or fails to decode.
pub open spec fn spec_column_payload(data: Seq<u8>, chunks: Seq<(u32, u32)>) -> Option<Seq<u8>>
    decreases chunks.len(),
{
    if chunks.len() == 0 {
        Some(Seq::empty())
    } else {
        match spec_column_payload(data, chunks.drop_last()) {
            None => None,
            Some(acc) => {
                let c = chunks.last();
                if c.0 + c.1 <= data.len() {
                    match spec_basket_values(data.subrange(c.0 as int, c.0 + c.1)) {
                        Some(p) => Some(acc + p.1),
                        None => None,
                    }
                } else {
                    None
                }
            },
        }
    }
}

/// A chunk list whose prefix fails to decode fails as a whole.
proof fn lemma_column_payload_prefix_none(data: Seq<u8>, chunks: Seq<(u32, u32)>, j: int)
    requires
        0 <= j <= chunks.len(),
        spec_column_payload(data, chunks.take(j)) is None,
    ensures
        spec_column_payload(data, chunks) is None,
    decreases chunks.len() - j,
{
    if j < chunks.len() {
        assert(chunks.take(j + 1).drop_last() =~= chunks.take(j));
        lemma_column_payload_prefix_none(data, chunks, j + 1);
    } else {
        assert(chunks.take(j) =~= chunks);
    }
}

/// Decodes one column's chunks into one contiguous buffer of value bytes.
pub fn decode_column(data: &[u8], chunks: &Vec<(u32, u32)>) -> (r: Result<Vec<u8>, RootError>)
    ensures
        match r {
            Ok(v) => spec_column_payload(data@, chunks@) == Some(v@),
            Err(e) => spec_column_payload(data@, chunks@) is None && (e
                == RootError::TruncatedInput || e == RootError::UnsupportedStructure || e
                == RootError::DecompressError),
        },
{
    let dlen = data.len();
    let mut out: Vec<u8> = Vec::new();
    let mut i: usize = 0;
    proof {
        assert(chunks@.take(0) =~= Seq::<(u32, u32)>::empty());
    }
    while i < chunks.len()
        invariant
            i <= chunks@.len(),
            dlen == data@.len(),
            spec_column_payload(data@, chunks@.take(i as int)) == Some(out@),
        decreases chunks@.len() - i,
    {
        let (st, ln) = chunks[i];
        proof {
            assert(chunks@.take(i + 1).drop_last() =~= chunks@.take(i as int));
            assert(chunks@.take(i + 1).last() == chunks@[i as int]);
        }
        if (st as u64) + (ln as u64) > dlen as u64 {
            proof {
                lemma_column_payload_prefix_none(data@, chunks@, i + 1);
            }
            return Err(RootError::TruncatedInput);
        }
        let frame = &data[st as usize..(st as usize) + (ln as usize)];
        assert(frame@ == data@.subrange(st as int, st as int + ln as int));
        match crate::container::tbasket2vec(frame) {
            Ok((_n, bytes)) => {
                out.extend_from_slice(bytes.as_slice());
                proof {
                    let p = crate::container::spec_basket_values(frame@)->0;
                    assert(out@ =~= spec_column_payload(data@, chunks@.take(i as int))->0 + p.1);
                }
                i += 1;
            },
            Err(e) => {
                proof {
                    lemma_column_payload_prefix_none(data@, chunks@, i + 1);
                }
                return Err(e);
            },
        }
    }
    proof {
        assert(chunks@.take(chunks@.len() as int) =~= chunks@);
    }
    Ok(out)
}

/// Whether every selected column of a group decodes.
pub open spec fn spec_group_cols_ok(data: Seq<u8>, containers: Seq<Vec<(u32, u32)>>, mask: u64) -> bool {
    forall|c: int|
        0 <= c < containers.len() && spec_mask_bit(mask, c) ==> spec_column_payload(
            data,
            (#[trigger] containers[c])@,
        ) is Some
}

/// The selected column indices below `n`, in increasing order.
pub open spec fn spec_selected_upto(mask: u64, n: int) -> Seq<int>
    decreases n,
{
    if n <= 0 {
        Seq::empty()
    } else {
        let p = spec_selected_upto(mask, n - 1);
        if spec_mask_bit(mask, n - 1) {
            p.push(n - 1)
        } else {
            p
        }
    }
}

/// Where a decoded column came from: its index in the file column order,
/// its rank among the selected columns, and its decoded byte count.
#[derive(Debug)]
pub struct RowGroupDecodeCursor {
    pub global_col_idx: usize,
    pub projected_col_idx: usize,
    pub byte_count: usize,
}

impl RowGroup {
    /// Decodes the selected columns of this row group from the file bytes,
    /// in increasing column order: per selected column, a cursor naming it
    /// and one contiguous buffer of its decoded value bytes.
    pub fn decode(&self, data: &[u8], cols: u64) -> (r: Result<
        Vec<(RowGroupDecodeCursor, Vec<u8>)>,
        RootError,
    >)
        ensures
            match r {
                Ok(v) => {
                    &&& spec_group_cols_ok(data@, self.containers@, cols)
                    &&& v@.len() == spec_selected_upto(cols, self.containers@.len() as int).len()
                    &&& forall|k: int|
                        0 <= k < v@.len() ==> {
                            let ci = spec_selected_upto(cols, self.containers@.len() as int)[k];
                            &&& (#[trigger] v@[k]).0.global_col_idx == ci
                            &&& v@[k].0.projected_col_idx == k
                            &&& spec_column_payload(data@, self.containers@[ci]@) == Some(
                                v@[k].1@,
                            )
                            &&& v@[k].0.byte_count == v@[k].1@.len()
                        }
                },
                Err(e) => !spec_group_cols_ok(data@, self.containers@, cols) && (e
                    == RootError::TruncatedInput || e == RootError::UnsupportedStructure || e
                    == RootError::DecompressError),
            },
    {
        let proj = crate::projection::ColumnProjection::from_u64(cols);
        let ncols = self.containers.len();
        let mut out: Vec<(RowGroupDecodeCursor, Vec<u8>)> = Vec::new();
        let mut colid: usize = 0;
        while colid < ncols
            invariant
                ncols == self.containers@.len(),
                colid <= ncols,
                proj.spec_mask() == cols,
                out@.len() == spec_selected_upto(cols, colid as int).len(),
                forall|c: int|
                    0 <= c < colid && spec_mask_bit(cols, c) ==> spec_column_payload(
                        data@,
                        (#[trigger] self.containers@[c])@,
                    ) is Some,
                forall|k: int|
                    0 <= k < out@.len() ==> {
                        let ci = spec_selected_upto(cols, colid as int)[k];
                        &&& (#[trigger] out@[k]).0.global_col_idx == ci
                        &&& out@[k].0.projected_col_idx == k
                        &&& spec_column_payload(data@, self.containers@[ci]@) == Some(out@[k].1@)
                        &&& out@[k].0.byte_count == out@[k].1@.len()
                    },
            decreases ncols - colid,
        {
            let selected = colid < 64 && proj.contains(colid as u32);
            proof {
                assert(selected == spec_mask_bit(cols, colid as int));
            }
            if selected {
                match decode_column(data, &self.containers[colid]) {
                    Ok(bytes) => {
                        let cursor = RowGroupDecodeCursor {
                            global_col_idx: colid,
                            projected_col_idx: out.len(),
                            byte_count: bytes.len(),
                        };
                        let ghost sel_pre = spec_selected_upto(cols, colid as int);
                        out.push((cursor, bytes));
                        proof {
                            assert(spec_selected_upto(cols, colid + 1) =~= sel_pre.push(
                                colid as int,
                            ));
                        }
                    },
                    Err(e) => {
                        return Err(e);
                    },
                }
            } else {
                proof {
                    assert(spec_selected_upto(cols, colid + 1) =~= spec_selected_upto(
                        cols,
                        colid as int,
                    ));
                }
            }
            colid += 1;
        }
        Ok(out)
    }
}

/// The decoded value bytes of a row group's selected columns, in projected
/// column order.
#[derive(Debug)]
pub struct DecompressedRowGroup {
    pub start_tid: Tid,
    pub count: Tid,
    pub data: Vec<Vec<u8>>,
}

impl DecompressedRowGroup {
    /// Decompresses the selected columns of a row group into one buffer per
    /// selected column.
    pub fn new(data: &[u8], cols: u64, offsets: &RowGroup) -> (r: Result<
        DecompressedRowGroup,
        RootError,
    >)
        ensures
            match r {
                Ok(d) => {
                    &&& d.start_tid == offsets.start_tid
                    &&& d.count == offsets.count
                    &&& spec_group_cols_ok(data@, offsets.containers@, cols)
                    &&& d.data@.len() == spec_selected_upto(
                        cols,
                        offsets.containers@.len() as int,
                    ).len()
                    &&& forall|k: int|
                        0 <= k < d.data@.len() ==> spec_column_payload(
                            data@,
                            offsets.containers@[spec_selected_upto(
                                cols,
                                offsets.containers@.len() as int,
                            )[k]]@,
                        ) == Some((#[trigger] d.data@[k])@)
                },
                Err(e) => !spec_group_cols_ok(data@, offsets.containers@, cols),
            },
    {
        let mut cols_data = offsets.decode(data, cols)?;
        let ghost all = cols_data@;
        let mut buffers: Vec<Vec<u8>> = Vec::new();
        while cols_data.len() > 0
            invariant
                buffers@.len() + cols_data@.len() == all.len(),
                forall|k: int| 0 <= k < buffers@.len() ==> (#[trigger] buffers@[k])@ == all[k].1@,
                forall|k: int|
                    0 <= k < cols_data@.len() ==> #[trigger] cols_data@[k] == all[
                        k + buffers@.len()
                    ],
            decreases cols_data@.len(),
        {
            let (_cursor, bytes) = cols_data.remove(0);
            buffers.push(bytes);
        }
        Ok(DecompressedRowGroup { start_tid: offsets.start_tid, count: offsets.count, data: buffers })
    }
}

/// The batch entry one column of a row group yields: the outer option is
/// `None` when the column fails to decode or contradicts its declared
/// type's width; the inner option is `None` when the declared type is
/// unsupported (the column is then marked, not decoded).
pub open spec fn spec_col_entry(data: Seq<u8>, chunks: Seq<(u32, u32)>, tag: Seq<char>, rows: int) -> Option<Option<Seq<u8>>> {
    match spec_column_payload(data, chunks) {
        None => None,
        Some(p) => match crate::batch::spec_type_of_tag(tag) {
            None => Some(None),
            Some(ty) => if p.len() == rows * ty.spec_size() {
                Some(Some(p))
            } else {
                None
            },
        },
    }
}

/// Copies a decoded payload buffer.
pub fn copy_payload(v: &Vec<u8>) -> (r: Vec<u8>)
    ensures
        r@ == v@,
{
    vstd::slice::slice_to_vec(v.as_slice())
}

impl RowGroup {
    /// The disk byte range (start, length) of an on-disk chunk.
    pub fn container_to_offsets(c: &crate::container::Container) -> (r: (u32, u32))
        requires
            c matches crate::container::Container::OnDisk(s, l) && s <= u32::MAX && l
                <= u32::MAX,
        ensures
            c matches crate::container::Container::OnDisk(s, l) && r.0 == s && r.1 == l,
    {
        match c {
            crate::container::Container::OnDisk(s, l) => (*s as u32, *l as u32),
            crate::container::Container::InMemory(_) => {
                proof {
                    assert(false);
                }
                (0, 0)
            },
        }
    }
}

impl DecompressedRowGroup {
    /// Walks one decoded column as `count` fixed-width big-endian elements
    /// of `elem_size` bytes each, handing them back widened to 64 bits.
    /// Fails with `DecompressError` exactly when the buffer does not hold
    /// that many whole elements (a corrupt row group).
    pub fn parse_col(&self, col: usize, elem_size: usize) -> (r: Result<Vec<u64>, RootError>)
        requires
            col < self.data@.len(),
            1 <= elem_size <= 8,
        ensures
            match r {
                Ok(v) => {
                    &&& self.data@[col as int]@.len() == self.count * elem_size
                    &&& v@.len() == self.count
                    &&& forall|i: int|
                        0 <= i < v@.len() ==> #[trigger] v@[i] == crate::reader::be_val(
                            self.data@[col as int]@.subrange(i * elem_size, (i + 1) * elem_size),
                        )
                },
                Err(e) => {
                    &&& self.data@[col as int]@.len() != self.count * elem_size
                    &&& e == RootError::DecompressError
                },
            },
    {
        let buf = &self.data[col];
        let blen = buf.len();
        proof {
            assert((self.count as int) * (elem_size as int) <= (self.count as int) * 8)
                by (nonlinear_arith)
                requires
                    elem_size as int <= 8,
                    self.count as int >= 0,
            ;
        }
        if (blen as u128) != (self.count as u128) * (elem_size as u128) {
            return Err(RootError::DecompressError);
        }
        let count = (blen / elem_size) as usize;
        proof {
            assert(count == self.count) by (nonlinear_arith)
                requires
                    1 <= elem_size as int,
                    count == blen as int / elem_size as int,
                    blen as int == (self.count as int) * (elem_size as int),
            ;
        }
        let mut out: Vec<u64> = Vec::new();
        let mut i: usize = 0;
        while i < count
            invariant
                count == self.count,
                blen == self.data@[col as int]@.len(),
                blen == count * elem_size,
                1 <= elem_size <= 8,
                col < self.data@.len(),
                out@.len() == i,
                i <= count,
                buf == self.data@[col as int],
                forall|k: int|
                    0 <= k < i ==> #[trigger] out@[k] == crate::reader::be_val(
                        self.data@[col as int]@.subrange(
                            k * elem_size,
                            (k + 1) * elem_size,
                        ),
                    ),
            decreases count - i,
        {
            proof {
                assert((i + 1) * (elem_size as int) <= (count as int) * (elem_size as int))
                    by (nonlinear_arith)
                    requires
                        i + 1 <= count as int,
                        elem_size as int >= 0,
                ;
                assert(i * (elem_size as int) + elem_size as int == (i + 1) * (elem_size as int))
                    by (nonlinear_arith);
            }
            let v = crate::reader::read_be(buf.as_slice(), i * elem_size, elem_size);
            out.push(v);
            i += 1;
        }
        Ok(out)
    }
}

} // verus!

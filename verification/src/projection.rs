//! Column projection masks.
//!
//! A projection is a fixed 64-bit mask over the file's column order: column
//! index `i` (0-based, least-significant bit first) is selected exactly when
//! bit `i` is set.  Indices above 63 are never selected; this is a fixed
//! capacity limit of the representation, part of the wire contract.
use vstd::prelude::*;

verus! {

/// Whether bit `col_idx` of a 64-bit selection mask is set; bits above 63
/// do not exist, so such an index is never selected.
pub open spec fn spec_mask_bit(mask: u64, col_idx: int) -> bool {
    0 <= col_idx <= 63 && (mask >> (col_idx as u64)) & 1 == 1
}

/// An immutable 64-bit column selection mask, stored as two 32-bit halves.
#[derive(Debug, Clone, Copy, PartialEq, Eq, Structural)]
pub struct ColumnProjection {
    mask_1: u32,
    mask_2: u32,
}

impl ColumnProjection {
    /// The largest selectable column index.
    pub const MAX_COL_IDX: u32 = 63;

    /// The full 64-bit mask: `mask_1` holds bits 0..32, `mask_2` bits 32..64.
    pub closed spec fn spec_mask(self) -> u64 {
        (self.mask_1 as u64) | ((self.mask_2 as u64) << 32)
    }

    /// Whether column `col_idx` is selected: bit `col_idx` of the mask, and
    /// never for indices above 63.
    pub open spec fn spec_contains(self, col_idx: u32) -> bool {
        spec_mask_bit(self.spec_mask(), col_idx as int)
    }

    /// Builds a projection from the two 32-bit mask halves.
    pub fn new(mask_1: u32, mask_2: u32) -> (r: ColumnProjection)
        ensures
            r.spec_mask() == (mask_1 as u64) | ((mask_2 as u64) << 32),
    {
        ColumnProjection { mask_1, mask_2 }
    }

    /// Builds a projection from a full 64-bit mask.
    pub fn from_u64(val: u64) -> (r: ColumnProjection)
        ensures
            r.spec_mask() == val,
    {
        let r = ColumnProjection {
            mask_1: (val & (u32::MAX as u64)) as u32,
            mask_2: (val >> 32) as u32,
        };
        proof {
            assert(((val & 0xffff_ffffu64) as u32 as u64) | (((val >> 32) as u32 as u64) << 32)
                == val) by (bit_vector);
        }
        r
    }

    /// The low 32 bits of the mask.
    pub fn mask_1(&self) -> (r: u32)
        ensures
            r == self.spec_mask() as u32,
    {
        proof {
            let m1 = self.mask_1;
            let m2 = self.mask_2;
            assert((((m1 as u64) | ((m2 as u64) << 32)) as u32) == m1) by (bit_vector);
        }
        self.mask_1
    }

    /// The high 32 bits of the mask.
    pub fn mask_2(&self) -> (r: u32)
        ensures
            r == (self.spec_mask() >> 32) as u32,
    {
        proof {
            let m1 = self.mask_1;
            let m2 = self.mask_2;
            assert(((((m1 as u64) | ((m2 as u64) << 32)) >> 32) as u32) == m2) by (bit_vector);
        }
        self.mask_2
    }

    /// Tests whether column `col_idx` is selected.  Indices above
    /// `MAX_COL_IDX` are never selected.
    pub fn contains(&self, col_idx: u32) -> (r: bool)
        ensures
            r == self.spec_contains(col_idx),
    {
        if col_idx > Self::MAX_COL_IDX {
            false
        } else if col_idx < 32 {
            let r = (self.mask_1 & (1u32 << col_idx)) != 0;
            proof {
                let m1 = self.mask_1;
                let m2 = self.mask_2;
                let i = col_idx;
                assert(i < 32 ==> (((m1 & (1u32 << i)) != 0) == ((((m1 as u64) | ((m2 as u64)
                    << 32)) >> (i as u64)) & 1 == 1))) by (bit_vector);
            }
            r
        } else {
            let r = (self.mask_2 & (1u32 << (col_idx - 32))) != 0;
            proof {
                let m1 = self.mask_1;
                let m2 = self.mask_2;
                let i = col_idx;
                assert(32 <= i < 64 ==> (((m2 & (1u32 << ((i - 32) as u32))) != 0) == ((((m1 as u64)
                    | ((m2 as u64) << 32)) >> (i as u64)) & 1 == 1))) by (bit_vector);
            }
            r
        }
    }
}

/// Projection capacity: a column index above 63 is never selected,
/// whatever the mask holds.  This is a fixed limit of the 64-bit
/// representation, part of the wire contract.
pub proof fn lemma_projection_capacity(p: ColumnProjection, col_idx: u32)
    requires
        col_idx > 63,
    ensures
        !p.spec_contains(col_idx),
{
}

} // verus!

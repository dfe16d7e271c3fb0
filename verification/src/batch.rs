//! Typed columnar batches.
//!
//! A batch holds, for each selected column, a schema entry (name and
//! declared type tag) and a buffer of big-endian fixed-width values.  A
//! column whose declared type is outside the supported set carries an
//! explicit unsupported marker instead of a buffer, without affecting the
//! other columns of the same batch.  Buffers are reference counted, so a
//! slice of a batch is a logical view, not a new allocation.
use vstd::prelude::*;

use std::rc::Rc;

use crate::errors::RootError;
use crate::reader::be_val;
use crate::reader::read_be;
use vstd::string::StringExecFns;

verus! {

broadcast use vstd::arithmetic::mul::lemma_mul_inequality, vstd::arithmetic::mul::lemma_mul_is_distributive_add_other_way, vstd::arithmetic::mul::lemma_mul_strictly_positive;

/// The supported column element types: big-endian fixed-width numerics and
/// one-byte booleans.
#[derive(Debug, Clone, Copy, PartialEq, Eq, Structural)]
pub enum ColumnType {
    F64,
    U64,
    I64,
    F32,
    U32,
    I32,
    Bool,
}

impl ColumnType {
    /// The element width in bytes.
    pub open spec fn spec_size(self) -> int {
        match self {
            ColumnType::F64 | ColumnType::U64 | ColumnType::I64 => 8,
            ColumnType::F32 | ColumnType::U32 | ColumnType::I32 => 4,
            ColumnType::Bool => 1,
        }
    }

    /// The element width in bytes.
    pub fn size(&self) -> (r: usize)
        ensures
            r == self.spec_size(),
    {
        match self {
            ColumnType::F64 | ColumnType::U64 | ColumnType::I64 => 8,
            ColumnType::F32 | ColumnType::U32 | ColumnType::I32 => 4,
            ColumnType::Bool => 1,
        }
    }
}

/// The column type a declared type tag names, if it is supported.
pub open spec fn spec_type_of_tag(tag: Seq<char>) -> Option<ColumnType> {
    if tag == "f64"@ {
        Some(ColumnType::F64)
    } else if tag == "u64"@ {
        Some(ColumnType::U64)
    } else if tag == "i64"@ {
        Some(ColumnType::I64)
    } else if tag == "f32"@ {
        Some(ColumnType::F32)
    } else if tag == "u32"@ {
        Some(ColumnType::U32)
    } else if tag == "i32"@ {
        Some(ColumnType::I32)
    } else if tag == "bool"@ {
        Some(ColumnType::Bool)
    } else {
        None
    }
}

/// Whether a type tag equals a literal.
fn tag_is(tag: &String, lit: &str) -> (r: bool)
    ensures
        r == (tag@ == lit@),
{
    let s = String::from_str(lit);
    *tag == s
}

/// Resolves a declared type tag, failing with `UnsupportedType` exactly
/// when the tag is outside the supported set.
pub fn string_to_column_type(tag: &String) -> (r: Result<ColumnType, RootError>)
    ensures
        match r {
            Ok(ty) => spec_type_of_tag(tag@) == Some(ty),
            Err(e) => spec_type_of_tag(tag@) is None && e == RootError::UnsupportedType,
        },
{
    if tag_is(tag, "f64") {
        Ok(ColumnType::F64)
    } else if tag_is(tag, "u64") {
        Ok(ColumnType::U64)
    } else if tag_is(tag, "i64") {
        Ok(ColumnType::I64)
    } else if tag_is(tag, "f32") {
        Ok(ColumnType::F32)
    } else if tag_is(tag, "u32") {
        Ok(ColumnType::U32)
    } else if tag_is(tag, "i32") {
        Ok(ColumnType::I32)
    } else if tag_is(tag, "bool") {
        Ok(ColumnType::Bool)
    } else {
        Err(RootError::UnsupportedType)
    }
}

/// Relies on `Rc::clone` (std): returns a handle to the same allocation, so
/// the clone holds the same bytes.
#[verifier::external_body]
fn rc_clone(r: &Rc<Vec<u8>>) -> (res: Rc<Vec<u8>>)
    ensures
        res@ == r@,
{
    Rc::clone(r)
}

/// A typed column buffer: a shared byte allocation with a logical window of
/// `rows` elements of width `ty.spec_size()` starting at `start`.
#[derive(Debug)]
pub struct ColumnBuffer {
    ty: ColumnType,
    data: Rc<Vec<u8>>,
    start: usize,
    rows: usize,
}

impl ColumnBuffer {
    /// The window lies inside the allocation.
    pub closed spec fn wf(self) -> bool {
        self.start + self.rows * self.ty.spec_size() <= self.data@.len()
    }

    /// The element type.
    pub closed spec fn spec_ty(self) -> ColumnType {
        self.ty
    }

    /// The number of rows in the window.
    pub closed spec fn spec_rows(self) -> int {
        self.rows as int
    }

    /// The raw big-endian value bytes of the window.
    pub closed spec fn spec_bytes(self) -> Seq<u8> {
        self.data@.subrange(self.start as int, self.start + self.rows * self.ty.spec_size())
    }

    /// Wraps decoded value bytes as a column buffer; the byte count must be
    /// exactly `rows` elements.
    pub fn new(ty: ColumnType, data: Vec<u8>, rows: usize) -> (r: ColumnBuffer)
        requires
            data@.len() == rows * ty.spec_size(),
        ensures
            r.wf(),
            r.spec_ty() == ty,
            r.spec_rows() == rows,
            r.spec_bytes() == data@,
    {
        let ghost bytes = data@;
        let r = ColumnBuffer { ty, data: Rc::new(data), start: 0, rows };
        proof {
            assert(r.spec_bytes() =~= bytes);
        }
        r
    }

    /// The element type.
    pub fn col_type(&self) -> (r: ColumnType)
        ensures
            r == self.spec_ty(),
    {
        self.ty
    }

    /// The number of rows in the window.
    pub fn row_count(&self) -> (r: usize)
        ensures
            r == self.spec_rows(),
    {
        self.rows
    }

    /// The big-endian value of the element at `row`, as raw bits widened to
    /// 64 bits (floating-point columns yield the bit pattern).
    pub fn get_raw(&self, row: usize) -> (r: u64)
        requires
            self.wf(),
            row < self.spec_rows(),
        ensures
            r == be_val(
                self.spec_bytes().subrange(
                    row * self.spec_ty().spec_size(),
                    (row + 1) * self.spec_ty().spec_size(),
                ),
            ),
    {
        let size = self.ty.size();
        let buf = self.data.as_slice();
        let _dlen = buf.len();
        proof {
            assert((row + 1) * self.ty.spec_size() <= self.rows * self.ty.spec_size());
            assert(row * self.ty.spec_size() + self.ty.spec_size() == (row + 1)
                * self.ty.spec_size());
            assert(row * self.ty.spec_size() >= 0);
        }
        let off = self.start + row * size;
        let r = read_be(buf, off, size);
        proof {
            assert(self.spec_bytes().subrange(
                row * self.ty.spec_size(),
                (row + 1) * self.ty.spec_size(),
            ) =~= self.data@.subrange(off as int, off + size));
        }
        r
    }

    /// The boolean value of the element at `row`: nonzero means true.
    pub fn get_bool(&self, row: usize) -> (r: bool)
        requires
            self.wf(),
            self.spec_ty() == ColumnType::Bool,
            row < self.spec_rows(),
        ensures
            r == (self.spec_bytes()[row as int] != 0),
    {
        let raw = self.get_raw(row);
        proof {
            reveal_with_fuel(be_val, 2);
            let single = self.spec_bytes().subrange(row as int, row + 1);
            assert(single =~= seq![self.spec_bytes()[row as int]]);
            assert(single.drop_last() =~= Seq::<u8>::empty());
            assert(be_val(single) == self.spec_bytes()[row as int]);
        }
        raw != 0
    }

    /// A logical sub-window of `cnt` rows starting `off` rows in: the same
    /// allocation, no copy.
    pub fn slice(&self, off: usize, cnt: usize) -> (r: ColumnBuffer)
        requires
            self.wf(),
            off + cnt <= self.spec_rows(),
        ensures
            r.wf(),
            r.spec_ty() == self.spec_ty(),
            r.spec_rows() == cnt,
            r.spec_bytes() == self.spec_bytes().subrange(
                off * self.spec_ty().spec_size(),
                (off + cnt) * self.spec_ty().spec_size(),
            ),
    {
        let size = self.ty.size();
        let _dlen = self.data.as_slice().len();
        proof {
            assert((off + cnt) * self.ty.spec_size() <= self.rows * self.ty.spec_size());
            assert(off * self.ty.spec_size() + cnt * self.ty.spec_size() == (off + cnt)
                * self.ty.spec_size());
            assert(off * self.ty.spec_size() >= 0);
        }
        let r = ColumnBuffer {
            ty: self.ty,
            data: rc_clone(&self.data),
            start: self.start + off * size,
            rows: cnt,
        };
        proof {
            assert(r.spec_bytes() =~= self.spec_bytes().subrange(
                off * self.ty.spec_size(),
                (off + cnt) * self.ty.spec_size(),
            ));
        }
        r
    }
}

/// One schema entry: a column's name and its declared type tag.
#[derive(Debug)]
pub struct FieldMeta {
    pub name: String,
    pub type_tag: String,
}

impl FieldMeta {
    /// Copies the entry (its strings are cloned).
    pub fn duplicate(&self) -> (r: FieldMeta)
        ensures
            r.name@ == self.name@,
            r.type_tag@ == self.type_tag@,
    {
        FieldMeta { name: self.name.clone(), type_tag: self.type_tag.clone() }
    }
}

/// One decoded column of a batch: its values, or a marker that its declared
/// type is unsupported (the rest of the batch is unaffected).
#[derive(Debug)]
pub enum ColumnData {
    Values(ColumnBuffer),
    Unsupported,
}

/// A decoded columnar batch: a schema and one decoded column per schema
/// entry, all of the same logical row count.
#[derive(Debug)]
pub struct ColumnarBatch {
    pub schema: Vec<FieldMeta>,
    pub columns: Vec<ColumnData>,
    pub row_count: usize,
}

impl ColumnarBatch {
    /// One column per schema entry; decoded columns have this batch's row
    /// count and the type their tag names; a column is marked unsupported
    /// exactly when its tag is outside the supported set.
    pub open spec fn wf(self) -> bool {
        &&& self.columns@.len() == self.schema@.len()
        &&& forall|i: int|
            0 <= i < self.columns@.len() ==> match #[trigger] self.columns@[i] {
                ColumnData::Values(b) => {
                    &&& b.wf()
                    &&& b.spec_rows() == self.row_count
                    &&& spec_type_of_tag(self.schema@[i].type_tag@) == Some(b.spec_ty())
                },
                ColumnData::Unsupported => spec_type_of_tag(self.schema@[i].type_tag@) is None,
            }
    }

    /// The schema as (name, tag) character sequences.
    pub open spec fn spec_schema(self) -> Seq<(Seq<char>, Seq<char>)> {
        self.schema@.map_values(|f: FieldMeta| (f.name@, f.type_tag@))
    }

    /// The decoded value bytes per column; `None` marks an unsupported
    /// column.
    pub open spec fn spec_cols(self) -> Seq<Option<Seq<u8>>> {
        self.columns@.map_values(
            |c: ColumnData|
                match c {
                    ColumnData::Values(b) => Some(b.spec_bytes()),
                    ColumnData::Unsupported => None,
                },
        )
    }

    /// The number of columns.
    pub fn width(&self) -> (r: usize)
        ensures
            r == self.schema@.len(),
    {
        self.schema.len()
    }

    /// A logical slice of `len` rows starting at row `offset`: the schema
    /// is kept, each decoded column becomes a sub-window sharing the same
    /// allocation, and unsupported markers stay.
    pub fn slice(&self, offset: usize, len: usize) -> (r: ColumnarBatch)
        requires
            self.wf(),
            offset + len <= self.row_count,
        ensures
            r.wf(),
            r.row_count == len,
            r.spec_schema() == self.spec_schema(),
            r.spec_cols().len() == self.spec_cols().len(),
            forall|i: int|
                0 <= i < self.spec_cols().len() ==> #[trigger] r.spec_cols()[i] == match self.spec_cols()[i] {
                    Some(bytes) => Some(
                        bytes.subrange(
                            offset * self.columns@[i]->Values_0.spec_ty().spec_size(),
                            (offset + len) * self.columns@[i]->Values_0.spec_ty().spec_size(),
                        ),
                    ),
                    None => None,
                },
    {
        let mut schema: Vec<FieldMeta> = Vec::new();
        let mut i: usize = 0;
        while i < self.schema.len()
            invariant
                i <= self.schema@.len(),
                schema@.len() == i,
                forall|k: int|
                    0 <= k < i ==> (#[trigger] schema@[k]).name@ == self.schema@[k].name@
                        && schema@[k].type_tag@ == self.schema@[k].type_tag@,
            decreases self.schema@.len() - i,
        {
            schema.push(self.schema[i].duplicate());
            i += 1;
        }
        let mut columns: Vec<ColumnData> = Vec::new();
        let mut j: usize = 0;
        while j < self.columns.len()
            invariant
                self.wf(),
                offset + len <= self.row_count,
                j <= self.columns@.len(),
                columns@.len() == j,
                forall|k: int|
                    0 <= k < j ==> match #[trigger] columns@[k] {
                        ColumnData::Values(b) => {
                            &&& self.columns@[k] matches ColumnData::Values(ob)
                            &&& b.wf()
                            &&& b.spec_ty() == ob.spec_ty()
                            &&& b.spec_rows() == len
                            &&& b.spec_bytes() == ob.spec_bytes().subrange(
                                offset * ob.spec_ty().spec_size(),
                                (offset + len) * ob.spec_ty().spec_size(),
                            )
                        },
                        ColumnData::Unsupported => self.columns@[k] is Unsupported,
                    },
            decreases self.columns@.len() - j,
        {
            let entry = match &self.columns[j] {
                ColumnData::Values(b) => ColumnData::Values(b.slice(offset, len)),
                ColumnData::Unsupported => ColumnData::Unsupported,
            };
            columns.push(entry);
            j += 1;
        }
        let r = ColumnarBatch { schema, columns, row_count: len };
        proof {
            assert(r.spec_schema() =~= self.spec_schema());
        }
        r
    }

    /// The decoded column at `idx`.
    pub fn column(&self, idx: usize) -> (r: &ColumnData)
        requires
            idx < self.columns@.len(),
        ensures
            *r == self.columns@[idx as int],
    {
        &self.columns[idx]
    }
}

} // verus!

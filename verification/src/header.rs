//! Fixed-width record structures.
//!
//! This layer reads the file's records assuming the compact layout of
//! ordinary (small) files: every seek pointer is 4 bytes.  It mirrors the
//! on-disk tables byte for byte and is useful for inspecting a file
//! directly at known offsets.
use vstd::prelude::*;

use crate::errors::RootError;
use crate::reader::read_be_wide;
use crate::reader::read_string;
use crate::reader::read_u16;
use crate::reader::read_u32;
use crate::reader::read_u8;
use crate::reader::spec_be;
use crate::reader::spec_str_chars;
use crate::reader::spec_str_ok;
use crate::reader::spec_str_total;

verus! {

/// The file header in the compact 4-byte-pointer layout (61 bytes after
/// the 4-byte magic).
pub struct RootHeader {
    pub version: u32,
    pub begin: u32,
    pub end: u32,
    pub seek_free: u32,
    pub nbytes_free: u32,
    pub nfree: u32,
    pub nbytes_name: u32,
    pub units: u8,
    pub compress: u32,
    pub seek_info: u32,
    pub nbytes_info: u32,
    pub uuid: u128,
}

/// The size in bytes of the compact file header.
pub const ROOT_HEADER_SIZE: usize = 61;

impl RootHeader {
    /// Reads the compact file header at the start of `src`, returning it
    /// and the bytes consumed.
    pub fn read(src: &[u8]) -> (r: Result<(RootHeader, usize), RootError>)
        ensures
            match r {
                Ok((h, n)) => {
                    &&& src@.len() >= 61
                    &&& src@[0] == 0x72 && src@[1] == 0x6f && src@[2] == 0x6f && src@[3] == 0x74
                    &&& n == 61
                    &&& h.version == spec_be(src@, 4, 4)
                    &&& h.begin == spec_be(src@, 8, 4)
                    &&& h.end == spec_be(src@, 12, 4)
                    &&& h.seek_free == spec_be(src@, 16, 4)
                    &&& h.nbytes_free == spec_be(src@, 20, 4)
                    &&& h.nfree == spec_be(src@, 24, 4)
                    &&& h.nbytes_name == spec_be(src@, 28, 4)
                    &&& h.units == spec_be(src@, 32, 1)
                    &&& h.compress == spec_be(src@, 33, 4)
                    &&& h.seek_info == spec_be(src@, 37, 4)
                    &&& h.nbytes_info == spec_be(src@, 41, 4)
                    &&& h.uuid == spec_be(src@, 45, 16)
                },
                Err(e) => {
                    &&& !(src@.len() >= 61 && src@[0] == 0x72 && src@[1] == 0x6f && src@[2]
                        == 0x6f && src@[3] == 0x74)
                    &&& (e == RootError::TruncatedInput || e == RootError::BadMagic)
                },
            },
    {
        if src.len() < ROOT_HEADER_SIZE {
            return Err(RootError::TruncatedInput);
        }
        if !(src[0] == 0x72 && src[1] == 0x6f && src[2] == 0x6f && src[3] == 0x74) {
            return Err(RootError::BadMagic);
        }
        let h = RootHeader {
            version: read_u32(src, 4),
            begin: read_u32(src, 8),
            end: read_u32(src, 12),
            seek_free: read_u32(src, 16),
            nbytes_free: read_u32(src, 20),
            nfree: read_u32(src, 24),
            nbytes_name: read_u32(src, 28),
            units: read_u8(src, 32),
            compress: read_u32(src, 33),
            seek_info: read_u32(src, 37),
            nbytes_info: read_u32(src, 41),
            uuid: read_be_wide(src, 45, 16),
        };
        Ok((h, ROOT_HEADER_SIZE))
    }
}

/// The offsets of the three length-prefixed strings of a compact record
/// header (class name, object name, title) relative to the record start.
pub open spec fn spec_rec_s1(src: Seq<u8>, off: int) -> int {
    off + 26
}

pub open spec fn spec_rec_s2(src: Seq<u8>, off: int) -> int {
    spec_rec_s1(src, off) + spec_str_total(src, spec_rec_s1(src, off))
}

pub open spec fn spec_rec_s3(src: Seq<u8>, off: int) -> int {
    spec_rec_s2(src, off) + spec_str_total(src, spec_rec_s2(src, off))
}

/// Whether a whole compact record header lies at `off`.
pub open spec fn spec_rec_ok(src: Seq<u8>, off: int) -> bool {
    &&& 0 <= off
    &&& off + 26 <= src.len()
    &&& spec_str_ok(src, spec_rec_s1(src, off))
    &&& spec_str_ok(src, spec_rec_s2(src, off))
    &&& spec_str_ok(src, spec_rec_s3(src, off))
}

/// The size in bytes of the compact record header at `off`.
pub open spec fn spec_rec_size(src: Seq<u8>, off: int) -> int {
    spec_rec_s3(src, off) + spec_str_total(src, spec_rec_s3(src, off)) - off
}

/// A record (key) header in the compact 4-byte-pointer layout: every data
/// record in the file is preceded by one.
pub struct RecordHeader {
    /// Length of the stored (possibly compressed) record in bytes.
    pub nbytes: u32,
    pub version: u16,
    /// Length of the uncompressed object in bytes.
    pub obj_len: u32,
    pub datime: u32,
    pub key_len: u16,
    pub cycle: u16,
    pub seek_key: u32,
    pub seek_pdir: u32,
    pub class_name: String,
    pub name: String,
    pub title: String,
}

impl RecordHeader {
    /// Reads the compact record header at `off`, returning it and the
    /// bytes consumed.
    pub fn read(src: &[u8], off: usize) -> (r: Result<(RecordHeader, usize), RootError>)
        ensures
            match r {
                Ok((h, n)) => {
                    &&& spec_rec_ok(src@, off as int)
                    &&& n == spec_rec_size(src@, off as int)
                    &&& off + n <= src@.len()
                    &&& h.nbytes == spec_be(src@, off as int, 4)
                    &&& h.version == spec_be(src@, off + 4, 2)
                    &&& h.obj_len == spec_be(src@, off + 6, 4)
                    &&& h.datime == spec_be(src@, off + 10, 4)
                    &&& h.key_len == spec_be(src@, off + 14, 2)
                    &&& h.cycle == spec_be(src@, off + 16, 2)
                    &&& h.seek_key == spec_be(src@, off + 18, 4)
                    &&& h.seek_pdir == spec_be(src@, off + 22, 4)
                    &&& h.class_name@ == spec_str_chars(src@, spec_rec_s1(src@, off as int))
                    &&& h.name@ == spec_str_chars(src@, spec_rec_s2(src@, off as int))
                    &&& h.title@ == spec_str_chars(src@, spec_rec_s3(src@, off as int))
                },
                Err(e) => {
                    &&& !spec_rec_ok(src@, off as int)
                    &&& (e == RootError::TruncatedInput || e == RootError::UnsupportedStructure)
                },
            },
    {
        if src.len() < 26 || off > src.len() - 26 {
            return Err(RootError::TruncatedInput);
        }
        let s1 = off + 26;
        let (class_name, t1) = read_string(src, s1)?;
        let s2 = s1 + t1;
        let (name, t2) = read_string(src, s2)?;
        let s3 = s2 + t2;
        let (title, t3) = read_string(src, s3)?;
        let h = RecordHeader {
            nbytes: read_u32(src, off),
            version: read_u16(src, off + 4),
            obj_len: read_u32(src, off + 6),
            datime: read_u32(src, off + 10),
            key_len: read_u16(src, off + 14),
            cycle: read_u16(src, off + 16),
            seek_key: read_u32(src, off + 18),
            seek_pdir: read_u32(src, off + 22),
            class_name,
            name,
            title,
        };
        Ok((h, s3 + t3 - off))
    }

    /// The offset of the record's data bytes relative to the record start:
    /// the fixed fields, the three 1-byte string length prefixes, and the
    /// string contents.
    pub open spec fn spec_data_offset(self) -> int {
        29 + vstd::utf8::encode_utf8(self.class_name@).len() + vstd::utf8::encode_utf8(
            self.name@,
        ).len() + vstd::utf8::encode_utf8(self.title@).len() as int
    }

    /// The offset of the record's data bytes relative to the record start.
    pub fn data_offset(&self) -> (r: usize)
        requires
            self.spec_data_offset() <= usize::MAX,
        ensures
            r == self.spec_data_offset(),
    {
        29 + self.class_name.as_str().len() + self.name.as_str().len()
            + self.title.as_str().len()
    }

    /// The record's data bytes inside the file image.
    pub fn data_ptr<'a>(&self, mmap: &'a [u8]) -> (r: &'a [u8])
        requires
            self.spec_data_offset() <= usize::MAX,
            self.seek_key + self.spec_data_offset() <= mmap@.len(),
        ensures
            r@ == mmap@.skip(self.seek_key + self.spec_data_offset()),
    {
        let mlen = mmap.len();
        let start = self.seek_key as usize + self.data_offset();
        let r = &mmap[start..mlen];
        proof {
            assert(r@ =~= mmap@.skip(self.seek_key + self.spec_data_offset()));
        }
        r
    }

    /// Whether the record's data is stored compressed: the uncompressed
    /// object length plus the header overhead differs from the stored
    /// record length.
    pub fn is_compressed(&self) -> (r: bool)
        requires
            self.spec_data_offset() <= usize::MAX,
        ensures
            r == (self.obj_len + self.spec_data_offset() != self.nbytes),
    {
        (self.obj_len as u128) + (self.data_offset() as u128) != self.nbytes as u128
    }
}

/// A directory record in the compact 4-byte-pointer layout.
pub struct Directory {
    pub version: u16,
    pub c_time: u32,
    pub m_time: u32,
    pub n_bytes_keys: u32,
    pub n_bytes_name: u32,
    pub seek_dir: u32,
    pub seek_parent: u32,
    pub seek_keys: u32,
}

impl Directory {
    /// Reads the compact directory record at `off`.
    pub fn read(src: &[u8], off: usize) -> (r: Result<(Directory, usize), RootError>)
        ensures
            match r {
                Ok((d, n)) => {
                    &&& off + 30 <= src@.len()
                    &&& n == 30
                    &&& d.version == spec_be(src@, off as int, 2)
                    &&& d.c_time == spec_be(src@, off + 2, 4)
                    &&& d.m_time == spec_be(src@, off + 6, 4)
                    &&& d.n_bytes_keys == spec_be(src@, off + 10, 4)
                    &&& d.n_bytes_name == spec_be(src@, off + 14, 4)
                    &&& d.seek_dir == spec_be(src@, off + 18, 4)
                    &&& d.seek_parent == spec_be(src@, off + 22, 4)
                    &&& d.seek_keys == spec_be(src@, off + 26, 4)
                },
                Err(e) => off + 30 > src@.len() && e == RootError::TruncatedInput,
            },
    {
        if src.len() < 30 || off > src.len() - 30 {
            return Err(RootError::TruncatedInput);
        }
        let d = Directory {
            version: read_u16(src, off),
            c_time: read_u32(src, off + 2),
            m_time: read_u32(src, off + 6),
            n_bytes_keys: read_u32(src, off + 10),
            n_bytes_name: read_u32(src, off + 14),
            seek_dir: read_u32(src, off + 18),
            seek_parent: read_u32(src, off + 22),
            seek_keys: read_u32(src, off + 26),
        };
        Ok((d, 30))
    }

    /// The byte offset of the key list this directory points at.
    pub fn keys_offset(&self) -> (r: usize)
        ensures
            r == self.seek_keys,
    {
        self.seek_keys as usize
    }

    /// The key list's bytes inside the file image.
    pub fn keys_ptr<'a>(&self, mmap: &'a [u8]) -> (r: &'a [u8])
        requires
            self.seek_keys <= mmap@.len(),
        ensures
            r@ == mmap@.skip(self.seek_keys as int),
    {
        let r = &mmap[self.seek_keys as usize..mmap.len()];
        proof {
            assert(r@ =~= mmap@.skip(self.seek_keys as int));
        }
        r
    }
}

/// The offset just past the `k`-th record of a key list whose records lie
/// at the distances their `nbytes` fields declare, after the 4-byte count.
pub open spec fn spec_keys_off(src: Seq<u8>, k: int) -> int
    decreases k,
{
    if k <= 0 {
        4
    } else {
        spec_keys_off(src, k - 1) + spec_be(src, spec_keys_off(src, k - 1), 4)
    }
}

/// Whether the first `k` records of a key list parse, each lying within
/// the buffer.
pub open spec fn spec_keys_ok(src: Seq<u8>, k: int) -> bool
    decreases k,
{
    if k <= 0 {
        true
    } else {
        spec_keys_ok(src, k - 1) && spec_rec_ok(src, spec_keys_off(src, k - 1)) && spec_keys_off(
            src,
            k,
        ) <= src.len()
    }
}

/// A failing record poisons every longer prefix of the key list.
proof fn lemma_keys_ok_prefix(src: Seq<u8>, i: int, k: int)
    requires
        0 <= i < k,
        !(spec_rec_ok(src, spec_keys_off(src, i)) && spec_keys_off(src, i + 1) <= src.len()),
    ensures
        !spec_keys_ok(src, k),
    decreases k,
{
    if i < k - 1 {
        lemma_keys_ok_prefix(src, i, k - 1);
    }
}

/// The count of a key list: a 4-byte count followed by that many records,
/// each walked by its declared stored length.
pub struct KeyHeaders {
    pub count: u32,
}

impl KeyHeaders {
    /// Walks a key list: reads the count, then parses each record header
    /// in turn, stepping by the record's declared stored length.  Returns
    /// the count and the offset just past the last record walked.
    pub fn read(src: &[u8]) -> (r: Result<(KeyHeaders, usize), RootError>)
        ensures
            match r {
                Ok((kh, n)) => {
                    &&& src@.len() >= 4
                    &&& kh.count == spec_be(src@, 0, 4)
                    &&& spec_keys_ok(src@, kh.count as int)
                    &&& n == spec_keys_off(src@, kh.count as int)
                },
                Err(e) => src@.len() < 4 || !spec_keys_ok(src@, spec_be(src@, 0, 4) as int),
            },
    {
        if src.len() < 4 {
            return Err(RootError::TruncatedInput);
        }
        let count = read_u32(src, 0);
        let srclen = src.len();
        let mut off: usize = 4;
        let mut i: u32 = 0;
        while i < count
            invariant
                i <= count,
                srclen == src@.len(),
                src@.len() >= 4,
                count == spec_be(src@, 0, 4),
                off == spec_keys_off(src@, i as int),
                off <= src@.len(),
                spec_keys_ok(src@, i as int),
            decreases count - i,
        {
            let parsed = RecordHeader::read(src, off);
            match parsed {
                Ok((h, _n)) => {
                    let nbytes = h.nbytes as u64;
                    if nbytes > (srclen - off) as u64 {
                        proof {
                            lemma_keys_ok_prefix(src@, i as int, count as int);
                        }
                        return Err(RootError::TruncatedInput);
                    }
                    off = off + nbytes as usize;
                    proof {
                        assert(spec_keys_ok(src@, i + 1));
                    }
                    i = i + 1;
                },
                Err(e) => {
                    proof {
                        lemma_keys_ok_prefix(src@, i as int, count as int);
                    }
                    return Err(e);
                },
            }
        }
        Ok((KeyHeaders { count }, off))
    }
}

/// A compressed object's frame header: two algorithm-identifying magic
/// bytes followed by seven bytes of per-algorithm sub-header.
pub struct CompressedObjHeader {
    pub magic_bytes: [u8; 2],
    pub header: [u8; 7],
}

impl CompressedObjHeader {
    /// Reads the 9-byte compression frame header at `off`.
    pub fn read(src: &[u8], off: usize) -> (r: Result<(CompressedObjHeader, usize), RootError>)
        ensures
            match r {
                Ok((h, n)) => {
                    &&& off + 9 <= src@.len()
                    &&& n == 9
                    &&& h.magic_bytes@ == src@.subrange(off as int, off + 2)
                    &&& h.header@ == src@.subrange(off + 2, off + 9)
                },
                Err(e) => off + 9 > src@.len() && e == RootError::TruncatedInput,
            },
    {
        if src.len() < 9 || off > src.len() - 9 {
            return Err(RootError::TruncatedInput);
        }
        let h = CompressedObjHeader {
            magic_bytes: [src[off], src[off + 1]],
            header: [
                src[off + 2],
                src[off + 3],
                src[off + 4],
                src[off + 5],
                src[off + 6],
                src[off + 7],
                src[off + 8],
            ],
        };
        proof {
            assert(h.magic_bytes@ =~= src@.subrange(off as int, off + 2));
            assert(h.header@ =~= src@.subrange(off + 2, off + 9));
        }
        Ok((h, 9))
    }
}

/// A named object's header: versions, identifier, flag bits, then its
/// name and title strings.
pub struct ObjName {
    pub version: u16,
    pub version2: u16,
    pub id: u32,
    pub bits: u32,
    pub name: String,
    pub title: String,
}

/// Whether a whole named-object header lies at `off`.
pub open spec fn spec_objname_ok(src: Seq<u8>, off: int) -> bool {
    &&& 0 <= off
    &&& off + 12 <= src.len()
    &&& spec_str_ok(src, off + 12)
    &&& spec_str_ok(src, off + 12 + spec_str_total(src, off + 12))
}

/// The size in bytes of the named-object header at `off`.
pub open spec fn spec_objname_size(src: Seq<u8>, off: int) -> int {
    12 + spec_str_total(src, off + 12) + spec_str_total(
        src,
        off + 12 + spec_str_total(src, off + 12),
    )
}

impl ObjName {
    /// Reads the named-object header at `off`, returning it and the bytes
    /// consumed.
    pub fn read(src: &[u8], off: usize) -> (r: Result<(ObjName, usize), RootError>)
        ensures
            match r {
                Ok((h, n)) => {
                    &&& spec_objname_ok(src@, off as int)
                    &&& n == spec_objname_size(src@, off as int)
                    &&& off + n <= src@.len()
                    &&& h.version == spec_be(src@, off as int, 2)
                    &&& h.version2 == spec_be(src@, off + 2, 2)
                    &&& h.id == spec_be(src@, off + 4, 4)
                    &&& h.bits == spec_be(src@, off + 8, 4)
                    &&& h.name@ == spec_str_chars(src@, off + 12)
                    &&& h.title@ == spec_str_chars(
                        src@,
                        off + 12 + spec_str_total(src@, off + 12),
                    )
                },
                Err(e) => {
                    &&& !spec_objname_ok(src@, off as int)
                    &&& (e == RootError::TruncatedInput || e == RootError::UnsupportedStructure)
                },
            },
    {
        if src.len() < 12 || off > src.len() - 12 {
            return Err(RootError::TruncatedInput);
        }
        let (name, t1) = read_string(src, off + 12)?;
        let (title, t2) = read_string(src, off + 12 + t1)?;
        let h = ObjName {
            version: read_u16(src, off),
            version2: read_u16(src, off + 2),
            id: read_u32(src, off + 4),
            bits: read_u32(src, off + 8),
            name,
            title,
        };
        Ok((h, 12 + t1 + t2))
    }
}

/// An object header: a version field followed by the named-object header.
pub struct ObjHeader {
    pub version: u16,
    pub name: ObjName,
}

impl ObjHeader {
    /// Reads the object header at `off`, returning it and the bytes
    /// consumed.
    pub fn read(src: &[u8], off: usize) -> (r: Result<(ObjHeader, usize), RootError>)
        ensures
            match r {
                Ok((h, n)) => {
                    &&& off + 2 <= src@.len()
                    &&& spec_objname_ok(src@, off + 2)
                    &&& n == 2 + spec_objname_size(src@, off + 2)
                    &&& h.version == spec_be(src@, off as int, 2)
                },
                Err(e) => {
                    &&& !(off + 2 <= src@.len() && spec_objname_ok(src@, off + 2))
                    &&& (e == RootError::TruncatedInput || e == RootError::UnsupportedStructure)
                },
            },
    {
        if src.len() < 2 || off > src.len() - 2 {
            return Err(RootError::TruncatedInput);
        }
        let version = read_u16(src, off);
        let (name, n) = ObjName::read(src, off + 2)?;
        Ok((ObjHeader { version, name }, 2 + n))
    }
}

/// The table (tree) object header: the named-object header followed by the
/// entry and byte counters.  Callers position `off` after any preceding
/// object-header encoding, whose layout belongs to the file's embedded
/// type descriptions.
pub struct TreeObj {
    pub version: u16,
    pub name: ObjName,
    pub entries: i64,
    pub totbytes: i64,
    pub zipbytes: i64,
    pub savedbytes: i64,
}

impl TreeObj {
    /// Reads the tree object header at `off`, returning it and the bytes
    /// consumed.
    pub fn read(src: &[u8], off: usize) -> (r: Result<(TreeObj, usize), RootError>)
        ensures
            match r {
                Ok((t, n)) => {
                    &&& off + 2 <= src@.len()
                    &&& spec_objname_ok(src@, off + 2)
                    &&& n == 2 + spec_objname_size(src@, off + 2) + 32
                    &&& off + n <= src@.len()
                    &&& t.version == spec_be(src@, off as int, 2)
                    &&& t.entries == spec_be(src@, off + 2 + spec_objname_size(src@, off + 2), 8)
                        as u64 as i64
                    &&& t.totbytes == spec_be(
                        src@,
                        off + 2 + spec_objname_size(src@, off + 2) + 8,
                        8,
                    ) as u64 as i64
                    &&& t.zipbytes == spec_be(
                        src@,
                        off + 2 + spec_objname_size(src@, off + 2) + 16,
                        8,
                    ) as u64 as i64
                    &&& t.savedbytes == spec_be(
                        src@,
                        off + 2 + spec_objname_size(src@, off + 2) + 24,
                        8,
                    ) as u64 as i64
                },
                Err(e) => {
                    &&& !(off + 2 <= src@.len() && spec_objname_ok(src@, off + 2) && off + 2
                        + spec_objname_size(src@, off + 2) + 32 <= src@.len())
                    &&& (e == RootError::TruncatedInput || e == RootError::UnsupportedStructure)
                },
            },
    {
        if src.len() < 2 || off > src.len() - 2 {
            return Err(RootError::TruncatedInput);
        }
        let version = read_u16(src, off);
        let (name, n) = ObjName::read(src, off + 2)?;
        let counters = off + 2 + n;
        if src.len() - counters < 32 {
            return Err(RootError::TruncatedInput);
        }
        let t = TreeObj {
            version,
            name,
            entries: crate::reader::read_u64(src, counters) as i64,
            totbytes: crate::reader::read_u64(src, counters + 8) as i64,
            zipbytes: crate::reader::read_u64(src, counters + 16) as i64,
            savedbytes: crate::reader::read_u64(src, counters + 24) as i64,
        };
        Ok((t, 2 + n + 32))
    }
}

} // verus!

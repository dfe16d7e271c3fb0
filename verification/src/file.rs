//! File-level structures: header, directory, key records.
//!
//! Pointer-valued ("seek") fields are 4 bytes in ordinary files and 8 bytes
//! in large ones: the file header widens its pointers when its version field
//! exceeds 1 000 000, and directories and key records widen theirs when
//! their own version field exceeds 1 000.  Every pointer-bearing structure
//! branches on this flag.
use vstd::prelude::*;

use crate::decompress::spec_decompress;
use crate::decompress::decompress;
use crate::errors::RootError;
use crate::file_item::FileItem;
use crate::reader::read_be;
use crate::reader::read_be_wide;
use crate::reader::read_string;
use crate::reader::read_u16;
use crate::reader::read_u32;
use crate::reader::read_u8;
use crate::reader::spec_be;
use crate::reader::spec_str_ok;
use crate::reader::spec_str_chars;
use crate::reader::spec_str_total;
use crate::source::Source;

verus! {

/// The parsed file header.
#[derive(Debug)]
pub struct FileHeader {
    pub version: u32,
    pub begin: u32,
    pub end: u64,
    pub seek_free: u64,
    pub nbytes_free: u32,
    pub n_entries_free: u32,
    pub n_bytes_name: u32,
    pub pointer_size: u8,
    pub compression: u32,
    pub seek_info: u64,
    pub nbytes_info: u32,
    pub uuid: u128,
    pub seek_dir: u64,
}

/// Whether the header's version field marks a large file (8-byte pointers).
pub open spec fn spec_fh_is64(src: Seq<u8>) -> bool {
    spec_be(src, 4, 4) > 1000000
}

/// The file header's pointer width in bytes.
pub open spec fn spec_fh_psize(src: Seq<u8>) -> int {
    if spec_fh_is64(src) {
        8
    } else {
        4
    }
}

/// The total size of the file header in bytes.
pub open spec fn spec_file_header_size(src: Seq<u8>) -> int {
    51 + 3 * spec_fh_psize(src)
}

/// Whether the file starts with the `root` magic and holds a whole header.
pub open spec fn spec_file_header_ok(src: Seq<u8>) -> bool {
    &&& src.len() >= 8
    &&& src[0] == 0x72 && src[1] == 0x6f && src[2] == 0x6f && src[3] == 0x74
    &&& src.len() >= spec_file_header_size(src)
}

/// The file header the bytes of `src` describe.
pub open spec fn spec_file_header(src: Seq<u8>) -> FileHeader {
    let p = spec_fh_psize(src);
    let begin = spec_be(src, 8, 4) as u32;
    let n_bytes_name = spec_be(src, 20 + 2 * p, 4) as u32;
    FileHeader {
        version: spec_be(src, 4, 4) as u32,
        begin,
        end: spec_be(src, 12, p) as u64,
        seek_free: spec_be(src, 12 + p, p) as u64,
        nbytes_free: spec_be(src, 12 + 2 * p, 4) as u32,
        n_entries_free: spec_be(src, 16 + 2 * p, 4) as u32,
        n_bytes_name,
        pointer_size: spec_be(src, 24 + 2 * p, 1) as u8,
        compression: spec_be(src, 25 + 2 * p, 4) as u32,
        seek_info: spec_be(src, 29 + 2 * p, p) as u64,
        nbytes_info: spec_be(src, 29 + 3 * p, 4) as u32,
        uuid: spec_be(src, 35 + 3 * p, 16) as u128,
        seek_dir: (begin + n_bytes_name) as u64,
    }
}

/// Parses the file header at the start of `src`, returning it and its size.
/// Fails with `BadMagic` when the 4-byte identifier is absent and with
/// `TruncatedInput` when fewer bytes are present than the header needs.
pub fn file_header(src: &[u8]) -> (r: Result<(FileHeader, usize), RootError>)
    ensures
        match r {
            Ok((h, n)) => {
                &&& spec_file_header_ok(src@)
                &&& h == spec_file_header(src@)
                &&& n == spec_file_header_size(src@)
            },
            Err(e) => {
                &&& !spec_file_header_ok(src@)
                &&& e == (if src@.len() >= 8 && !(src@[0] == 0x72 && src@[1] == 0x6f && src@[2]
                    == 0x6f && src@[3] == 0x74) {
                    RootError::BadMagic
                } else {
                    RootError::TruncatedInput
                })
            },
        },
{
    if src.len() < 8 {
        return Err(RootError::TruncatedInput);
    }
    if !(src[0] == 0x72 && src[1] == 0x6f && src[2] == 0x6f && src[3] == 0x74) {
        return Err(RootError::BadMagic);
    }
    let version = read_u32(src, 4);
    let p: usize = if version > 1000000 {
        8
    } else {
        4
    };
    if src.len() < 51 + 3 * p {
        return Err(RootError::TruncatedInput);
    }
    let begin = read_u32(src, 8);
    let n_bytes_name = read_u32(src, 20 + 2 * p);
    let h = FileHeader {
        version,
        begin,
        end: read_be(src, 12, p),
        seek_free: read_be(src, 12 + p, p),
        nbytes_free: read_u32(src, 12 + 2 * p),
        n_entries_free: read_u32(src, 16 + 2 * p),
        n_bytes_name,
        pointer_size: read_u8(src, 24 + 2 * p),
        compression: read_u32(src, 25 + 2 * p),
        seek_info: read_be(src, 29 + 2 * p, p),
        nbytes_info: read_u32(src, 29 + 3 * p),
        uuid: read_be_wide(src, 35 + 3 * p, 16),
        seek_dir: begin as u64 + n_bytes_name as u64,
    };
    Ok((h, 51 + 3 * p))
}

/// A directory record: the table of contents of the file.
#[derive(Debug)]
pub struct Directory {
    pub version: u16,
    pub c_time: u32,
    pub m_time: u32,
    pub n_bytes_keys: u32,
    pub n_bytes_name: u32,
    pub seek_dir: u64,
    pub seek_parent: u64,
    pub seek_keys: u64,
}

/// The directory's pointer width: 8 bytes when its version exceeds 1000.
pub open spec fn spec_dir_psize(src: Seq<u8>, off: int) -> int {
    if spec_be(src, off, 2) > 1000 {
        8
    } else {
        4
    }
}

/// The size in bytes of the directory record at `off`.
pub open spec fn spec_dir_size(src: Seq<u8>, off: int) -> int {
    18 + 3 * spec_dir_psize(src, off)
}

/// Whether a whole directory record lies at `off`.
pub open spec fn spec_directory_ok(src: Seq<u8>, off: int) -> bool {
    0 <= off && off + spec_dir_size(src, off) <= src.len()
}

/// The directory record the bytes at `off` describe.
pub open spec fn spec_directory(src: Seq<u8>, off: int) -> Directory {
    let p = spec_dir_psize(src, off);
    Directory {
        version: spec_be(src, off, 2) as u16,
        c_time: spec_be(src, off + 2, 4) as u32,
        m_time: spec_be(src, off + 6, 4) as u32,
        n_bytes_keys: spec_be(src, off + 10, 4) as u32,
        n_bytes_name: spec_be(src, off + 14, 4) as u32,
        seek_dir: spec_be(src, off + 18, p) as u64,
        seek_parent: spec_be(src, off + 18 + p, p) as u64,
        seek_keys: spec_be(src, off + 18 + 2 * p, p) as u64,
    }
}

/// Parses the directory record at `off`, returning it and its size.
pub fn directory(src: &[u8], off: usize) -> (r: Result<(Directory, usize), RootError>)
    ensures
        match r {
            Ok((d, n)) => {
                &&& spec_directory_ok(src@, off as int)
                &&& d == spec_directory(src@, off as int)
                &&& n == spec_dir_size(src@, off as int)
            },
            Err(e) => !spec_directory_ok(src@, off as int) && e == RootError::TruncatedInput,
        },
{
    if src.len() < 2 || off > src.len() - 2 {
        return Err(RootError::TruncatedInput);
    }
    let version = read_u16(src, off);
    let p: usize = if version > 1000 {
        8
    } else {
        4
    };
    if src.len() - off < 18 + 3 * p {
        return Err(RootError::TruncatedInput);
    }
    let d = Directory {
        version,
        c_time: read_u32(src, off + 2),
        m_time: read_u32(src, off + 6),
        n_bytes_keys: read_u32(src, off + 10),
        n_bytes_name: read_u32(src, off + 14),
        seek_dir: read_be(src, off + 18, p),
        seek_parent: read_be(src, off + 18 + p, p),
        seek_keys: read_be(src, off + 18 + 2 * p, p),
    };
    Ok((d, 18 + 3 * p))
}

/// A key (record) header: every data record in the file is preceded by one.
#[derive(Debug)]
pub struct TKeyHeader {
    pub total_size: u32,
    pub version: u16,
    pub uncomp_len: u32,
    pub datime: u32,
    pub key_len: u16,
    pub cycle: u16,
    pub seek_key: u64,
    pub seek_pdir: u64,
    pub class_name: String,
    pub obj_name: String,
    pub title: String,
}

/// The key header's pointer width: 8 bytes when its version exceeds 1000.
pub open spec fn spec_key_psize(src: Seq<u8>, off: int) -> int {
    if spec_be(src, off + 4, 2) > 1000 {
        8
    } else {
        4
    }
}

/// The size of the fixed (pre-string) part of a key header.
pub open spec fn spec_key_fixed(src: Seq<u8>, off: int) -> int {
    18 + 2 * spec_key_psize(src, off)
}

/// The offsets of the three length-prefixed strings of a key header.
pub open spec fn spec_key_s1(src: Seq<u8>, off: int) -> int {
    off + spec_key_fixed(src, off)
}

pub open spec fn spec_key_s2(src: Seq<u8>, off: int) -> int {
    spec_key_s1(src, off) + spec_str_total(src, spec_key_s1(src, off))
}

pub open spec fn spec_key_s3(src: Seq<u8>, off: int) -> int {
    spec_key_s2(src, off) + spec_str_total(src, spec_key_s2(src, off))
}

/// Whether a whole key header lies at `off` (strings decoded as UTF-8).
pub open spec fn spec_key_ok(src: Seq<u8>, off: int) -> bool {
    &&& 0 <= off
    &&& off + spec_key_fixed(src, off) <= src.len()
    &&& spec_str_ok(src, spec_key_s1(src, off))
    &&& spec_str_ok(src, spec_key_s2(src, off))
    &&& spec_str_ok(src, spec_key_s3(src, off))
}

/// The total size in bytes of the key header at `off`, strings included.
pub open spec fn spec_key_size(src: Seq<u8>, off: int) -> int {
    spec_key_s3(src, off) + spec_str_total(src, spec_key_s3(src, off)) - off
}

/// Whether `h` holds exactly the fields of the key header at `off`.
pub open spec fn spec_key_matches(src: Seq<u8>, off: int, h: TKeyHeader) -> bool {
    let p = spec_key_psize(src, off);
    &&& h.total_size == spec_be(src, off, 4)
    &&& h.version == spec_be(src, off + 4, 2)
    &&& h.uncomp_len == spec_be(src, off + 6, 4)
    &&& h.datime == spec_be(src, off + 10, 4)
    &&& h.key_len == spec_be(src, off + 14, 2)
    &&& h.cycle == spec_be(src, off + 16, 2)
    &&& h.seek_key == spec_be(src, off + 18, p)
    &&& h.seek_pdir == spec_be(src, off + 18 + p, p)
    &&& h.class_name@ == spec_str_chars(src, spec_key_s1(src, off))
    &&& h.obj_name@ == spec_str_chars(src, spec_key_s2(src, off))
    &&& h.title@ == spec_str_chars(src, spec_key_s3(src, off))
}

/// Parses the key header at `off`, returning it and its size.
pub fn tkey_header(src: &[u8], off: usize) -> (r: Result<(TKeyHeader, usize), RootError>)
    ensures
        match r {
            Ok((h, n)) => {
                &&& spec_key_ok(src@, off as int)
                &&& n == spec_key_size(src@, off as int)
                &&& off + n <= src@.len()
                &&& spec_key_matches(src@, off as int, h)
            },
            Err(e) => {
                &&& !spec_key_ok(src@, off as int)
                &&& (e == RootError::TruncatedInput || e == RootError::UnsupportedStructure)
            },
        },
{
    if src.len() < 6 || off > src.len() - 6 {
        return Err(RootError::TruncatedInput);
    }
    let version = read_u16(src, off + 4);
    let p: usize = if version > 1000 {
        8
    } else {
        4
    };
    if src.len() - off < 18 + 2 * p {
        return Err(RootError::TruncatedInput);
    }
    let s1 = off + 18 + 2 * p;
    let (class_name, t1) = read_string(src, s1)?;
    let s2 = s1 + t1;
    let (obj_name, t2) = read_string(src, s2)?;
    let s3 = s2 + t2;
    let (title, t3) = read_string(src, s3)?;
    let h = TKeyHeader {
        total_size: read_u32(src, off),
        version,
        uncomp_len: read_u32(src, off + 6),
        datime: read_u32(src, off + 10),
        key_len: read_u16(src, off + 14),
        cycle: read_u16(src, off + 16),
        seek_key: read_be(src, off + 18, p),
        seek_pdir: read_be(src, off + 18 + p, p),
        class_name,
        obj_name,
        title,
    };
    Ok((h, s3 + t3 - off))
}

/// A key record together with its (decompressed) object bytes.
pub struct TKey {
    pub hdr: TKeyHeader,
    pub obj: Vec<u8>,
}

/// The object bytes of the record whose key header lies at `off`: the
/// `total_size - key_len` bytes after the header, inflated when the header
/// declares a longer uncompressed length, and then required to match it.
pub open spec fn spec_tkey_obj(src: Seq<u8>, off: int) -> Option<Seq<u8>> {
    if !spec_key_ok(src, off) {
        None
    } else {
        let total = spec_be(src, off, 4) as int;
        let key_len = spec_be(src, off + 14, 2) as int;
        let uncomp = spec_be(src, off + 6, 4) as int;
        let end = off + spec_key_size(src, off);
        if total < key_len {
            None
        } else if end + (total - key_len) > src.len() {
            None
        } else {
            let raw = src.subrange(end, end + (total - key_len));
            if uncomp > total - key_len {
                match spec_decompress(raw) {
                    Some(d) => if d.len() == uncomp {
                        Some(d)
                    } else {
                        None
                    },
                    None => None,
                }
            } else {
                Some(raw)
            }
        }
    }
}

/// Parses the record at `off`: its key header and its object bytes,
/// decompressing the payload when the header declares it compressed.
pub fn tkey(src: &[u8], off: usize) -> (r: Result<TKey, RootError>)
    ensures
        match r {
            Ok(k) => {
                &&& spec_tkey_obj(src@, off as int) == Some(k.obj@)
                &&& spec_key_ok(src@, off as int)
                &&& spec_key_matches(src@, off as int, k.hdr)
            },
            Err(e) => spec_tkey_obj(src@, off as int) is None,
        },
{
    let _srclen = src.len();
    let (hdr, hsize) = tkey_header(src, off)?;
    let end = off + hsize;
    if hdr.total_size < hdr.key_len as u32 {
        return Err(RootError::UnsupportedStructure);
    }
    let dlen = (hdr.total_size - hdr.key_len as u32) as usize;
    if dlen > src.len() - end {
        return Err(RootError::TruncatedInput);
    }
    let raw = vstd::slice::slice_to_vec(&src[end..end + dlen]);
    if hdr.uncomp_len as usize > dlen {
        let d = decompress(raw.as_slice())?;
        if d.len() != hdr.uncomp_len as usize {
            return Err(RootError::DecompressError);
        }
        Ok(TKey { hdr, obj: d })
    } else {
        Ok(TKey { hdr, obj: raw })
    }
}

/// The byte offset of the `k`-th key header inside a key-list object
/// (headers start after the 4-byte count and lie back to back).
pub open spec fn spec_key_off(src: Seq<u8>, k: int) -> int
    decreases k,
{
    if k <= 0 {
        4
    } else {
        spec_key_off(src, k - 1) + spec_key_size(src, spec_key_off(src, k - 1))
    }
}

/// Whether the first `k` key headers of a key-list object all parse.
pub open spec fn spec_key_list_ok(src: Seq<u8>, k: int) -> bool
    decreases k,
{
    if k <= 0 {
        true
    } else {
        spec_key_list_ok(src, k - 1) && spec_key_ok(src, spec_key_off(src, k - 1))
            && spec_key_off(src, k - 1) + spec_key_size(src, spec_key_off(src, k - 1)) <= src.len()
    }
}

/// A failing step poisons every longer prefix of the key list.
proof fn lemma_key_list_ok_prefix(src: Seq<u8>, i: int, k: int)
    requires
        0 <= i < k,
        !(spec_key_ok(src, spec_key_off(src, i)) && spec_key_off(src, i) + spec_key_size(
            src,
            spec_key_off(src, i),
        ) <= src.len()),
    ensures
        !spec_key_list_ok(src, k),
    decreases k,
{
    if i < k - 1 {
        lemma_key_list_ok_prefix(src, i, k - 1);
    }
}

/// Whether a whole key-list object (count, then that many headers) parses.
pub open spec fn spec_key_headers_ok(obj: Seq<u8>) -> bool {
    obj.len() >= 4 && spec_key_list_ok(obj, spec_be(obj, 0, 4) as int)
}

/// Parses a key-list object: a 4-byte count followed by that many key
/// headers lying back to back.
pub fn tkey_headers(src: &[u8]) -> (r: Result<Vec<TKeyHeader>, RootError>)
    ensures
        match r {
            Ok(v) => {
                &&& spec_key_headers_ok(src@)
                &&& v@.len() == spec_be(src@, 0, 4)
                &&& forall|i: int|
                    0 <= i < v@.len() ==> spec_key_matches(src@, spec_key_off(src@, i), v@[i])
            },
            Err(e) => !spec_key_headers_ok(src@),
        },
{
    if src.len() < 4 {
        return Err(RootError::TruncatedInput);
    }
    let count = read_u32(src, 0);
    let srclen = src.len();
    let mut items: Vec<TKeyHeader> = Vec::new();
    let mut off: usize = 4;
    let mut i: u32 = 0;
    while i < count
        invariant
            i <= count,
            srclen == src@.len(),
            src@.len() >= 4,
            count == spec_be(src@, 0, 4),
            items@.len() == i,
            off == spec_key_off(src@, i as int),
            off <= src@.len(),
            spec_key_list_ok(src@, i as int),
            forall|j: int|
                0 <= j < i ==> spec_key_matches(src@, spec_key_off(src@, j), items@[j]),
        decreases count - i,
    {
        let parsed = tkey_header(src, off);
        match parsed {
            Ok((h, n)) => {
                proof {
                    assert(spec_key_list_ok(src@, i + 1));
                }
                items.push(h);
                off = off + n;
                i = i + 1;
            },
            Err(e) => {
                proof {
                    lemma_key_list_ok_prefix(src@, i as int, count as int);
                }
                return Err(e);
            },
        }
    }
    Ok(items)
}

/// The object bytes behind the file's streamer-information record, with the
/// offset callers add when resolving references inside it.
pub struct Context {
    pub offset: u64,
    pub s: Vec<u8>,
}

/// The sequence of item key headers of a whole file image: header, then
/// directory, then the decompressed key-list record.
pub open spec fn spec_file_items_ok(data: Seq<u8>) -> bool {
    &&& spec_file_header_ok(data)
    &&& spec_directory_ok(data, spec_file_header(data).seek_dir as int)
    &&& spec_tkey_obj(
        data,
        spec_directory(data, spec_file_header(data).seek_dir as int).seek_keys as int,
    ) matches Some(obj) && spec_key_headers_ok(obj)
}

/// The decompressed key-list object of a file image.
pub open spec fn spec_file_keylist(data: Seq<u8>) -> Seq<u8> {
    spec_tkey_obj(
        data,
        spec_directory(data, spec_file_header(data).seek_dir as int).seek_keys as int,
    )->0
}

/// The most basic information of an open file: its header and the items
/// (records) its directory lists.
pub struct RootFile {
    source: Source,
    hdr: FileHeader,
    items: Vec<FileItem>,
}

impl RootFile {
    /// The raw bytes of the file image.
    pub closed spec fn spec_data(self) -> Seq<u8> {
        self.source@
    }

    /// The parsed file header.
    pub closed spec fn spec_hdr(self) -> FileHeader {
        self.hdr
    }

    /// The parsed items.
    pub closed spec fn spec_items(self) -> Seq<FileItem> {
        self.items@
    }

    /// Opens a file image: parses the header, the directory it points at,
    /// and the key list enumerating the file's items.
    pub fn new(source: Source) -> (r: Result<RootFile, RootError>)
        ensures
            match r {
                Ok(rf) => {
                    &&& spec_file_items_ok(source@)
                    &&& rf.spec_data() == source@
                    &&& rf.spec_hdr() == spec_file_header(source@)
                    &&& rf.spec_items().len() == spec_be(spec_file_keylist(source@), 0, 4)
                    &&& forall|i: int|
                        0 <= i < rf.spec_items().len() ==> spec_key_matches(
                            spec_file_keylist(source@),
                            spec_key_off(spec_file_keylist(source@), i),
                            rf.spec_items()[i].spec_hdr(),
                        )
                },
                Err(e) => !spec_file_items_ok(source@),
            },
    {
        let data = source.bytes();
        let _datalen = data.len();
        let (hdr, _hsize) = file_header(data)?;
        if hdr.seek_dir > usize::MAX as u64 {
            return Err(RootError::TruncatedInput);
        }
        let (dir, _dsize) = directory(data, hdr.seek_dir as usize)?;
        if dir.seek_keys > usize::MAX as u64 {
            return Err(RootError::TruncatedInput);
        }
        let keys_record = tkey(data, dir.seek_keys as usize)?;
        let headers = tkey_headers(keys_record.obj.as_slice())?;
        let mut items: Vec<FileItem> = Vec::new();
        let mut i: usize = 0;
        while i < headers.len()
            invariant
                i <= headers@.len(),
                items@.len() == i,
                forall|j: int| 0 <= j < i ==> items@[j].spec_hdr() == headers@[j],
            decreases headers@.len() - i,
        {
            let h = &headers[i];
            items.push(FileItem::new(clone_tkey_header(h)));
            i += 1;
        }
        Ok(RootFile { source, hdr, items })
    }

    /// The items contained in this file.
    pub fn items(&self) -> (r: &Vec<FileItem>)
        ensures
            r@ == self.spec_items(),
    {
        &self.items
    }

    /// The parsed file header.
    pub fn header(&self) -> (r: &FileHeader)
        ensures
            *r == self.spec_hdr(),
    {
        &self.hdr
    }

    /// Resolves the single supported table item, failing with
    /// `UnsupportedStructure` exactly when the file does not hold exactly
    /// one item.
    pub fn resolve_table(&self) -> (r: Result<&FileItem, RootError>)
        ensures
            match r {
                Ok(item) => self.spec_items().len() == 1 && *item == self.spec_items()[0],
                Err(e) => self.spec_items().len() != 1 && e == RootError::UnsupportedStructure,
            },
    {
        if self.items.len() == 1 {
            Ok(&self.items[0])
        } else {
            Err(RootError::UnsupportedStructure)
        }
    }

    /// Reads the record the header's streamer-information pointer names and
    /// hands back its object bytes, with the offset callers add when
    /// resolving references inside it.
    pub fn get_streamer_context(&self) -> (r: Result<Context, RootError>)
        ensures
            match r {
                Ok(ctx) => {
                    &&& self.spec_hdr().seek_info <= usize::MAX
                    &&& spec_tkey_obj(self.spec_data(), self.spec_hdr().seek_info as int)
                        matches Some(obj) && ctx.s@ == obj
                    &&& ctx.offset == spec_be(self.spec_data(), self.spec_hdr().seek_info + 14, 2)
                        + 2
                },
                Err(e) => self.spec_hdr().seek_info > usize::MAX || spec_tkey_obj(
                    self.spec_data(),
                    self.spec_hdr().seek_info as int,
                ) is None,
            },
    {
        if self.hdr.seek_info > usize::MAX as u64 {
            return Err(RootError::TruncatedInput);
        }
        let info_key = tkey(self.source.bytes(), self.hdr.seek_info as usize)?;
        Ok(Context { offset: info_key.hdr.key_len as u64 + 2, s: info_key.obj })
    }
}

/// Copies a key header field by field (its strings are cloned).
fn clone_tkey_header(h: &TKeyHeader) -> (r: TKeyHeader)
    ensures
        r == *h,
{
    TKeyHeader {
        total_size: h.total_size,
        version: h.version,
        uncomp_len: h.uncomp_len,
        datime: h.datime,
        key_len: h.key_len,
        cycle: h.cycle,
        seek_key: h.seek_key,
        seek_pdir: h.seek_pdir,
        class_name: h.class_name.clone(),
        obj_name: h.obj_name.clone(),
        title: h.title.clone(),
    }
}

} // verus!

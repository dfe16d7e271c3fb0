//! A single item (record) within a file, as its key header describes it.
use vstd::prelude::*;

use crate::decompress::decompress;
use crate::decompress::spec_decompress;
use crate::errors::RootError;
use crate::file::Context;
use crate::file::TKeyHeader;
use crate::source::Source;
use vstd::string::StringExecFns;

verus! {

/// Describes a single item within a file (for example a tree).
pub struct FileItem {
    tkey_hdr: TKeyHeader,
}

/// The object bytes of an item: the `total_size - key_len` bytes after its
/// key, inflated when the key declares a longer uncompressed length, and
/// then required to match it.
pub open spec fn spec_item_buffer(data: Seq<u8>, hdr: TKeyHeader) -> Option<Seq<u8>> {
    let start = hdr.seek_key + hdr.key_len;
    if hdr.total_size < hdr.key_len {
        None
    } else {
        let len = hdr.total_size - hdr.key_len;
        if start + len > data.len() {
            None
        } else {
            let raw = data.subrange(start as int, start + len);
            if hdr.total_size < hdr.uncomp_len {
                match spec_decompress(raw) {
                    Some(d) => if d.len() == hdr.uncomp_len {
                        Some(d)
                    } else {
                        None
                    },
                    None => None,
                }
            } else {
                Some(raw)
            }
        }
    }
}

impl FileItem {
    /// The key header describing this item.
    pub closed spec fn spec_hdr(self) -> TKeyHeader {
        self.tkey_hdr
    }

    /// New file item from the information in a key header.
    pub fn new(tkey_hdr: TKeyHeader) -> (r: FileItem)
        ensures
            r.spec_hdr() == tkey_hdr,
    {
        FileItem { tkey_hdr }
    }

    /// The key header describing this item.
    pub fn header(&self) -> (r: &TKeyHeader)
        ensures
            *r == self.spec_hdr(),
    {
        &self.tkey_hdr
    }

    /// The item's name and class in human readable form.
    pub fn name(&self) -> (r: String)
        ensures
            r@ == "`"@ + self.spec_hdr().obj_name@ + "` of type `"@ + self.spec_hdr().class_name@
                + "`"@,
    {
        let mut s = String::new();
        s.append("`");
        s.append(self.tkey_hdr.obj_name.as_str());
        s.append("` of type `");
        s.append(self.tkey_hdr.class_name.as_str());
        s.append("`");
        proof {
            assert(s@ =~= "`"@ + self.tkey_hdr.obj_name@ + "` of type `"@
                + self.tkey_hdr.class_name@ + "`"@);
        }
        s
    }

    /// Information about this item in human readable form.
    pub fn verbose_info(&self) -> (r: String)
        ensures
            r@ == "key record: class `"@ + self.spec_hdr().class_name@ + "`, object `"@
                + self.spec_hdr().obj_name@ + "`, title `"@ + self.spec_hdr().title@ + "`"@,
    {
        let mut s = String::new();
        s.append("key record: class `");
        s.append(self.tkey_hdr.class_name.as_str());
        s.append("`, object `");
        s.append(self.tkey_hdr.obj_name.as_str());
        s.append("`, title `");
        s.append(self.tkey_hdr.title.as_str());
        s.append("`");
        proof {
            assert(s@ =~= "key record: class `"@ + self.tkey_hdr.class_name@ + "`, object `"@
                + self.tkey_hdr.obj_name@ + "`, title `"@ + self.tkey_hdr.title@ + "`"@);
        }
        s
    }

    /// Reads this item's object bytes from the source, decompressing them
    /// when the key declares the stored record shorter than the object.
    pub fn get_buffer(&self, source: &Source) -> (r: Result<Vec<u8>, RootError>)
        ensures
            match r {
                Ok(v) => spec_item_buffer(source@, self.spec_hdr()) == Some(v@),
                Err(e) => spec_item_buffer(source@, self.spec_hdr()) is None,
            },
    {
        let hdr = &self.tkey_hdr;
        if hdr.total_size < hdr.key_len as u32 {
            return Err(RootError::UnsupportedStructure);
        }
        let _total = source.size();
        if u64::MAX - hdr.seek_key < hdr.key_len as u64 {
            return Err(RootError::TruncatedInput);
        }
        let start = hdr.seek_key + hdr.key_len as u64;
        let len = (hdr.total_size - hdr.key_len as u32) as u64;
        let comp_buf = source.fetch(start, len)?;
        if hdr.total_size < hdr.uncomp_len {
            let d = decompress(comp_buf.as_slice())?;
            if d.len() as u64 != hdr.uncomp_len as u64 {
                return Err(RootError::DecompressError);
            }
            Ok(d)
        } else {
            Ok(comp_buf)
        }
    }

    /// Reads this item's object bytes and pairs them with the offset callers
    /// add when resolving references inside the object.
    pub fn get_context(&self, source: &Source) -> (r: Result<Context, RootError>)
        ensures
            match r {
                Ok(ctx) => {
                    &&& spec_item_buffer(source@, self.spec_hdr()) == Some(ctx.s@)
                    &&& ctx.offset == self.spec_hdr().key_len + 2
                },
                Err(e) => spec_item_buffer(source@, self.spec_hdr()) is None,
            },
    {
        let buffer = self.get_buffer(source)?;
        Ok(Context { offset: self.tkey_hdr.key_len as u64 + 2, s: buffer })
    }
}

} // verus!

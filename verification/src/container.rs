//! Column chunks ("baskets"): the independently compressed runs of a
//! column's values, each preceded by a key header and basket fields.
use vstd::prelude::*;

use crate::decompress::decompress;
use crate::decompress::spec_decompress;
use crate::errors::RootError;
use crate::file::spec_key_matches;
use crate::file::spec_key_ok;
use crate::file::spec_key_size;
use crate::file::tkey_header;
use crate::file::TKeyHeader;
use crate::reader::read_u16;
use crate::reader::read_u32;
use crate::reader::read_u8;
use crate::reader::spec_be;
use crate::source::Source;

verus! {

/// A column chunk: either its bytes already in memory, or the byte range
/// (start, length) where it lies in the file.
pub enum Container {
    /// Raw record bytes of a basket already in memory.
    InMemory(Vec<u8>),
    /// Start byte and length of a basket in the file.
    OnDisk(u64, u64),
}

/// The number of fixed basket field bytes that follow the key header:
/// version(2) buf_size(4) entry_size(4) n_entry_buf(4) last(4) flag(1).
pub const BASKET_FIXED_SIZE: usize = 19;

/// Whether a whole basket header lies at the start of `frame`.
pub open spec fn spec_basket_ok(frame: Seq<u8>) -> bool {
    spec_key_ok(frame, 0) && spec_key_size(frame, 0) + BASKET_FIXED_SIZE <= frame.len()
}

/// The payload bytes of the basket frame: everything after the basket
/// fields.
pub open spec fn spec_basket_buf(frame: Seq<u8>) -> Seq<u8> {
    frame.subrange(spec_key_size(frame, 0) + BASKET_FIXED_SIZE, frame.len() as int)
}

/// A parsed basket header: the record's key header, the basket fields, and
/// the (still compressed) payload bytes.
pub struct BasketHeader {
    pub header: TKeyHeader,
    pub version: u16,
    pub buf_size: u32,
    pub entry_size: u32,
    pub n_entry_buf: u32,
    pub last: u32,
    pub flag: u8,
    pub buf: Vec<u8>,
}

impl BasketHeader {
    /// The number of payload bytes that carry values: the basket is filled
    /// only up to `last`, counted from the start of the record, so the key
    /// bytes must be taken off.
    pub open spec fn spec_useful_bytes(self) -> int {
        self.last - self.header.key_len
    }

    /// Whether the payload is stored compressed: the declared uncompressed
    /// length exceeds the stored payload.
    pub open spec fn spec_is_compressed(self) -> bool {
        self.header.uncomp_len > self.buf@.len()
    }

    /// The decoded value bytes of this basket: the payload, inflated when
    /// compressed (and then required to match the declared length), cut to
    /// the useful length.  `None` on any mismatch.
    pub open spec fn spec_payload(self) -> Option<Seq<u8>> {
        if self.spec_useful_bytes() < 0 {
            None
        } else if self.spec_is_compressed() {
            match spec_decompress(self.buf@) {
                Some(d) => if d.len() == self.header.uncomp_len && self.spec_useful_bytes()
                    <= d.len() {
                    Some(d.take(self.spec_useful_bytes()))
                } else {
                    None
                },
                None => None,
            }
        } else {
            if self.spec_useful_bytes() <= self.buf@.len() {
                Some(self.buf@.take(self.spec_useful_bytes()))
            } else {
                None
            }
        }
    }

    /// The number of payload bytes that carry values.
    pub fn useful_bytes(&self) -> (r: usize)
        requires
            self.last >= self.header.key_len,
    ensures
            r == self.spec_useful_bytes(),
    {
        (self.last - self.header.key_len as u32) as usize
    }

    /// Whether the payload is stored compressed.
    pub fn is_compressed(&self) -> (r: bool)
        ensures
            r == self.spec_is_compressed(),
    {
        self.header.uncomp_len as usize > self.buf.len()
    }

    /// Appends this basket's decoded value bytes to `output`, returning how
    /// many bytes were appended.  Fails exactly when the basket's payload
    /// does not decode; `output` is then unchanged.
    pub fn decode_into(&self, output: &mut Vec<u8>) -> (r: Result<usize, RootError>)
        ensures
            match r {
                Ok(n) => {
                    &&& self.spec_payload() matches Some(p) && final(output)@ == old(output)@ + p
                        && n == p.len()
                },
                Err(e) => self.spec_payload() is None && final(output)@ == old(output)@ && (e
                    == RootError::DecompressError),
            },
    {
        if self.last < self.header.key_len as u32 {
            return Err(RootError::DecompressError);
        }
        let useful = (self.last - self.header.key_len as u32) as usize;
        if self.header.uncomp_len as usize > self.buf.len() {
            let d = match decompress(self.buf.as_slice()) {
                Ok(d) => d,
                Err(_) => {
                    return Err(RootError::DecompressError);
                },
            };
            if d.len() != self.header.uncomp_len as usize || useful > d.len() {
                return Err(RootError::DecompressError);
            }
            output.extend_from_slice(&d.as_slice()[0..useful]);
            proof {
                assert(d@.subrange(0, useful as int) =~= d@.take(useful as int));
            }
            Ok(useful)
        } else {
            if useful > self.buf.len() {
                return Err(RootError::DecompressError);
            }
            output.extend_from_slice(&self.buf.as_slice()[0..useful]);
            proof {
                assert(self.buf@.subrange(0, useful as int) =~= self.buf@.take(useful as int));
            }
            Ok(useful)
        }
    }
}

/// Parses the basket header at the start of `frame`: the key header, the
/// basket fields, and the payload (the rest of the frame).
pub fn basket_header(frame: &[u8]) -> (r: Result<BasketHeader, RootError>)
    ensures
        match r {
            Ok(b) => {
                &&& spec_basket_ok(frame@)
                &&& spec_key_matches(frame@, 0, b.header)
                &&& b.version == spec_be(frame@, spec_key_size(frame@, 0), 2)
                &&& b.buf_size == spec_be(frame@, spec_key_size(frame@, 0) + 2, 4)
                &&& b.entry_size == spec_be(frame@, spec_key_size(frame@, 0) + 6, 4)
                &&& b.n_entry_buf == spec_be(frame@, spec_key_size(frame@, 0) + 10, 4)
                &&& b.last == spec_be(frame@, spec_key_size(frame@, 0) + 14, 4)
                &&& b.flag == spec_be(frame@, spec_key_size(frame@, 0) + 18, 1)
                &&& b.buf@ == spec_basket_buf(frame@)
            },
            Err(e) => !spec_basket_ok(frame@) && (e == RootError::TruncatedInput || e
                == RootError::UnsupportedStructure),
        },
{
    let srclen = frame.len();
    let (header, ks) = tkey_header(frame, 0)?;
    if srclen - ks < BASKET_FIXED_SIZE {
        return Err(RootError::TruncatedInput);
    }
    let version = read_u16(frame, ks);
    let buf_size = read_u32(frame, ks + 2);
    let entry_size = read_u32(frame, ks + 6);
    let n_entry_buf = read_u32(frame, ks + 10);
    let last = read_u32(frame, ks + 14);
    let flag = read_u8(frame, ks + 18);
    let buf = vstd::slice::slice_to_vec(&frame[ks + BASKET_FIXED_SIZE..srclen]);
    Ok(BasketHeader { header, version, buf_size, entry_size, n_entry_buf, last, flag, buf })
}

/// The decoded value bytes of a whole basket frame, together with its entry
/// count: `None` when the frame does not parse or its payload does not
/// decode.
pub open spec fn spec_basket_values(frame: Seq<u8>) -> Option<(u32, Seq<u8>)> {
    if !spec_basket_ok(frame) {
        None
    } else {
        let key_len = spec_be(frame, 14, 2) as int;
        let uncomp = spec_be(frame, 6, 4) as int;
        let last = spec_be(frame, spec_key_size(frame, 0) + 14, 4) as int;
        let n_entry = spec_be(frame, spec_key_size(frame, 0) + 10, 4) as u32;
        let buf = spec_basket_buf(frame);
        if last < key_len {
            None
        } else if uncomp > buf.len() {
            match spec_decompress(buf) {
                Some(d) => if d.len() == uncomp && last - key_len <= d.len() {
                    Some((n_entry, d.take(last - key_len)))
                } else {
                    None
                },
                None => None,
            }
        } else {
            if last - key_len <= buf.len() {
                Some((n_entry, buf.take(last - key_len)))
            } else {
                None
            }
        }
    }
}

/// Parses a whole basket frame and decodes its payload, returning the
/// number of entries in the basket and its value bytes.
pub fn tbasket2vec(frame: &[u8]) -> (r: Result<(u32, Vec<u8>), RootError>)
    ensures
        match r {
            Ok((n, v)) => spec_basket_values(frame@) matches Some(p) && p.0 == n && p.1 == v@,
            Err(e) => spec_basket_values(frame@) is None && (e == RootError::TruncatedInput || e
                == RootError::UnsupportedStructure || e == RootError::DecompressError),
        },
{
    let b = basket_header(frame)?;
    let mut out: Vec<u8> = Vec::new();
    match b.decode_into(&mut out) {
        Ok(_) => {
            proof {
                assert(out@ =~= b.spec_payload()->0);
            }
            Ok((b.n_entry_buf, out))
        },
        Err(e) => Err(e),
    }
}

impl Container {
    /// The decoded entry count and value bytes this container yields, read
    /// against the given source for on-disk chunks.
    pub open spec fn spec_raw_data(self, data: Seq<u8>) -> Option<(u32, Seq<u8>)> {
        match self {
            Container::InMemory(buf) => spec_basket_values(buf@),
            Container::OnDisk(start, len) => if start + len <= data.len() {
                spec_basket_values(data.subrange(start as int, start + len))
            } else {
                None
            },
        }
    }

    /// Returns the number of entries and the decoded value bytes, reading
    /// the chunk from the source if necessary.
    pub fn raw_data(self, source: &Source) -> (r: Result<(u32, Vec<u8>), RootError>)
        ensures
            match r {
                Ok((n, v)) => self.spec_raw_data(source@) matches Some(p) && p.0 == n && p.1
                    == v@,
                Err(e) => self.spec_raw_data(source@) is None,
            },
    {
        match self {
            Container::InMemory(buf) => tbasket2vec(buf.as_slice()),
            Container::OnDisk(start, len) => {
                let buf = source.fetch(start, len)?;
                tbasket2vec(buf.as_slice())
            },
        }
    }
}

} // verus!

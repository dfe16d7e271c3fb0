//! Primitive big-endian field readers.
//!
//! All multi-byte numeric fields of the format are big-endian.  String fields
//! are length-prefixed: a 1-byte length, or a 4-byte length when the 1-byte
//! field equals 255 (an extended-length string).
use vstd::prelude::*;

use crate::errors::RootError;

verus! {

/// The unsigned integer value of a byte sequence read in big-endian order.
pub open spec fn be_val(s: Seq<u8>) -> nat
    decreases s.len(),
{
    if s.len() == 0 {
        0
    } else {
        (be_val(s.drop_last()) * 256 + s.last()) as nat
    }
}

/// 256 to the power `n`: the number of distinct values of `n` bytes.
pub open spec fn pow256(n: nat) -> nat
    decreases n,
{
    if n == 0 {
        1
    } else {
        256 * pow256((n - 1) as nat)
    }
}

/// A big-endian value of `n` bytes is below `pow256(n)`.
pub proof fn lemma_be_val_bound(s: Seq<u8>)
    ensures
        be_val(s) < pow256(s.len()),
    decreases s.len(),
{
    if s.len() > 0 {
        lemma_be_val_bound(s.drop_last());
    }
}

/// `pow256` grows with its argument.
pub proof fn lemma_pow256_increases(m: nat, n: nat)
    requires
        m <= n,
    ensures
        pow256(m) <= pow256(n),
    decreases n,
{
    if m < n && n > 0 {
        lemma_pow256_increases(m, (n - 1) as nat);
    }
}

/// The big-endian value of the `n` bytes of `src` starting at `off`.
pub open spec fn spec_be(src: Seq<u8>, off: int, n: int) -> nat {
    be_val(src.subrange(off, off + n))
}

/// Reads `n <= 8` big-endian bytes at `off` as an unsigned integer.
pub fn read_be(src: &[u8], off: usize, n: usize) -> (r: u64)
    requires
        n <= 8,
        off + n <= src@.len(),
    ensures
        r == spec_be(src@, off as int, n as int),
{
    let srclen = src.len();
    let mut acc: u64 = 0;
    let mut i: usize = 0;
    proof {
        assert(src@.subrange(off as int, off as int) =~= Seq::<u8>::empty());
    }
    while i < n
        invariant
            i <= n,
            n <= 8,
            off + n <= src@.len(),
            srclen == src@.len(),
            acc == be_val(src@.subrange(off as int, off + i)),
        decreases n - i,
    {
        let b = src[off + i];
        proof {
            let pre = src@.subrange(off as int, off + i);
            let post = src@.subrange(off as int, off + i + 1);
            assert(post.drop_last() =~= pre);
            assert(post.last() == b);
            lemma_be_val_bound(pre);
            lemma_pow256_increases(pre.len(), 7);
            reveal_with_fuel(pow256, 8);
        }
        acc = acc * 256 + (b as u64);
        i += 1;
    }
    acc
}

/// Reads `n <= 16` big-endian bytes at `off` as a wide unsigned integer
/// (used for the 16-byte file UUID).
pub fn read_be_wide(src: &[u8], off: usize, n: usize) -> (r: u128)
    requires
        n <= 16,
        off + n <= src@.len(),
    ensures
        r == spec_be(src@, off as int, n as int),
{
    let srclen = src.len();
    let mut acc: u128 = 0;
    let mut i: usize = 0;
    proof {
        assert(src@.subrange(off as int, off as int) =~= Seq::<u8>::empty());
    }
    while i < n
        invariant
            i <= n,
            n <= 16,
            off + n <= src@.len(),
            srclen == src@.len(),
            acc == be_val(src@.subrange(off as int, off + i)),
        decreases n - i,
    {
        let b = src[off + i];
        proof {
            let pre = src@.subrange(off as int, off + i);
            let post = src@.subrange(off as int, off + i + 1);
            assert(post.drop_last() =~= pre);
            assert(post.last() == b);
            lemma_be_val_bound(pre);
            lemma_pow256_increases(pre.len(), 15);
            reveal_with_fuel(pow256, 16);
        }
        acc = acc * 256 + (b as u128);
        i += 1;
    }
    acc
}

/// The UTF-8 decoding of a byte sequence: `Some` exactly on valid UTF-8.
pub uninterp spec fn utf8_decoded(bytes: Seq<u8>) -> Option<Seq<char>>;

/// Relies on `String::from_utf8` (std): returns `Ok` exactly on valid UTF-8
/// input, and ASCII bytes are valid UTF-8 decoding to the identical
/// character sequence.
#[verifier::external_body]
pub(crate) fn bytes_to_string(v: Vec<u8>) -> (r: Option<String>)
    ensures
        r is Some <==> utf8_decoded(v@) is Some,
        r matches Some(s) ==> utf8_decoded(v@) == Some(s@),
        r is Some <== (forall|i: int| 0 <= i < v@.len() ==> v@[i] < 128),
        r matches Some(s) ==> ((forall|i: int| 0 <= i < v@.len() ==> v@[i] < 128) ==> s@
            == v@.map_values(|b: u8| b as char)),
{
    match String::from_utf8(v) {
        Ok(s) => Some(s),
        Err(_) => None,
    }
}

/// Whether a length-prefixed string field starting at `off` lies fully inside
/// `src` (its content bytes need not be valid UTF-8 for this to hold).
pub open spec fn spec_str_in_bounds(src: Seq<u8>, off: int) -> bool {
    &&& 0 <= off
    &&& off < src.len()
    &&& if src[off] == 255 {
        off + 5 <= src.len() && off + 5 + spec_be(src, off + 1, 4) <= src.len()
    } else {
        off + 1 + src[off] <= src.len()
    }
}

/// The content bytes of the length-prefixed string field at `off`.
pub open spec fn spec_str_bytes(src: Seq<u8>, off: int) -> Seq<u8> {
    if src[off] == 255 {
        src.subrange(off + 5, off + 5 + spec_be(src, off + 1, 4))
    } else {
        src.subrange(off + 1, off + 1 + src[off])
    }
}

/// The total size in bytes of the string field at `off`, prefix included.
pub open spec fn spec_str_total(src: Seq<u8>, off: int) -> int {
    if src[off] == 255 {
        5 + spec_be(src, off + 1, 4) as int
    } else {
        1 + src[off]
    }
}

/// Whether the string field at `off` is in bounds and valid UTF-8.
pub open spec fn spec_str_ok(src: Seq<u8>, off: int) -> bool {
    spec_str_in_bounds(src, off) && utf8_decoded(spec_str_bytes(src, off)) is Some
}

/// The decoded characters of the string field at `off`.
pub open spec fn spec_str_chars(src: Seq<u8>, off: int) -> Seq<char> {
    utf8_decoded(spec_str_bytes(src, off))->0
}

/// Reads the length-prefixed string field at `off`, returning the decoded
/// string and the total number of bytes the field occupies.
pub fn read_string(src: &[u8], off: usize) -> (r: Result<(String, usize), RootError>)
    ensures
        match r {
            Ok((s, total)) => {
                &&& spec_str_ok(src@, off as int)
                &&& s@ == spec_str_chars(src@, off as int)
                &&& total == spec_str_total(src@, off as int)
                &&& off + total <= src@.len()
            },
            Err(e) => {
                &&& !spec_str_ok(src@, off as int)
                &&& e == (if spec_str_in_bounds(src@, off as int) {
                    RootError::UnsupportedStructure
                } else {
                    RootError::TruncatedInput
                })
            },
        },
{
    if off >= src.len() {
        return Err(RootError::TruncatedInput);
    }
    let prefix = src[off];
    let (content_off, len): (usize, usize) = if prefix == 255 {
        if src.len() - off < 5 {
            return Err(RootError::TruncatedInput);
        }
        let l = read_be(src, off + 1, 4);
        proof {
            lemma_be_val_bound(src@.subrange(off + 1, off + 5));
            reveal_with_fuel(pow256, 5);
        }
        (off + 5, l as usize)
    } else {
        (off + 1, prefix as usize)
    };
    if len > src.len() - content_off {
        return Err(RootError::TruncatedInput);
    }
    let bytes = vstd::slice::slice_to_vec(&src[content_off..content_off + len]);
    assert(bytes@ == spec_str_bytes(src@, off as int));
    match bytes_to_string(bytes) {
        Some(s) => Ok((s, content_off - off + len)),
        None => Err(RootError::UnsupportedStructure),
    }
}

/// Reads 1 byte at `off`.
pub fn read_u8(src: &[u8], off: usize) -> (r: u8)
    requires
        off + 1 <= src@.len(),
    ensures
        r == spec_be(src@, off as int, 1),
{
    let v = read_be(src, off, 1);
    proof {
        lemma_be_val_bound(src@.subrange(off as int, off + 1));
        reveal_with_fuel(pow256, 2);
    }
    v as u8
}

/// Reads a 2-byte big-endian integer at `off`.
pub fn read_u16(src: &[u8], off: usize) -> (r: u16)
    requires
        off + 2 <= src@.len(),
    ensures
        r == spec_be(src@, off as int, 2),
{
    let v = read_be(src, off, 2);
    proof {
        lemma_be_val_bound(src@.subrange(off as int, off + 2));
        reveal_with_fuel(pow256, 3);
    }
    v as u16
}

/// Reads a 4-byte big-endian integer at `off`.
pub fn read_u32(src: &[u8], off: usize) -> (r: u32)
    requires
        off + 4 <= src@.len(),
    ensures
        r == spec_be(src@, off as int, 4),
{
    let v = read_be(src, off, 4);
    proof {
        lemma_be_val_bound(src@.subrange(off as int, off + 4));
        reveal_with_fuel(pow256, 5);
    }
    v as u32
}

/// Reads an 8-byte big-endian integer at `off`.
pub fn read_u64(src: &[u8], off: usize) -> (r: u64)
    requires
        off + 8 <= src@.len(),
    ensures
        r == spec_be(src@, off as int, 8),
{
    read_be(src, off, 8)
}

} // verus!

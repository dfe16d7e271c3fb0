//! The byte-range provider the decoder reads from.
//!
//! The library works on an in-memory image of the file; reading bytes from a
//! disk file or any other transport into that image is the caller's concern.
use vstd::prelude::*;

use crate::errors::RootError;

verus! {

/// An in-memory source of file bytes, served by byte range.
pub struct Source {
    data: Vec<u8>,
}

impl View for Source {
    type V = Seq<u8>;

    closed spec fn view(&self) -> Seq<u8> {
        self.data@
    }
}

impl Source {
    /// Wraps a byte image as a source.
    pub fn new(data: Vec<u8>) -> (r: Source)
        ensures
            r@ == data@,
    {
        Source { data }
    }

    /// The total number of bytes available.
    pub fn size(&self) -> (r: usize)
        ensures
            r == self@.len(),
    {
        self.data.len()
    }

    /// The whole byte image.
    pub fn bytes(&self) -> (r: &[u8])
        ensures
            r@ == self@,
    {
        self.data.as_slice()
    }

    /// Fetches the byte range `[start, start + len)`, failing exactly when
    /// the range does not lie fully inside the source.
    pub fn fetch(&self, start: u64, len: u64) -> (r: Result<Vec<u8>, RootError>)
        ensures
            match r {
                Ok(v) => {
                    &&& start + len <= self@.len()
                    &&& v@ == self@.subrange(start as int, start as int + len as int)
                },
                Err(e) => start + len > self@.len() && e == RootError::TruncatedInput,
            },
    {
        let total = self.data.len() as u64;
        if len > total || start > total - len {
            return Err(RootError::TruncatedInput);
        }
        let s = start as usize;
        let l = len as usize;
        Ok(vstd::slice::slice_to_vec(&self.data.as_slice()[s..s + l]))
    }
}

} // verus!

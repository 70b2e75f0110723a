//! Where the bytes come from.

use vstd::prelude::*;
use vstd::slice::{slice_subrange, slice_to_vec};

verus! {

/// `std::io::Error`, declared so that it can be named: the library never
/// looks into a value of it, and passes the error of a source on as it came.
#[verifier::external_type_specification]
#[verifier::external_body]
pub struct ExIoError(std::io::Error);

/// A source of bytes that is read chunk by chunk.
///
/// Nothing is taken for granted of an implementation: a reader of chunks
/// keeps at most `limit` bytes of what comes back. A chunk shorter than
/// `limit`, an empty one included, says that the source has no more bytes,
/// and the reader asks for none after it.
pub trait ByteSource {
    fn read_chunk(&mut self, limit: usize) -> Result<Vec<u8>, std::io::Error>;
}

/// A slice hands out its bytes from the front and shrinks by what it handed
/// out.
impl<'a> ByteSource for &'a [u8] {
    fn read_chunk(&mut self, limit: usize) -> (r: Result<Vec<u8>, std::io::Error>)
        ensures
            r matches Ok(chunk) && chunk@ == old(self)@.take(
                if old(self)@.len() < limit {
                    old(self)@.len() as int
                } else {
                    limit as int
                },
            ) && final(self)@ == old(self)@.skip(chunk@.len() as int),
    {
        let whole: &'a [u8] = *self;
        let n: usize = if whole.len() < limit {
            whole.len()
        } else {
            limit
        };
        let chunk = slice_to_vec(slice_subrange(whole, 0, n));
        *self = slice_subrange(whole, n, whole.len());
        assert(chunk@ =~= whole@.take(n as int));
        assert(self@ =~= whole@.skip(n as int));
        Ok(chunk)
    }
}

} // verus!

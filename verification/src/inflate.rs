//! Decompression of zlib streams.

use vstd::prelude::*;
use vstd::slice::slice_subrange;

verus! {

/// The bytes that the zlib stream `data` decompresses to: a deflate stream
/// inside the zlib envelope of a two-byte header and a trailing Adler-32
/// checksum. `None` where the stream is rejected or ends early.
pub uninterp spec fn zlib_inflated(data: Seq<u8>) -> Option<Seq<u8>>;

/// Decompresses a zlib stream with `libflate::zlib::Decoder`, reading the
/// decoder to its end. Trusted: what comes back is what the stream
/// decompresses to, and whether it is rejected depends on its bytes alone.
#[verifier::external_body]
fn zlib_decode(data: &[u8]) -> (r: Option<Vec<u8>>)
    ensures
        match r {
            Some(buf) => zlib_inflated(data@) == Some(buf@),
            None => zlib_inflated(data@).is_none(),
        },
{
    let mut buf = Vec::new();
    match libflate::zlib::Decoder::new(data) {
        Ok(mut decoder) => match std::io::Read::read_to_end(&mut decoder, &mut buf) {
            Ok(_) => Some(buf),
            Err(_) => None,
        },
        Err(_) => None,
    }
}

/// Decompresses the zlib stream that the bytes from `start` up to `end`
/// hold.
pub fn inflate(bytes: &[u8], start: usize, end: usize) -> (r: Option<Vec<u8>>)
    requires
        start <= end <= bytes.len(),
    ensures
        match r {
            Some(buf) => zlib_inflated(bytes@.subrange(start as int, end as int)) == Some(buf@),
            None => zlib_inflated(bytes@.subrange(start as int, end as int)).is_none(),
        },
{
    zlib_decode(slice_subrange(bytes, start, end))
}

} // verus!

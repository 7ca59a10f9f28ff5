//! Reading and writing of XFBIN containers: the `NUCC` header, the chunk
//! table, and the pages of chunks that follow it.

pub mod bytes;
pub mod dlc;
pub mod nucc;
pub mod nucc_chunk;
pub mod page;
pub mod utils;
pub mod structure;
pub mod xfbin_file;
pub mod text;
pub mod xfbin;

use vstd::prelude::*;

pub use nucc::xfbin::Xfbin;

use nucc::xfbin::{error_of, is_lookup_fault, spec_read_xfbin, spec_write_xfbin, SpecXfbin, ReadFault, XfbinError};

verus! {

/// Reads an XFBIN file from its bytes.
pub fn read_xfbin_buf(buf: Vec<u8>) -> (r: Result<Xfbin, XfbinError>)
    requires
        !(spec_read_xfbin(buf@) matches Err(f) && is_lookup_fault(f)),
    ensures
        match r {
            Ok(x) => spec_read_xfbin(buf@) == Ok::<SpecXfbin, ReadFault>(x@),
            Err(e) => spec_read_xfbin(buf@) matches Err(f) && e == error_of(f),
        },
{
    Xfbin::read(buf.as_slice())
}

/// The bytes of an XFBIN file. Writing into memory cannot fail.
pub fn write_xfbin_buf(xfbin: Xfbin) -> (r: Result<Vec<u8>, XfbinError>)
    ensures
        r matches Ok(bytes) && bytes@ == spec_write_xfbin(xfbin@),
{
    Ok(xfbin.write_be())
}

} // verus!

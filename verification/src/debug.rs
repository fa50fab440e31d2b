//! Guest log messages: the verified half of the `debug_log` host call, which
//! validates the guest's bytes as UTF-8.  Writing the line to the host log,
//! tagged with the plugin's name, is the runtime's job.

use crate::encoding::utf8_to_str;
use crate::imports::ErrorCode;
use vstd::prelude::*;
use vstd::utf8::{decode_utf8, valid_utf8};

verus! {

/// Host call `debug_log`, up to the log write: decode the guest's UTF-8
/// message, refusing anything that is not UTF-8.
pub fn log(message: &[u8]) -> (r: Result<String, ErrorCode>)
    ensures
        (r is Ok) == valid_utf8(message@),
        r matches Ok(s) ==> s@ == decode_utf8(message@),
        r matches Err(e) ==> e == ErrorCode::BadArgument,
{
    match utf8_to_str(message) {
        Some(s) => Ok(s.to_owned()),
        None => Err(ErrorCode::BadArgument),
    }
}

} // verus!

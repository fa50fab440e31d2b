//! Process spawning on a plugin's behalf: the verified half of the `spawn`
//! host call, which turns the guest's byte string into an argv or a refusal.
//! Actually starting the child process is the runtime's job.

use crate::encoding::utf8_to_str;
use crate::imports::ErrorCode;
use vstd::prelude::*;
use vstd::utf8::{decode_utf8, valid_utf8};

verus! {

/// What POSIX-shell word splitting makes of a command line; the result
/// depends on the characters alone.  `None` marks erroneous input, such as an
/// unclosed quotation.
pub uninterp spec fn shell_split(s: Seq<char>) -> Option<Seq<Seq<char>>>;

/// Relies on `shlex::split`: POSIX-shell word splitting of `s`, with `None`
/// exactly on erroneous input.
#[verifier::external_body]
fn shlex_split(s: &str) -> (r: Option<Vec<String>>)
    ensures
        r.deep_view() == shell_split(s@),
{
    shlex::split(s)
}

/// What `spawn` decides for a guest buffer: the argv to start, or the
/// refusal.  A buffer is refused when it is not UTF-8, when shell splitting
/// fails, or when it holds no word for the program name.
pub open spec fn spawn_outcome(data: Seq<u8>) -> Result<Seq<Seq<char>>, ErrorCode> {
    if !valid_utf8(data) {
        Err(ErrorCode::BadArgument)
    } else {
        match shell_split(decode_utf8(data)) {
            None => Err(ErrorCode::BadArgument),
            Some(args) => if args.len() == 0 {
                Err(ErrorCode::BadArgument)
            } else {
                Ok(args)
            },
        }
    }
}

/// Host call `spawn`, up to the process start: decode the guest's UTF-8
/// command line and split it into an argv by POSIX shell rules.  The first
/// word is the program; the runtime starts it and reports an execution error
/// of its own if that fails.
pub fn spawn(command: &[u8]) -> (r: Result<Vec<String>, ErrorCode>)
    ensures
        (r is Ok) == (spawn_outcome(command@) is Ok),
        r matches Ok(v) ==> Ok::<Seq<Seq<char>>, ErrorCode>(v.deep_view()) == spawn_outcome(
            command@,
        ) && v@.len() > 0,
        r matches Err(e) ==> Err::<Seq<Seq<char>>, ErrorCode>(e) == spawn_outcome(command@),
{
    let s = match utf8_to_str(command) {
        Some(s) => s,
        None => {
            return Err(ErrorCode::BadArgument);
        },
    };
    let args = match shlex_split(s) {
        Some(a) => a,
        None => {
            return Err(ErrorCode::BadArgument);
        },
    };
    if args.is_empty() {
        return Err(ErrorCode::BadArgument);
    }
    Ok(args)
}

} // verus!

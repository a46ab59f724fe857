//! Small helpers of the package manager: the checksum of a file, and the
//! errors of a download and of a command.

use vstd::prelude::*;
use vstd::string::StringExecFns;
use sha2::{Digest, Sha256};
use crate::errors::{NbError, NbErrorView};

verus! {

/// The SHA-256 checksum of a sequence of bytes, in lower-case hexadecimal
/// digits.
pub uninterp spec fn sha256_hex(data: Seq<u8>) -> Seq<char>;

/// Calls `Sha256::digest` of `sha2` on the bytes and formats the result with
/// `{:x}`. The contract names the text.
#[verifier::external_body]
fn sha256_digest_hex(data: &[u8]) -> (s: String)
    ensures
        s@ == sha256_hex(data@),
{
    format!("{:x}", Sha256::digest(data))
}

/// The checksum of a file, from its content.
pub fn file2hash(content: &Vec<u8>) -> (hash: String)
    ensures
        hash@ == sha256_hex(content@),
{
    sha256_digest_hex(content.as_slice())
}

/// The error of a download whose answer has the status `code`: one of the
/// client for a code from 400 to 499, one of the server for a code from 500 to
/// 599, each with the text of the status; none for any other code.
pub fn status_error(code: u16, status: &str) -> (r: Option<NbError>)
    ensures
        match r {
            Some(e) => e@ == if code < 500 {
                NbErrorView::ClientError(status@)
            } else {
                NbErrorView::ServerError(status@)
            },
            None => true,
        },
        r is Some <==> 400 <= code < 600,
{
    if 400 <= code && code < 500 {
        Some(NbError::ClientError(String::from_str(status)))
    } else if 500 <= code && code < 600 {
        Some(NbError::ServerError(String::from_str(status)))
    } else {
        None
    }
}

/// The error of a command that could not be started: the program, a colon and
/// the cause.
pub fn start_error(program: &str, cause: &str) -> (e: NbError)
    ensures
        e@ == NbErrorView::CmdStartChild(program@ + ": "@ + cause@),
{
    let mut text = String::from_str(program);
    text.append(": ");
    text.append(cause);
    NbError::CmdStartChild(text)
}

/// The arguments of a command as one text, each with a blank before it.
pub open spec fn spaced(args: Seq<&str>) -> Seq<char>
    decreases args.len(),
{
    if args.len() == 0 {
        Seq::empty()
    } else {
        spaced(args.drop_last()) + " "@ + args.last()@
    }
}

/// The error of a command that failed: the program, a blank, the arguments,
/// each with a blank before it, a colon, and what the command wrote.
pub fn exit_error(program: &str, args: &[&str], written: &str) -> (e: NbError)
    ensures
        e@ == NbErrorView::CmdChildErr(program@ + " "@ + spaced(args@) + ": "@ + written@),
{
    let mut list = String::new();
    let mut i: usize = 0;
    while i < args.len()
        invariant
            i <= args.len(),
            list@ == spaced(args@.take(i as int)),
        decreases args.len() - i,
    {
        proof {
            assert(args@.take(i + 1).drop_last() =~= args@.take(i as int));
        }
        list.append(" ");
        list.append(args[i]);
        i += 1;
    }
    assert(args@.take(args.len() as int) =~= args@);
    let mut text = String::from_str(program);
    text.append(" ");
    text.append(list.as_str());
    text.append(": ");
    text.append(written);
    NbError::CmdChildErr(text)
}

} // verus!

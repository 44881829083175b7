//! The file that a literal names: its path, and its content as a NUL-terminated string.

use crate::bytes::{position, NUL};
use crate::error::{Diagnostic, ErrorKind, Location};
use vstd::prelude::*;
use vstd::utf8::{decode_utf8, valid_utf8};

verus! {

/// Whether `bytes` is a NUL-terminated string: it ends with a NUL and holds no other.
pub open spec fn is_c_string(bytes: Seq<u8>) -> bool {
    &&& bytes.len() >= 1
    &&& bytes.last() == NUL
    &&& !bytes.drop_last().contains(NUL)
}

/// `String::from_utf8` of std, which accepts exactly the byte strings that are valid
/// UTF-8 and gives the text that they encode.
#[verifier::external_body]
fn string_from_utf8(bytes: Vec<u8>) -> (r: Option<String>)
    ensures
        match r {
            Some(text) => valid_utf8(bytes@) && text@ == decode_utf8(bytes@),
            None => !valid_utf8(bytes@),
        },
{
    String::from_utf8(bytes).ok()
}

/// Reads the bytes that a literal denotes as the path of a file. A refusal points at
/// `at`, the place of the literal.
pub fn file_path(bytes: Vec<u8>, at: Location) -> (r: Result<String, Diagnostic>)
    ensures
        match r {
            Ok(path) => valid_utf8(bytes@) && path@ == decode_utf8(bytes@),
            Err(diagnostic) => !valid_utf8(bytes@) && diagnostic == (Diagnostic {
                location: at,
                kind: ErrorKind::InvalidPath,
            }),
        },
{
    match string_from_utf8(bytes) {
        Some(path) => Ok(path),
        None => Err(Diagnostic { location: at, kind: ErrorKind::InvalidPath }),
    }
}

/// Makes a NUL-terminated string of the content of a file, by appending the NUL. A
/// content that holds a NUL already is refused, at `at`, the place of the literal
/// that names the file.
pub fn check_file(content: Vec<u8>, at: Location) -> (r: Result<Vec<u8>, Diagnostic>)
    ensures
        match r {
            Ok(bytes) => !content@.contains(NUL) && bytes@ == content@.push(NUL) && is_c_string(
                bytes@,
            ),
            Err(diagnostic) => content@.contains(NUL) && diagnostic == (Diagnostic {
                location: at,
                kind: ErrorKind::NulByte,
            }),
        },
{
    if position(content.as_slice(), NUL).is_some() {
        return Err(Diagnostic { location: at, kind: ErrorKind::NulByte });
    }
    let mut bytes = content;
    bytes.push(NUL);
    proof {
        assert(bytes@.drop_last() =~= content@);
    }
    Ok(bytes)
}

} // verus!

//! File tools: read, write, list and edit files. Paths may be
//! workspace-relative or absolute; they are not confined to the workspace.

pub mod edit_file;
pub mod list_files;
pub mod read_file;
pub mod write_file;

use vstd::prelude::*;
use std::path::{Path, PathBuf};
use crate::text::{chars_of, string_of, trim_chars, trim_seq};

verus! {

/// `std::path::PathBuf`, carried through as an opaque value.
#[verifier::external_type_specification]
#[verifier::external_body]
pub struct ExPathBuf(PathBuf);

/// `std::path::Path`, carried through as an opaque value.
#[verifier::external_type_specification]
#[verifier::external_body]
pub struct ExPath(Path);

/// An owned copy of `p` (`Path::to_path_buf`); paths are opaque here.
#[verifier::external_body]
pub(crate) fn owned_path(p: &Path) -> PathBuf {
    p.to_path_buf()
}

/// The path argument trimmed, or the error for an empty one.
pub fn path_arg(user_path: &str) -> (r: Result<String, String>)
    ensures
        match r {
            Ok(p) => p@ == trim_seq(user_path@) && p@.len() > 0,
            Err(e) => e@ == "Empty path provided."@ && trim_seq(user_path@).len() == 0,
        },
{
    let t = trim_chars(&chars_of(user_path));
    if t.len() == 0 {
        Err(string_of(&chars_of("Empty path provided.")))
    } else {
        Ok(string_of(&t))
    }
}

} // verus!

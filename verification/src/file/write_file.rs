//! `write_file`: the checks before a write and the report after it.

use vstd::prelude::*;
use std::path::PathBuf;
use crate::text::{
    byte_len, chars_of, dec, lines_of, push_dec, push_str, split_lines, string_of,
};

verus! {

/// Largest content accepted for a write (1 MB).
pub const MAX_FILE_SIZE: usize = 1_048_576;

/// Writes or creates a file; an existing file is replaced only with
/// `overwrite`.
pub struct WriteFileTool {
    pub workspace_root: PathBuf,
}

pub open spec fn no_path_msg() -> Seq<char> {
    "[Error]: No file path provided."@
}

pub open spec fn too_large_msg(size: nat) -> Seq<char> {
    "[Error]: Content size ("@ + dec(size)
        + " bytes) exceeds the maximum allowed size (1048576 bytes / ~1 MB)."@
}

/// The refusal of writing `size` bytes to `path`, in the order the tool
/// checks: the request, then the target.
pub open spec fn write_refusal(path: Seq<char>, size: nat, exists: bool, is_dir: bool, overwrite: bool) -> Option<Seq<char>> {
    if path.len() == 0 {
        Some(no_path_msg())
    } else if size > MAX_FILE_SIZE {
        Some(too_large_msg(size))
    } else if exists && is_dir {
        Some("[Error]: Path is a directory, not a file: "@ + path)
    } else if exists && !overwrite {
        Some("[Error]: File already exists: "@ + path + ". Use overwrite=true to replace it."@)
    } else {
        None
    }
}

/// A write is refused, before anything is written, exactly when the path is
/// empty, the content is over the limit, or the target exists and is a
/// directory or may not be overwritten; every refusal starts with `[Error]`.
pub proof fn write_refusals_are_errors(path: Seq<char>, size: nat, exists: bool, is_dir: bool, overwrite: bool)
    ensures
        write_refusal(path, size, exists, is_dir, overwrite) is Some <==> (path.len() == 0 || size
            > MAX_FILE_SIZE || (exists && (is_dir || !overwrite))),
        write_refusal(path, size, exists, is_dir, overwrite) matches Some(e) ==> e.len() >= 7 && e.take(7)
            == "[Error]"@,
{
    reveal_strlit("[Error]");
    reveal_strlit("[Error]: No file path provided.");
    reveal_strlit("[Error]: Content size (");
    reveal_strlit("[Error]: Path is a directory, not a file: ");
    reveal_strlit("[Error]: File already exists: ");
    match write_refusal(path, size, exists, is_dir, overwrite) {
        Some(e) => {
            if path.len() == 0 {
                assert(e.take(7) =~= "[Error]"@);
            } else if size > MAX_FILE_SIZE {
                assert(e.take(7) =~= "[Error]"@);
            } else if exists && is_dir {
                assert(e.take(7) =~= "[Error]"@);
            } else {
                assert(e.take(7) =~= "[Error]"@);
            }
        },
        None => {},
    }
}

impl WriteFileTool {
    pub fn new(workspace_root: PathBuf) -> (r: Self)
        ensures
            r.workspace_root == workspace_root,
    {
        WriteFileTool { workspace_root }
    }

    pub fn name(&self) -> (s: &'static str)
        ensures
            s@ == "write_file"@,
    {
        "write_file"
    }

    pub fn description(&self) -> (s: &'static str)
        ensures
            s@ == "Write or create a file. Creates parent directories automatically. Will not overwrite existing files unless 'overwrite' is set to true. Content size is limited to 1 MB. The path may be workspace-relative or absolute. Use this to create or update source files, configuration, documentation, or any text file."@,
    {
        "Write or create a file. Creates parent directories automatically. Will not overwrite existing files unless 'overwrite' is set to true. Content size is limited to 1 MB. The path may be workspace-relative or absolute. Use this to create or update source files, configuration, documentation, or any text file."
    }

    /// The refusal of a request before the path is resolved: an empty path,
    /// or content over `MAX_FILE_SIZE` bytes.
    pub fn check_request(&self, path: &str, content: &str) -> (r: Option<String>)
        ensures
            path@.len() == 0 ==> (r matches Some(e) && e@ == no_path_msg()),
            path@.len() > 0 && byte_len(content@) > MAX_FILE_SIZE ==> (r matches Some(e) && e@
                == too_large_msg(byte_len(content@))),
            path@.len() > 0 && byte_len(content@) <= MAX_FILE_SIZE ==> r is None,
    {
        if chars_of(path).len() == 0 {
            return Some(string_of(&chars_of("[Error]: No file path provided.")));
        }
        let size = content.as_bytes().len();
        if size > MAX_FILE_SIZE {
            let mut s = String::new();
            push_str(&mut s, "[Error]: Content size (");
            push_dec(&mut s, size as u64);
            push_str(&mut s, " bytes) exceeds the maximum allowed size (1048576 bytes / ~1 MB).");
            return Some(s);
        }
        None
    }

    /// The refusal for an existing target: a directory, or a file without
    /// `overwrite`.
    pub fn check_target(&self, path: &str, exists: bool, is_dir: bool, overwrite: bool) -> (r:
        Option<String>)
        ensures
            exists && is_dir ==> (r matches Some(e) && e@
                == "[Error]: Path is a directory, not a file: "@ + path@),
            exists && !is_dir && !overwrite ==> (r matches Some(e) && e@
                == "[Error]: File already exists: "@ + path@
                + ". Use overwrite=true to replace it."@),
            !exists ==> r is None,
            exists && !is_dir && overwrite ==> r is None,
    {
        if exists {
            if is_dir {
                let mut s = String::new();
                push_str(&mut s, "[Error]: Path is a directory, not a file: ");
                push_str(&mut s, path);
                return Some(s);
            }
            if !overwrite {
                let mut s = String::new();
                push_str(&mut s, "[Error]: File already exists: ");
                push_str(&mut s, path);
                push_str(&mut s, ". Use overwrite=true to replace it.");
                return Some(s);
            }
        }
        None
    }

    /// The report after `content` was written to `path`: `Updated` with
    /// `overwrite`, else `Created`, with its size in bytes and lines.
    pub fn written_message(&self, path: &str, content: &str, overwrite: bool) -> (s: String)
        ensures
            s@ == (if overwrite {
                "Updated"@
            } else {
                "Created"@
            }) + " file: "@ + path@ + " ("@ + dec(byte_len(content@)) + " bytes, "@ + dec(
                lines_of(content@).len(),
            ) + " lines)"@,
    {
        let mut s = String::new();
        if overwrite {
            push_str(&mut s, "Updated");
        } else {
            push_str(&mut s, "Created");
        }
        push_str(&mut s, " file: ");
        push_str(&mut s, path);
        push_str(&mut s, " (");
        push_dec(&mut s, content.as_bytes().len() as u64);
        push_str(&mut s, " bytes, ");
        push_dec(&mut s, split_lines(&chars_of(content)).len() as u64);
        push_str(&mut s, " lines)");
        s
    }
}

} // verus!

//! The replies of the notes tools (`notes.list_files`, `notes.read_file`,
//! `notes.search_contents`, `notes.append_to_file`, `notes.write_file`).

use vstd::prelude::*;
use std::sync::Arc;
use crate::context_rotation::notes::{NoteMatch, NoteSearchResult, NotesStore};
use crate::text::{chars_of, dec, push_dec, push_str, string_of, string_views, trim_chars, trim_seq};

verus! {

/// `[Error]: ` and the message.
pub open spec fn error_text(e: Seq<char>) -> Seq<char> {
    "[Error]: "@ + e
}

/// The reply for a failure with message `e`.
pub fn error_reply(e: &str) -> (s: String)
    ensures
        s@ == error_text(e@),
{
    let mut s = String::new();
    push_str(&mut s, "[Error]: ");
    push_str(&mut s, e);
    s
}

/// List note files under an optional prefix.
pub struct NotesListFilesTool {
    pub store: Arc<NotesStore>,
}

/// The lines `  file` of `files`.
pub open spec fn file_lines(files: Seq<Seq<char>>) -> Seq<char>
    decreases files.len(),
{
    if files.len() == 0 {
        Seq::empty()
    } else {
        file_lines(files.drop_last()) + "  "@ + files.last() + "\n"@
    }
}

impl NotesListFilesTool {
    pub fn new(store: Arc<NotesStore>) -> (r: Self)
        ensures
            r.store == store,
    {
        NotesListFilesTool { store }
    }

    pub fn name(&self) -> (s: &'static str)
        ensures
            s@ == "notes.list_files"@,
    {
        "notes.list_files"
    }

    pub fn description(&self) -> (s: &'static str)
        ensures
            s@ == "List note files. This is your private scratchpad \u{2014} never show to the user. Use prefix to narrow results."@,
    {
        "List note files. This is your private scratchpad \u{2014} never show to the user. Use prefix to narrow results."
    }

    /// The reply listing `files`.
    pub fn format_files(&self, files: &Vec<String>) -> (s: String)
        ensures
            files@.len() == 0 ==> s@ == "No note files found."@,
            files@.len() > 0 ==> s@ == "Note files ("@ + dec(files@.len() as nat) + "):\n"@ + file_lines(
                string_views(files@),
            ),
    {
        if files.len() == 0 {
            return string_of(&chars_of("No note files found."));
        }
        let mut s = String::new();
        push_str(&mut s, "Note files (");
        push_dec(&mut s, files.len() as u64);
        push_str(&mut s, "):\n");
        let ghost head = s@;
        let mut i: usize = 0;
        while i < files.len()
            invariant
                i <= files@.len(),
                s@ == head + file_lines(string_views(files@).take(i as int)),
            decreases files@.len() - i,
        {
            assert(string_views(files@).take(i + 1).drop_last() =~= string_views(files@).take(i as int));
            push_str(&mut s, "  ");
            push_str(&mut s, files[i].as_str());
            push_str(&mut s, "\n");
            i = i + 1;
            assert(s@ =~= head + file_lines(string_views(files@).take(i as int)));
        }
        assert(string_views(files@).take(i as int) =~= string_views(files@));
        s
    }
}

/// Read a note file with an optional line range.
pub struct NotesReadFileTool {
    pub store: Arc<NotesStore>,
}

impl NotesReadFileTool {
    pub fn new(store: Arc<NotesStore>) -> (r: Self)
        ensures
            r.store == store,
    {
        NotesReadFileTool { store }
    }

    pub fn name(&self) -> (s: &'static str)
        ensures
            s@ == "notes.read_file"@,
    {
        "notes.read_file"
    }

    pub fn description(&self) -> (s: &'static str)
        ensures
            s@ == "Read a note file. This is your private scratchpad \u{2014} never show to the user. Supports line range for large files."@,
    {
        "Read a note file. This is your private scratchpad \u{2014} never show to the user. Supports line range for large files."
    }
}

/// Search across note files.
pub struct NotesSearchContentsTool {
    pub store: Arc<NotesStore>,
}

/// The reply lines of one file's matches.
pub open spec fn match_lines_text(ms: Seq<NoteMatch>) -> Seq<char>
    decreases ms.len(),
{
    if ms.len() == 0 {
        Seq::empty()
    } else {
        match_lines_text(ms.drop_last()) + "  L"@ + dec(ms.last().line_number as nat) + ": "@
            + ms.last().line_content@ + "\n"@
    }
}

/// The reply blocks of the search results.
pub open spec fn result_blocks(rs: Seq<NoteSearchResult>) -> Seq<char>
    decreases rs.len(),
{
    if rs.len() == 0 {
        Seq::empty()
    } else {
        result_blocks(rs.drop_last()) + "\n"@ + rs.last().path@ + ":\n"@ + match_lines_text(
            rs.last().matches@,
        )
    }
}

fn push_match_lines(s: &mut String, ms: &Vec<NoteMatch>)
    ensures
        final(s)@ == old(s)@ + match_lines_text(ms@),
{
    let ghost head = s@;
    let mut i: usize = 0;
    while i < ms.len()
        invariant
            i <= ms@.len(),
            s@ == head + match_lines_text(ms@.take(i as int)),
        decreases ms@.len() - i,
    {
        assert(ms@.take(i + 1).drop_last() =~= ms@.take(i as int));
        push_str(s, "  L");
        push_dec(s, ms[i].line_number as u64);
        push_str(s, ": ");
        push_str(s, ms[i].line_content.as_str());
        push_str(s, "\n");
        i = i + 1;
        assert(s@ =~= head + match_lines_text(ms@.take(i as int)));
    }
    assert(ms@.take(i as int) =~= ms@);
}

impl NotesSearchContentsTool {
    pub fn new(store: Arc<NotesStore>) -> (r: Self)
        ensures
            r.store == store,
    {
        NotesSearchContentsTool { store }
    }

    pub fn name(&self) -> (s: &'static str)
        ensures
            s@ == "notes.search_contents"@,
    {
        "notes.search_contents"
    }

    pub fn description(&self) -> (s: &'static str)
        ensures
            s@ == "Search note file contents. Case-insensitive substring match. Returns matching lines with file paths."@,
    {
        "Search note file contents. Case-insensitive substring match. Returns matching lines with file paths."
    }

    /// The query, trimmed, or the reply refusing a missing or empty one.
    pub fn query_arg(&self, raw: Option<&str>) -> (r: Result<String, String>)
        ensures
            match raw {
                None => r matches Err(e) && e@ == "[Error]: query is required"@,
                Some(q) => if trim_seq(q@).len() == 0 {
                    r matches Err(e) && e@ == "[Error]: query cannot be empty"@
                } else {
                    r matches Ok(t) && t@ == trim_seq(q@)
                },
            },
    {
        match raw {
            None => Err(string_of(&chars_of("[Error]: query is required"))),
            Some(q) => {
                let t = trim_chars(&chars_of(q));
                if t.len() == 0 {
                    Err(string_of(&chars_of("[Error]: query cannot be empty")))
                } else {
                    Ok(string_of(&t))
                }
            },
        }
    }

    /// The reply for the `results` of searching `query`.
    pub fn format_results(&self, query: &str, results: &Vec<NoteSearchResult>) -> (s: String)
        ensures
            results@.len() == 0 ==> s@ == "No matches found for '"@ + query@ + "'"@,
            results@.len() > 0 ==> s@ == "Search results for '"@ + query@ + "':\n"@ + result_blocks(
                results@,
            ),
    {
        let mut s = String::new();
        if results.len() == 0 {
            push_str(&mut s, "No matches found for '");
            push_str(&mut s, query);
            push_str(&mut s, "'");
            return s;
        }
        push_str(&mut s, "Search results for '");
        push_str(&mut s, query);
        push_str(&mut s, "':\n");
        let ghost head = s@;
        let mut i: usize = 0;
        while i < results.len()
            invariant
                i <= results@.len(),
                s@ == head + result_blocks(results@.take(i as int)),
            decreases results@.len() - i,
        {
            assert(results@.take(i + 1).drop_last() =~= results@.take(i as int));
            push_str(&mut s, "\n");
            push_str(&mut s, results[i].path.as_str());
            push_str(&mut s, ":\n");
            push_match_lines(&mut s, &results[i].matches);
            i = i + 1;
            assert(s@ =~= head + result_blocks(results@.take(i as int)));
        }
        assert(results@.take(i as int) =~= results@);
        s
    }
}

/// Append to a note file.
pub struct NotesAppendToFileTool {
    pub store: Arc<NotesStore>,
}

impl NotesAppendToFileTool {
    pub fn new(store: Arc<NotesStore>) -> (r: Self)
        ensures
            r.store == store,
    {
        NotesAppendToFileTool { store }
    }

    pub fn name(&self) -> (s: &'static str)
        ensures
            s@ == "notes.append_to_file"@,
    {
        "notes.append_to_file"
    }

    pub fn description(&self) -> (s: &'static str)
        ensures
            s@ == "Append content to a note file (creates if missing). This is your private scratchpad \u{2014} never show to the user. Max 1MB per file."@,
    {
        "Append content to a note file (creates if missing). This is your private scratchpad \u{2014} never show to the user. Max 1MB per file."
    }

    /// The reply after appending to `path`.
    pub fn appended(&self, path: &str) -> (s: String)
        ensures
            s@ == "Appended to "@ + path@,
    {
        let mut s = String::new();
        push_str(&mut s, "Appended to ");
        push_str(&mut s, path);
        s
    }
}

/// Create or overwrite a note file.
pub struct NotesWriteFileTool {
    pub store: Arc<NotesStore>,
}

impl NotesWriteFileTool {
    pub fn new(store: Arc<NotesStore>) -> (r: Self)
        ensures
            r.store == store,
    {
        NotesWriteFileTool { store }
    }

    pub fn name(&self) -> (s: &'static str)
        ensures
            s@ == "notes.write_file"@,
    {
        "notes.write_file"
    }

    pub fn description(&self) -> (s: &'static str)
        ensures
            s@ == "Create or overwrite a note file. This is your private scratchpad \u{2014} never show to the user. Max 1MB per file. Use append_to_file to add to existing files."@,
    {
        "Create or overwrite a note file. This is your private scratchpad \u{2014} never show to the user. Max 1MB per file. Use append_to_file to add to existing files."
    }

    /// The reply after writing `path`.
    pub fn written(&self, path: &str) -> (s: String)
        ensures
            s@ == "Wrote "@ + path@,
    {
        let mut s = String::new();
        push_str(&mut s, "Wrote ");
        push_str(&mut s, path);
        s
    }
}

} // verus!

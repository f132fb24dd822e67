//! `read_file`: numbered, paginated file content, cut to the output budget
//! at whole lines with a hint where to resume.

use vstd::prelude::*;
use std::path::PathBuf;
use crate::text::{
    byte_len, chars_of, dec, dec_chars, lines_of, lines_view, pad_left, push_char, push_chars,
    push_dec, push_padded, push_str, split_lines, strip_trailing_newlines, string_of,
    without_trailing_newlines,
};

verus! {

/// Lines returned when no limit is given.
pub const DEFAULT_LIMIT: usize = 2000;

/// Reads a file, with an optional offset and limit for pagination.
pub struct ReadFileTool {
    pub workspace_root: PathBuf,
}

impl ReadFileTool {
    pub fn new(workspace_root: PathBuf) -> (r: Self)
        ensures
            r.workspace_root == workspace_root,
    {
        ReadFileTool { workspace_root }
    }

    pub fn name(&self) -> (s: &'static str)
        ensures
            s@ == "read_file"@,
    {
        "read_file"
    }

    pub fn description(&self) -> (s: &'static str)
        ensures
            s@ == "Read a file. Returns the file content with line numbers. Supports pagination with offset and limit parameters. The path may be workspace-relative or absolute (e.g. a file in another project). Use this to read source code, configuration files, documentation, or any text file."@,
    {
        "Read a file. Returns the file content with line numbers. Supports pagination with offset and limit parameters. The path may be workspace-relative or absolute (e.g. a file in another project). Use this to read source code, configuration files, documentation, or any text file."
    }
}

/// Line number `n` right-aligned in six columns, a bar, the line and a
/// newline.
pub open spec fn numbered_line(n: nat, line: Seq<char>) -> Seq<char> {
    pad_left(dec(n), 6) + "|"@ + line + "\n"@
}

pub open spec fn resume_marker(at: nat) -> Seq<char> {
    "...(truncated, use offset="@ + dec(at) + " to continue)"@
}

/// The numbered lines `0..k` of `sel`, the first numbered `start + 1`.
pub open spec fn numbered(sel: Seq<Seq<char>>, start: nat, k: int) -> Seq<char>
    decreases k,
{
    if k <= 0 {
        Seq::empty()
    } else {
        numbered(sel, start, k - 1) + numbered_line((start + k) as nat, sel[k - 1])
    }
}

pub open spec fn header_text(path: Seq<char>, first: nat, last: nat, total: nat) -> Seq<char> {
    "File: "@ + path + " (lines "@ + dec(first) + "-"@ + dec(last) + " of "@ + dec(total) + ")"@
}

/// Line `j` of `sel` fits: the lines before it, it, and the room kept for
/// the header and the resume marker stay within `max`.
pub open spec fn line_fits(sel: Seq<Seq<char>>, start: nat, j: int, max: nat, header: nat) -> bool {
    numbered(sel, start, j).len() + numbered_line((start + j + 1) as nat, sel[j]).len() + header
        + resume_marker((start + j) as nat).len() + 1 <= max
}

/// How many lines of `sel`, from `j` on, are shown: all of them without a
/// budget, else those before the first that does not fit.
pub open spec fn shown_from(
    sel: Seq<Seq<char>>,
    start: nat,
    j: int,
    budget: Option<usize>,
    header: nat,
) -> nat
    decreases sel.len() - j,
{
    if j < 0 || j >= sel.len() {
        sel.len()
    } else {
        match budget {
            None => shown_from(sel, start, j + 1, budget, header),
            Some(max) => if line_fits(sel, start, j, max as nat, header) {
                shown_from(sel, start, j + 1, budget, header)
            } else {
                j as nat
            },
        }
    }
}

/// The reply of `read_file` for `content` read from `path`, from line
/// `offset` with at most `limit` lines, within `budget` characters where
/// one is set.
pub open spec fn read_reply(
    path: Seq<char>,
    content: Seq<char>,
    offset: nat,
    limit: nat,
    budget: Option<usize>,
) -> Seq<char> {
    let lines = lines_of(content);
    let total = lines.len();
    let start = if offset < total { offset } else { total };
    let end = if start + limit < total { start + limit } else { total };
    let sel = lines.subrange(start as int, end as int);
    let header = byte_len(header_text(path, start + 1, end, total)) + 1;
    let shown = shown_from(sel, start, 0, budget, header);
    let body = if sel.len() == 0 {
        "(file is empty)"@
    } else if shown < sel.len() {
        numbered(sel, start, shown as int) + resume_marker(start + shown) + "\n"@
    } else {
        numbered(sel, start, shown as int)
    };
    let first = if total == 0 {
        0
    } else {
        start + 1
    };
    strip_trailing_newlines(header_text(path, first, start + shown, total) + "\n"@ + body)
}

/// From line `j` on, at most the remaining lines are shown, and all of them
/// without a budget.
pub proof fn lemma_shown_bounds(sel: Seq<Seq<char>>, start: nat, j: int, budget: Option<usize>, header: nat)
    requires
        0 <= j <= sel.len(),
    ensures
        j <= shown_from(sel, start, j, budget, header) <= sel.len(),
        budget is None ==> shown_from(sel, start, j, budget, header) == sel.len(),
    decreases sel.len() - j,
{
    if j < sel.len() {
        lemma_shown_bounds(sel, start, j + 1, budget, header);
    }
}

/// The reply's header names the lines it shows: its range runs from the
/// first line read to the last numbered line of the reply, whose lines are
/// the file's lines from `offset` (at most the line count) on, in order;
/// where the budget cuts the reply short, the resume offset is that same
/// last line. Without a budget every line of the range is shown.
pub proof fn header_names_the_lines_shown(
    path: Seq<char>,
    content: Seq<char>,
    offset: nat,
    limit: nat,
    budget: Option<usize>,
) -> (shown: nat)
    ensures
        ({
                let lines = lines_of(content);
                let total = lines.len();
                let start = if offset < total { offset } else { total };
                let end = if start + limit < total { start + limit } else { total };
                let sel = lines.subrange(start as int, end as int);
                let first = if total == 0 { 0 } else { start + 1 };
                &&& shown <= sel.len()
                &&& (budget is None ==> shown == sel.len())
                &&& read_reply(path, content, offset, limit, budget) == strip_trailing_newlines(
                    "File: "@ + path + " (lines "@ + dec(first) + "-"@ + dec(start + shown) + " of "@ + dec(
                        total,
                    ) + ")"@ + "\n"@ + if sel.len() == 0 {
                        "(file is empty)"@
                    } else if shown < sel.len() {
                        numbered(sel, start, shown as int) + "...(truncated, use offset="@ + dec(
                            start + shown,
                        ) + " to continue)"@ + "\n"@
                    } else {
                        numbered(sel, start, shown as int)
                    },
                )
            }),
{
    let lines = lines_of(content);
    let total = lines.len();
    let start = if offset < total { offset } else { total };
    let end = if start + limit < total { start + limit } else { total };
    let sel = lines.subrange(start as int, end as int);
    let header = byte_len(header_text(path, start + 1, end, total)) + 1;
    let shown = shown_from(sel, start, 0, budget, header);
    lemma_shown_bounds(sel, start, 0, budget, header);
    let first = if total == 0 { 0 } else { start + 1 };
    let body = if sel.len() == 0 {
        "(file is empty)"@
    } else if shown < sel.len() {
        numbered(sel, start, shown as int) + resume_marker(start + shown) + "\n"@
    } else {
        numbered(sel, start, shown as int)
    };
    assert(header_text(path, first, start + shown, total) + "\n"@ + body =~= "File: "@ + path + " (lines "@
        + dec(first) + "-"@ + dec(start + shown) + " of "@ + dec(total) + ")"@ + "\n"@ + if sel.len() == 0 {
        "(file is empty)"@
    } else if shown < sel.len() {
        numbered(sel, start, shown as int) + "...(truncated, use offset="@ + dec(start + shown)
            + " to continue)"@ + "\n"@
    } else {
        numbered(sel, start, shown as int)
    });
    assert(read_reply(path, content, offset, limit, budget) == strip_trailing_newlines(
        "File: "@ + path + " (lines "@ + dec(first) + "-"@ + dec(start + shown) + " of "@ + dec(total)
            + ")"@ + "\n"@ + if sel.len() == 0 {
            "(file is empty)"@
        } else if shown < sel.len() {
            numbered(sel, start, shown as int) + "...(truncated, use offset="@ + dec(start + shown)
                + " to continue)"@ + "\n"@
        } else {
            numbered(sel, start, shown as int)
        },
    ));
    shown
}

/// The number of lines of `content` (`str::lines`).
pub fn line_count(content: &str) -> (n: usize)
    ensures
        n == lines_of(content@).len(),
{
    split_lines(&chars_of(content)).len()
}

fn header_string(path: &str, first: usize, last: usize, total: usize) -> (s: String)
    ensures
        s@ == header_text(path@, first as nat, last as nat, total as nat),
{
    let mut s = String::new();
    push_str(&mut s, "File: ");
    push_str(&mut s, path);
    push_str(&mut s, " (lines ");
    push_dec(&mut s, first as u64);
    push_str(&mut s, "-");
    push_dec(&mut s, last as u64);
    push_str(&mut s, " of ");
    push_dec(&mut s, total as u64);
    push_str(&mut s, ")");
    s
}

fn numbered_chars(n: usize, line: &Vec<char>) -> (r: Vec<char>)
    ensures
        r@ == numbered_line(n as nat, line@),
{
    let mut s = String::new();
    push_padded(&mut s, &dec_chars(n as u64), 6);
    push_str(&mut s, "|");
    push_chars(&mut s, line);
    push_str(&mut s, "\n");
    chars_of(s.as_str())
}

fn marker_chars(at: usize) -> (r: Vec<char>)
    ensures
        r@ == resume_marker(at as nat),
{
    let mut s = String::new();
    push_str(&mut s, "...(truncated, use offset=");
    push_dec(&mut s, at as u64);
    push_str(&mut s, " to continue)");
    chars_of(s.as_str())
}

/// The `read_file` reply for `content` read from `path`: lines `offset..`
/// (at most `limit`), numbered from 1, within `max_output_chars` characters
/// where set, keeping whole lines.
pub fn render_file(
    path: &str,
    content: &str,
    offset: usize,
    limit: usize,
    max_output_chars: Option<usize>,
) -> (r: String)
    requires
        lines_of(content@).len() < usize::MAX,
    ensures
        r@ == read_reply(path@, content@, offset as nat, limit as nat, max_output_chars),
{
    let lines = split_lines(&chars_of(content));
    let total = lines.len();
    let start = if offset < total {
        offset
    } else {
        total
    };
    let end = if limit < total - start {
        start + limit
    } else {
        total
    };
    let ghost all = lines_of(content@);
    let ghost sel = all.subrange(start as int, end as int);
    let header = header_string(path, start + 1, end, total);
    let header_reserve: u128 = header.as_str().as_bytes().len() as u128 + 1;
    let ghost hr = byte_len(header_text(path@, (start + 1) as nat, end as nat, total as nat)) + 1;
    assert(header_reserve == hr);
    let mut body = String::new();
    let mut used: u128 = 0;
    let mut k: usize = 0;
    let mut truncated = false;
    if start == end {
        push_str(&mut body, "(file is empty)");
    } else {
        while start + k < end
            invariant_except_break
                !truncated,
            invariant
                start <= end <= total,
                total < usize::MAX,
                header_reserve <= usize::MAX + 1,
                total == all.len(),
                lines_view(lines@) == all,
                sel == all.subrange(start as int, end as int),
                header_reserve == hr,
                k <= sel.len(),
                body@ == numbered(sel, start as nat, k as int),
                shown_from(sel, start as nat, 0, max_output_chars, hr) == shown_from(
                    sel,
                    start as nat,
                    k as int,
                    max_output_chars,
                    hr,
                ),
                max_output_chars matches Some(max) ==> used <= max && used == numbered(
                    sel,
                    start as nat,
                    k as int,
                ).len(),
            ensures
                truncated ==> k < sel.len() && shown_from(sel, start as nat, 0, max_output_chars, hr)
                    == k,
                !truncated ==> k == sel.len() && shown_from(sel, start as nat, 0, max_output_chars, hr)
                    == sel.len(),
                body@ == numbered(sel, start as nat, k as int),
            decreases end - start - k,
        {
            let line_num = start + k + 1;
            assert(lines_view(lines@)[start + k] == sel[k as int]);
            let line_str = numbered_chars(line_num, &lines[start + k]);
            let line_chars = line_str.len() as u128;
            match max_output_chars {
                Some(max) => {
                    let marker = marker_chars(start + k);
                    let reserve = header_reserve + marker.len() as u128 + 1;
                    if used + line_chars + reserve > max as u128 {
                        truncated = true;
                        break;
                    }
                    used = used + line_chars;
                },
                None => {},
            }
            push_chars(&mut body, &line_str);
            k = k + 1;
        }
    }
    if truncated {
        let marker = marker_chars(start + k);
        push_chars(&mut body, &marker);
        push_str(&mut body, "\n");
    }
    let first = if total == 0 {
        0
    } else {
        start + 1
    };
    let mut out = header_string(path, first, start + k, total);
    push_str(&mut out, "\n");
    push_str(&mut out, body.as_str());
    let r = without_trailing_newlines(&chars_of(out.as_str()));
    proof {
        reveal_strlit("\n");
        if start == end {
            assert(sel.len() == 0);
            assert(shown_from(sel, start as nat, 0, max_output_chars, hr) == 0);
        }
    }
    string_of(&r)
}

} // verus!

//! The notes scratchpad: path safety, size limits, line ranges, listing and
//! case-insensitive search over note files. Reading and writing the files is
//! the caller's part; it hands their names and contents over.

use vstd::prelude::*;
use vstd::relations::sorted_by;
use std::path::{Path, PathBuf};
use crate::file::owned_path;
use crate::text::{
    opt_views,
    byte_len, chars_eq, chars_of, contains_chars, contains_seq, dec, find_first, first_match_from,
    lemma_first_match, lines_of, lines_view, lowercase, matches_at, occurs_at, push_chars,
    push_dec, push_str, sort_strings, split_lines, string_of, string_views, text_order, to_lower,
};

verus! {

/// Largest note file (1,000,000 UTF-8 bytes).
pub const MAX_FILE_SIZE: usize = 1_000_000;

// ── Path safety ─────────────────────────────────────────────────────────────

/// Why a notes path is refused, if it is: empty, absolute, with `..`, `~`
/// or a NUL character.
pub open spec fn path_problem(p: Seq<char>) -> Option<Seq<char>> {
    if p.len() == 0 {
        Some("path cannot be empty"@)
    } else if p[0] == '/' || p[0] == '\\' {
        Some("absolute paths are not allowed"@)
    } else if contains_seq(p, ".."@) {
        Some("'..' is not allowed in paths"@)
    } else if contains_seq(p, "~"@) {
        Some("'~' is not allowed in paths"@)
    } else if contains_seq(p, seq!['\0']) {
        Some("null bytes are not allowed in paths"@)
    } else {
        None
    }
}

/// Checks that `path` is a safe relative path inside the notes directory.
pub fn validate_path(path: &str) -> (r: Result<(), String>)
    ensures
        match path_problem(path@) {
            Some(e) => r matches Err(m) && m@ == e,
            None => r is Ok,
        },
{
    let p = chars_of(path);
    if p.len() == 0 {
        return Err(string_of(&chars_of("path cannot be empty")));
    }
    if p[0] == '/' || p[0] == '\\' {
        return Err(string_of(&chars_of("absolute paths are not allowed")));
    }
    if contains_chars(&p, &chars_of("..")) {
        return Err(string_of(&chars_of("'..' is not allowed in paths")));
    }
    if contains_chars(&p, &chars_of("~")) {
        return Err(string_of(&chars_of("'~' is not allowed in paths")));
    }
    let nul: Vec<char> = vec!['\0'];
    assert(nul@ =~= seq!['\0']);
    if contains_chars(&p, &nul) {
        return Err(string_of(&chars_of("null bytes are not allowed in paths")));
    }
    Ok(())
}

// ── Store ───────────────────────────────────────────────────────────────────

/// Notes of one agent in one session, under
/// `<base_dir>/notes/<session_id>/<agent_name>/`.
pub struct NotesStore {
    pub base_dir: PathBuf,
    pub session_id: String,
    pub agent_name: String,
}

pub open spec fn too_big_msg(size: nat) -> Seq<char> {
    "content exceeds 1000000 byte limit (got "@ + dec(size) + " bytes). Split into multiple files."@
}

pub open spec fn append_too_big_msg(existing: nat, size: nat) -> Seq<char> {
    "appending would exceed 1000000 byte limit (existing: "@ + dec(existing) + ", appending: "@
        + dec(size) + "). Split into multiple files."@
}

/// `lines` joined by `\n`.
pub open spec fn join_lines(lines: Seq<Seq<char>>) -> Seq<char>
    decreases lines.len(),
{
    if lines.len() == 0 {
        Seq::empty()
    } else if lines.len() == 1 {
        lines[0]
    } else {
        join_lines(lines.drop_last()) + "\n"@ + lines.last()
    }
}

/// The lines `start_line..=stop_line` (1-based) of `content`: all of the
/// content without a range; empty when the start lies past the end or after
/// the stop line.
pub open spec fn line_range_of(content: Seq<char>, start_line: Option<usize>, stop_line: Option<usize>) -> Seq<char> {
    if start_line is None && stop_line is None {
        content
    } else {
        let lines = lines_of(content);
        let first = match start_line {
            Some(s) => if s >= 1 {
                s as int
            } else {
                1
            },
            None => 1,
        };
        let start = first - 1;
        let end = match stop_line {
            Some(e) => if e < lines.len() {
                e as int
            } else {
                lines.len() as int
            },
            None => lines.len() as int,
        };
        if start >= lines.len() || start >= end {
            Seq::empty()
        } else {
            join_lines(lines.subrange(start, end))
        }
    }
}

/// A note listing is in order and holds at most `max_results` of the files;
/// it holds them all when there are no more than that.
pub proof fn listing_is_ordered_and_capped(sorted: Seq<Seq<char>>, files: Seq<Seq<char>>, max_results: nat)
    requires
        sorted_by(sorted, text_order()),
        sorted.to_multiset() == files.to_multiset(),
    ensures
        listed_files(sorted, max_results).len() <= max_results,
        sorted_by(listed_files(sorted, max_results), text_order()),
        forall|i: int| 0 <= i < listed_files(sorted, max_results).len() ==> files.contains(
            #[trigger] listed_files(sorted, max_results)[i],
        ),
        files.len() <= max_results ==> listed_files(sorted, max_results).to_multiset() == files.to_multiset(),
{
    broadcast use vstd::seq_lib::group_to_multiset_ensures;

    let l = listed_files(sorted, max_results);
    vstd::seq_lib::to_multiset_len(sorted);
    vstd::seq_lib::to_multiset_len(files);
    assert forall|i: int| 0 <= i < l.len() implies files.contains(#[trigger] l[i]) by {
        assert(l[i] == sorted[i]);
        vstd::seq_lib::to_multiset_contains(sorted, l[i]);
        assert(sorted.contains(sorted[i]));
    }
}

/// The files listed: sorted, at most `max_results`.
pub open spec fn listed_files(sorted: Seq<Seq<char>>, max_results: nat) -> Seq<Seq<char>> {
    if sorted.len() <= max_results {
        sorted
    } else {
        sorted.take(max_results as int)
    }
}

/// A matching line of a note file.
pub struct NoteMatch {
    pub line_number: usize,
    pub line_content: String,
}

/// The matches in one note file.
pub struct NoteSearchResult {
    pub path: String,
    pub matches: Vec<NoteMatch>,
}

/// The matching lines of `lines` from `i` on, with `found` collected so
/// far: a line matches when its lowercase form contains `q`; collecting
/// stops once `max` are found.
pub open spec fn line_matches_from(lines: Seq<Seq<char>>, q: Seq<char>, max: nat, i: int, found: Seq<(nat, Seq<char>)>) -> Seq<(nat, Seq<char>)>
    decreases lines.len() - i,
{
    if found.len() >= max || i < 0 || i >= lines.len() {
        found
    } else if contains_seq(lowercase(lines[i]), q) {
        line_matches_from(lines, q, max, i + 1, found.push(((i + 1) as nat, lines[i])))
    } else {
        line_matches_from(lines, q, max, i + 1, found)
    }
}

/// Collecting matching lines from line `i` on keeps each one a line of
/// `lines` under its 1-based number that contains the query, and stops at
/// `max`.
pub proof fn line_matches_from_facts(lines: Seq<Seq<char>>, q: Seq<char>, max: nat, i: int, found: Seq<(nat, Seq<char>)>)
    requires
        found.len() <= max,
        forall|k: int|
            0 <= k < found.len() ==> 1 <= (#[trigger] found[k]).0 <= lines.len() && lines[found[k].0 - 1]
                == found[k].1 && contains_seq(lowercase(found[k].1), q),
    ensures
        ({
            let r = line_matches_from(lines, q, max, i, found);
            &&& r.len() <= max
            &&& forall|k: int|
                0 <= k < r.len() ==> 1 <= (#[trigger] r[k]).0 <= lines.len() && lines[r[k].0 - 1]
                    == r[k].1 && contains_seq(lowercase(r[k].1), q)
        }),
    decreases lines.len() - i,
{
    if 0 <= i < lines.len() && found.len() < max {
        if contains_seq(lowercase(lines[i]), q) {
            let f = found.push(((i + 1) as nat, lines[i]));
            assert forall|k: int| 0 <= k < f.len() implies 1 <= (#[trigger] f[k]).0 <= lines.len()
                && lines[f[k].0 - 1] == f[k].1 && contains_seq(lowercase(f[k].1), q) by {
                if k < found.len() {
                    assert(f[k] == found[k]);
                }
            }
            line_matches_from_facts(lines, q, max, i + 1, f);
        } else {
            line_matches_from_facts(lines, q, max, i + 1, found);
        }
    }
}

/// The matches in a note are at most `max_matches`;
/// each is the line of `content` under its 1-based number, and contains the
/// query ignoring case.
pub proof fn note_matches_are_lines(content: Seq<char>, q: Seq<char>, max_matches: nat)
    ensures
        file_matches(content, q, max_matches).len() <= max_matches,
        forall|k: int|
            0 <= k < file_matches(content, q, max_matches).len() ==> {
                let m = #[trigger] file_matches(content, q, max_matches)[k];
                &&& 1 <= m.0 <= lines_of(content).len()
                &&& lines_of(content)[m.0 - 1] == m.1
                &&& contains_seq(lowercase(m.1), q)
            },
{
    line_matches_from_facts(lines_of(content), q, max_matches, 0, Seq::empty());
}

pub open spec fn match_view(m: NoteMatch) -> (nat, Seq<char>) {
    (m.line_number as nat, m.line_content@)
}

pub open spec fn matches_view(v: Seq<NoteMatch>) -> Seq<(nat, Seq<char>)> {
    v.map_values(|m: NoteMatch| match_view(m))
}

/// The matching lines of one file's `content` for the lowercase query `q`.
pub open spec fn file_matches(content: Seq<char>, q: Seq<char>, max_matches: nat) -> Seq<(nat, Seq<char>)> {
    line_matches_from(lines_of(content), q, max_matches, 0, Seq::empty())
}

/// The files among the first `k` that were read and have at least one
/// matching line, in file order, each with its matches.
pub open spec fn files_with_matches(
    files: Seq<Seq<char>>,
    contents: Seq<Option<Seq<char>>>,
    q: Seq<char>,
    max_matches: nat,
    k: int,
) -> Seq<(Seq<char>, Seq<(nat, Seq<char>)>)>
    decreases k,
{
    if k <= 0 {
        Seq::empty()
    } else {
        let prev = files_with_matches(files, contents, q, max_matches, k - 1);
        match contents[k - 1] {
            Some(c) => if file_matches(c, q, max_matches).len() > 0 {
                prev.push((files[k - 1], file_matches(c, q, max_matches)))
            } else {
                prev
            },
            None => prev,
        }
    }
}

proof fn lemma_hits_prefix(
    files: Seq<Seq<char>>,
    contents: Seq<Option<Seq<char>>>,
    q: Seq<char>,
    max_matches: nat,
    j: int,
    n: int,
)
    requires
        0 <= j <= n,
    ensures
        files_with_matches(files, contents, q, max_matches, j).len() <= files_with_matches(
            files,
            contents,
            q,
            max_matches,
            n,
        ).len(),
        files_with_matches(files, contents, q, max_matches, n).take(
            files_with_matches(files, contents, q, max_matches, j).len() as int,
        ) == files_with_matches(files, contents, q, max_matches, j),
    decreases n - j,
{
    let hj = files_with_matches(files, contents, q, max_matches, j);
    if j == n {
        assert(hj.take(hj.len() as int) =~= hj);
    } else {
        lemma_hits_prefix(files, contents, q, max_matches, j, n - 1);
        let hp = files_with_matches(files, contents, q, max_matches, n - 1);
        let hn = files_with_matches(files, contents, q, max_matches, n);
        assert(hn.take(hj.len() as int) =~= hp.take(hj.len() as int));
    }
}

proof fn lemma_search_from_hits(
    files: Seq<Seq<char>>,
    contents: Seq<Option<Seq<char>>>,
    q: Seq<char>,
    max_files: nat,
    max_matches: nat,
    i: int,
)
    requires
        files.len() == contents.len(),
        0 <= i <= files.len(),
        files_with_matches(files, contents, q, max_matches, i).len() < max_files,
    ensures
        ({
            let all = files_with_matches(files, contents, q, max_matches, files.len() as int);
            search_from(
                files,
                contents,
                q,
                max_files,
                max_matches,
                i,
                files_with_matches(files, contents, q, max_matches, i),
            ) == if all.len() <= max_files {
                all
            } else {
                all.take(max_files as int)
            }
        }),
    decreases files.len() - i,
{
    let n = files.len() as int;
    let all = files_with_matches(files, contents, q, max_matches, n);
    let found = files_with_matches(files, contents, q, max_matches, i);
    if i == n {
    } else {
        let next = files_with_matches(files, contents, q, max_matches, i + 1);
        lemma_hits_prefix(files, contents, q, max_matches, i + 1, n);
        match contents[i] {
            None => {
                lemma_search_from_hits(files, contents, q, max_files, max_matches, i + 1);
            },
            Some(c) => {
                if next.len() >= max_files {
                    assert(next.len() == max_files);
                    assert(all.take(max_files as int) == next);
                } else {
                    lemma_search_from_hits(files, contents, q, max_files, max_matches, i + 1);
                }
            },
        }
    }
}

proof fn lemma_search_from_zero(
    files: Seq<Seq<char>>,
    contents: Seq<Option<Seq<char>>>,
    q: Seq<char>,
    max_matches: nat,
    i: int,
)
    requires
        files.len() == contents.len(),
        0 <= i <= files.len(),
        files_with_matches(files, contents, q, max_matches, i).len() == 0,
    ensures
        ({
            let all = files_with_matches(files, contents, q, max_matches, files.len() as int);
            let r = search_from(
                files,
                contents,
                q,
                0,
                max_matches,
                i,
                files_with_matches(files, contents, q, max_matches, i),
            );
            &&& r.len() <= 1
            &&& r.len() <= all.len()
            &&& all.take(r.len() as int) == r
        }),
    decreases files.len() - i,
{
    let n = files.len() as int;
    let all = files_with_matches(files, contents, q, max_matches, n);
    if i == n {
        assert(all.take(0) =~= Seq::<(Seq<char>, Seq<(nat, Seq<char>)>)>::empty());
    } else {
        lemma_hits_prefix(files, contents, q, max_matches, i + 1, n);
        match contents[i] {
            None => {
                lemma_search_from_zero(files, contents, q, max_matches, i + 1);
            },
            Some(c) => {},
        }
    }
}

/// With no room for results, a search reports at most one file: the first
/// file that has a match.
pub proof fn search_without_room(
    files: Seq<Seq<char>>,
    contents: Seq<Option<Seq<char>>>,
    q: Seq<char>,
    max_matches: nat,
)
    requires
        files.len() == contents.len(),
    ensures
        ({
            let all = files_with_matches(files, contents, q, max_matches, files.len() as int);
            let r = search_from(files, contents, q, 0, max_matches, 0, Seq::empty());
            &&& r.len() <= 1
            &&& r.len() <= all.len()
            &&& all.take(r.len() as int) == r
        }),
{
    assert(files_with_matches(files, contents, q, max_matches, 0) =~= Seq::empty());
    lemma_search_from_zero(files, contents, q, max_matches, 0);
}

/// Searching notes reports, in file order, every file that was read and has
/// a matching line, with its matches, up to `max_files` of them: a file
/// without a match (or that could not be read) never ends the search.
pub proof fn search_reports_every_file_with_a_match(
    files: Seq<Seq<char>>,
    contents: Seq<Option<Seq<char>>>,
    q: Seq<char>,
    max_files: nat,
    max_matches: nat,
)
    requires
        files.len() == contents.len(),
        max_files > 0,
    ensures
        ({
            let all = files_with_matches(files, contents, q, max_matches, files.len() as int);
            search_from(files, contents, q, max_files, max_matches, 0, Seq::empty()) == if all.len()
                <= max_files {
                all
            } else {
                all.take(max_files as int)
            }
        }),
{
    assert(files_with_matches(files, contents, q, max_matches, 0) =~= Seq::empty());
    lemma_search_from_hits(files, contents, q, max_files, max_matches, 0);
}

/// The search results over `files` with their contents (`None` where a file
/// could not be read), from file `i` on, with `found` so far: files with a
/// match are reported; the search stops once `max_files` results exist
/// after any file.
pub open spec fn search_from(
    files: Seq<Seq<char>>,
    contents: Seq<Option<Seq<char>>>,
    q: Seq<char>,
    max_files: nat,
    max_matches: nat,
    i: int,
    found: Seq<(Seq<char>, Seq<(nat, Seq<char>)>)>,
) -> Seq<(Seq<char>, Seq<(nat, Seq<char>)>)>
    decreases files.len() - i,
{
    if i < 0 || i >= files.len() || i >= contents.len() {
        found
    } else {
        match contents[i] {
            None => search_from(files, contents, q, max_files, max_matches, i + 1, found),
            Some(c) => {
                let m = file_matches(c, q, max_matches);
                let f = if m.len() > 0 {
                    found.push((files[i], m))
                } else {
                    found
                };
                if f.len() >= max_files {
                    f
                } else {
                    search_from(files, contents, q, max_files, max_matches, i + 1, f)
                }
            },
        }
    }
}

pub open spec fn result_view(r: NoteSearchResult) -> (Seq<char>, Seq<(nat, Seq<char>)>) {
    (r.path@, matches_view(r.matches@))
}

impl NotesStore {
    /// The store of `agent_name` in `session_id` under `base_dir`.
    pub fn new(base_dir: &Path, session_id: &str, agent_name: &str) -> (r: Self)
        ensures
            r.session_id@ == session_id@,
            r.agent_name@ == agent_name@,
    {
        NotesStore {
            base_dir: owned_path(base_dir),
            session_id: string_of(&chars_of(session_id)),
            agent_name: string_of(&chars_of(agent_name)),
        }
    }

    /// The refusal of a write of `content` to `path`: an unsafe path, or
    /// content over `MAX_FILE_SIZE` bytes (checked first).
    pub fn check_write(&self, path: &str, content: &str) -> (r: Result<(), String>)
        ensures
            byte_len(content@) > MAX_FILE_SIZE ==> (r matches Err(e) && e@ == too_big_msg(
                byte_len(content@),
            )),
            byte_len(content@) <= MAX_FILE_SIZE ==> match path_problem(path@) {
                Some(e) => r matches Err(m) && m@ == e,
                None => r is Ok,
            },
    {
        let size = content.as_bytes().len();
        if size > MAX_FILE_SIZE {
            let mut s = String::new();
            push_str(&mut s, "content exceeds 1000000 byte limit (got ");
            push_dec(&mut s, size as u64);
            push_str(&mut s, " bytes). Split into multiple files.");
            return Err(s);
        }
        validate_path(path)
    }

    /// Whether the size after appending `content` to a file of
    /// `existing_size` bytes can be counted in a `usize`.
    pub fn append_size_fits(&self, existing_size: usize, content: &str) -> (b: bool)
        ensures
            b == (existing_size + byte_len(content@) <= usize::MAX),
    {
        content.as_bytes().len() <= usize::MAX - existing_size
    }

    /// The refusal of appending `content` to a file of `existing_size`
    /// bytes when the result would exceed `MAX_FILE_SIZE` bytes.
    pub fn check_append(&self, existing_size: usize, content: &str) -> (r: Result<(), String>)
        requires
            existing_size + byte_len(content@) <= usize::MAX,
        ensures
            existing_size + byte_len(content@) > MAX_FILE_SIZE ==> (r matches Err(e) && e@
                == append_too_big_msg(existing_size as nat, byte_len(content@))),
            existing_size + byte_len(content@) <= MAX_FILE_SIZE ==> r is Ok,
    {
        let size = content.as_bytes().len();
        if existing_size + size > MAX_FILE_SIZE {
            let mut s = String::new();
            push_str(&mut s, "appending would exceed 1000000 byte limit (existing: ");
            push_dec(&mut s, existing_size as u64);
            push_str(&mut s, ", appending: ");
            push_dec(&mut s, size as u64);
            push_str(&mut s, "). Split into multiple files.");
            return Err(s);
        }
        Ok(())
    }

    /// The lines `start_line..=stop_line` (1-based) of a note's `content`.
    pub fn line_range(&self, content: &str, start_line: Option<usize>, stop_line: Option<usize>) -> (r: String)
        ensures
            r@ == line_range_of(content@, start_line, stop_line),
    {
        if start_line.is_none() && stop_line.is_none() {
            return string_of(&chars_of(content));
        }
        let lines = split_lines(&chars_of(content));
        let n = lines.len();
        let first: usize = match start_line {
            Some(s) => if s >= 1 {
                s
            } else {
                1
            },
            None => 1,
        };
        let start = first - 1;
        let end: usize = match stop_line {
            Some(e) => if e < n {
                e
            } else {
                n
            },
            None => n,
        };
        if start >= n || start >= end {
            return String::new();
        }
        let ghost sel = lines_of(content@).subrange(start as int, end as int);
        let mut out = String::new();
        let mut k: usize = start;
        while k < end
            invariant
                start <= k <= end <= n,
                n == lines@.len(),
                lines_view(lines@) == lines_of(content@),
                sel == lines_of(content@).subrange(start as int, end as int),
                out@ == join_lines(sel.take(k - start)),
            decreases end - k,
        {
            let ghost before = out@;
            if k > start {
                push_str(&mut out, "\n");
            }
            push_chars(&mut out, &lines[k]);
            proof {
                assert(sel.take(k + 1 - start).drop_last() =~= sel.take(k - start));
                assert(sel.take(k + 1 - start).last() == lines@[k as int]@);
                reveal_strlit("\n");
            }
            k = k + 1;
        }
        assert(sel.take(end - start) =~= sel);
        out
    }

    /// The note files `files` (as walked) in order, at most `max_results`.
    pub fn list_files(&self, files: Vec<String>, max_results: usize) -> (r: Vec<String>)
        ensures
            exists|sorted: Seq<Seq<char>>|
                sorted_by(sorted, text_order()) && sorted.to_multiset() == string_views(files@).to_multiset()
                    && string_views(r@) == listed_files(sorted, max_results as nat),
    {
        let mut sorted = sort_strings(files);
        let ghost all = string_views(sorted@);
        if sorted.len() > max_results {
            sorted.truncate(max_results);
            assert(string_views(sorted@) =~= all.take(max_results as int));
        }
        assert(string_views(sorted@) == listed_files(all, max_results as nat));
        sorted
    }

    /// The search results for `query` (compared ignoring case) over the
    /// note `files`, whose contents the caller read (`None` where reading
    /// failed).
    pub fn search_files(
        &self,
        query: &str,
        files: &Vec<String>,
        contents: &Vec<Option<String>>,
        max_files: usize,
        max_matches: usize,
    ) -> (r: Vec<NoteSearchResult>)
        requires
            files@.len() == contents@.len(),
        ensures
            r@.map_values(|x: NoteSearchResult| result_view(x)) == search_from(
                string_views(files@),
                opt_views(contents@),
                lowercase(query@),
                max_files as nat,
                max_matches as nat,
                0,
                Seq::empty(),
            ),
    {
        let ql = to_lower(query);
        let q = chars_of(ql.as_str());
        let mut results: Vec<NoteSearchResult> = Vec::new();
        let mut i: usize = 0;
        let ghost fv = string_views(files@);
        let ghost cv = opt_views(contents@);
        let ghost target = search_from(fv, cv, lowercase(query@), max_files as nat, max_matches as nat, 0, Seq::empty());
        assert(results@.map_values(|x: NoteSearchResult| result_view(x)) =~= Seq::<(Seq<char>, Seq<(nat, Seq<char>)>)>::empty());
        while i < files.len()
            invariant
                i <= files@.len(),
                files@.len() == contents@.len(),
                fv == string_views(files@),
                cv == opt_views(contents@),
                q@ == lowercase(query@),
                target == search_from(string_views(files@), opt_views(contents@), lowercase(query@), max_files as nat, max_matches as nat, 0, Seq::empty()),
                target == search_from(fv, cv, lowercase(query@), max_files as nat, max_matches as nat, i as int, results@.map_values(|x: NoteSearchResult| result_view(x))),
            decreases files@.len() - i,
        {
            match &contents[i] {
                None => {
                    assert(cv[i as int] is None);
                },
                Some(c) => {
                    assert(cv[i as int] == Some(c@));
                    let ms = match_lines(c.as_str(), &q, max_matches);
                    let ghost before = results@.map_values(|x: NoteSearchResult| result_view(x));
                    let ghost m = file_matches(c@, lowercase(query@), max_matches as nat);
                    assert(matches_view(ms@) == m);
                    assert(ms@.len() == m.len());
                    if ms.len() > 0 {
                        let path = files[i].clone();
                        assert(path@ == fv[i as int]);
                        results.push(NoteSearchResult { path, matches: ms });
                        assert(results@.map_values(|x: NoteSearchResult| result_view(x)) =~= before.push((fv[i as int], m)));
                    } else {
                        assert(results@.map_values(|x: NoteSearchResult| result_view(x)) =~= before);
                    }
                    if results.len() >= max_files {
                        assert(target == results@.map_values(|x: NoteSearchResult| result_view(x)));
                        return results;
                    }
                },
            }
            i = i + 1;
        }
        assert(target == results@.map_values(|x: NoteSearchResult| result_view(x)));
        results
    }
}

/// The matching lines of `content` for the lowercase query `q`, at most
/// `max_matches`.
pub fn match_lines(content: &str, q: &Vec<char>, max_matches: usize) -> (r: Vec<NoteMatch>)
    ensures
        matches_view(r@) == file_matches(content@, q@, max_matches as nat),
{
    let lines = split_lines(&chars_of(content));
    let ghost lv = lines_view(lines@);
    let mut r: Vec<NoteMatch> = Vec::new();
    let mut i: usize = 0;
    assert(matches_view(r@) =~= Seq::<(nat, Seq<char>)>::empty());
    while i < lines.len()
        invariant
            i <= lines@.len(),
            lv == lines_view(lines@),
            lv == lines_of(content@),
            file_matches(content@, q@, max_matches as nat) == line_matches_from(lv, q@, max_matches as nat, i as int, matches_view(r@)),
            r@.len() <= max_matches,
        decreases lines@.len() - i,
    {
        if r.len() >= max_matches {
            return r;
        }
        let line = string_of(&lines[i]);
        let lower = chars_of(to_lower(line.as_str()).as_str());
        assert(lv[i as int] == line@);
        if contains_chars(&lower, q) {
            let ghost before = matches_view(r@);
            r.push(NoteMatch { line_number: i + 1, line_content: line });
            assert(matches_view(r@) =~= before.push(((i + 1) as nat, lv[i as int])));
        }
        i = i + 1;
    }
    r
}

} // verus!

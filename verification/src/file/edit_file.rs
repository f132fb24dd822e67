//! Precision text replacement with a four-level fallback match.
//!
//! Each edit's `old_text` must match exactly once; the levels are exact,
//! trailing whitespace stripped, whitespace trimmed, and Unicode NFC. Edits
//! must not overlap in the original content, and the original line-ending
//! style is kept.

use vstd::prelude::*;
use vstd::relations::{sorted_by, total_ordering};
use std::path::PathBuf;
use crate::text::{
    byte_len, byte_offset, byte_offset_table, chars_eq, chars_of, contains_crlf, copy_range,
    crlf_to_lf, crlf_to_lf_chars, dec, has_crlf, lemma_byte_offset_end, lemma_byte_offset_mono,
    is_line_ws, lemma_chars_le_bytes, lemma_line_ws_run_bound,
    lemma_match_bytes, lf_to_crlf, lf_to_crlf_chars, line_ws_run, line_ws_run_at, matches_at,
    occurs_at, push_dec, push_str, string_of, trim_chars, trim_end_chars, trim_end_seq, trim_seq,
    is_ws, trim_start_seq,
};

verus! {

/// Precise text replacement in an existing file.
pub struct EditFileTool {
    pub workspace_root: PathBuf,
}

impl EditFileTool {
    pub fn new(workspace_root: PathBuf) -> (r: Self)
        ensures
            r.workspace_root == workspace_root,
    {
        EditFileTool { workspace_root }
    }

    pub fn name(&self) -> (s: &'static str)
        ensures
            s@ == "edit_file"@,
    {
        "edit_file"
    }

    pub fn description(&self) -> (s: &'static str)
        ensures
            s@ == "Make precise text replacements in an existing file.\nProvide one or more edits, each with old_text (text to find) and new_text (replacement).\nEach old_text must appear exactly once in the file.\nMultiple edits are applied to the original file (not incrementally).\nUse this instead of write_file when you only need to change specific parts of a file."@,
    {
        "Make precise text replacements in an existing file.\nProvide one or more edits, each with old_text (text to find) and new_text (replacement).\nEach old_text must appear exactly once in the file.\nMultiple edits are applied to the original file (not incrementally).\nUse this instead of write_file when you only need to change specific parts of a file."
    }

    /// The refusal of a request before the file is read: no path, no edits
    /// (`edit_count` is `None`), or an empty list of edits.
    pub fn check_request(&self, path: &str, edit_count: Option<usize>) -> (r: Option<String>)
        ensures
            path@.len() == 0 ==> (r matches Some(e) && e@ == "[Error]: No file path provided."@),
            path@.len() > 0 && edit_count is None ==> (r matches Some(e) && e@
                == "[Error]: No edits provided. Expected array of {old_text, new_text} objects."@),
            path@.len() > 0 && edit_count == Some(0usize) ==> (r matches Some(e) && e@
                == "[Error]: Edits array is empty. Provide at least one edit operation."@),
            path@.len() > 0 && (edit_count matches Some(n) && n > 0) ==> r is None,
    {
        if chars_of(path).len() == 0 {
            return Some(string_of(&chars_of("[Error]: No file path provided.")));
        }
        match edit_count {
            None => Some(
                string_of(
                    &chars_of(
                        "[Error]: No edits provided. Expected array of {old_text, new_text} objects.",
                    ),
                ),
            ),
            Some(n) => if n == 0 {
                Some(
                    string_of(
                        &chars_of(
                            "[Error]: Edits array is empty. Provide at least one edit operation.",
                        ),
                    ),
                )
            } else {
                None
            },
        }
    }

    /// The report of a successful edit.
    pub fn success_message(&self, applied: usize, path: &str) -> (s: String)
        ensures
            s@ == "Successfully applied "@ + dec(applied as nat) + " edit(s) to "@ + path@ + "."@,
    {
        let mut s = String::new();
        push_str(&mut s, "Successfully applied ");
        push_dec(&mut s, applied as u64);
        push_str(&mut s, " edit(s) to ");
        push_str(&mut s, path);
        push_str(&mut s, ".");
        s
    }
}

/// One replacement: `old_text` becomes `new_text`.
pub struct Edit {
    pub old_text: String,
    pub new_text: String,
}

// ── Occurrences ─────────────────────────────────────────────────────────────

/// Character indices below `k` at which `n` occurs in `h`, ascending.
pub open spec fn matches_below(h: Seq<char>, n: Seq<char>, k: int) -> Seq<int>
    decreases k,
{
    if k <= 0 {
        Seq::empty()
    } else {
        let prev = matches_below(h, n, k - 1);
        if matches_at(h, n, k - 1) {
            prev.push(k - 1)
        } else {
            prev
        }
    }
}

/// The occurrences of a non-empty `n` in `h` at or after `i`, found left to
/// right, each search resuming after the previous occurrence.
pub open spec fn occurrences_from(h: Seq<char>, n: Seq<char>, i: int) -> Seq<int>
    decreases h.len() - i,
{
    if n.len() == 0 || i < 0 || i + n.len() > h.len() {
        Seq::empty()
    } else if matches_at(h, n, i) {
        seq![i] + occurrences_from(h, n, i + n.len())
    } else {
        occurrences_from(h, n, i + 1)
    }
}

/// The character indices of the non-overlapping occurrences of `n` in `h`,
/// found left to right. An empty needle has no occurrences.
pub open spec fn match_indices(h: Seq<char>, n: Seq<char>) -> Seq<int> {
    occurrences_from(h, n, 0)
}

/// Each occurrence found from `i` on lies at or after `i`, holds `n`, and
/// ends no later than the next one starts.
pub proof fn lemma_occurrences_facts(h: Seq<char>, n: Seq<char>, i: int)
    requires
        0 <= i,
    ensures
        forall|k: int|
            0 <= k < occurrences_from(h, n, i).len() ==> i <= #[trigger] occurrences_from(h, n, i)[k]
                && matches_at(h, n, occurrences_from(h, n, i)[k]) && n.len() > 0,
        forall|a: int, b: int|
            #![trigger occurrences_from(h, n, i)[a], occurrences_from(h, n, i)[b]]
            0 <= a < b < occurrences_from(h, n, i).len() ==> occurrences_from(h, n, i)[a] + n.len()
                <= occurrences_from(h, n, i)[b],
    decreases h.len() - i,
{
    if n.len() == 0 || i < 0 || i + n.len() > h.len() {
    } else if matches_at(h, n, i) {
        lemma_occurrences_facts(h, n, i + n.len());
        let rest = occurrences_from(h, n, i + n.len());
        let all = occurrences_from(h, n, i);
        assert forall|k: int| 0 <= k < all.len() implies i <= #[trigger] all[k] && matches_at(h, n, all[k]) && n.len() > 0 by {
            if k > 0 {
                assert(all[k] == rest[k - 1]);
            }
        }
        assert forall|a: int, b: int| #![trigger all[a], all[b]] 0 <= a < b < all.len() implies all[a] + n.len() <= all[b] by {
            assert(all[b] == rest[b - 1]);
            if a > 0 {
                assert(all[a] == rest[a - 1]);
            }
        }
    } else {
        lemma_occurrences_facts(h, n, i + 1);
        assert(occurrences_from(h, n, i) == occurrences_from(h, n, i + 1));
    }
}

/// The byte positions of a needle's occurrences ascend and never overlap:
/// each occurrence ends where or before the next starts, and within the text.
pub proof fn occurrence_positions_ascend_within_text(h: Seq<char>, n: Seq<char>)
    ensures
        forall|a: int, b: int|
            #![trigger match_indices(h, n)[a], match_indices(h, n)[b]]
            0 <= a < b < match_indices(h, n).len() ==> byte_offset(h, match_indices(h, n)[a]) + byte_len(n)
                <= byte_offset(h, match_indices(h, n)[b]),
        forall|a: int|
            0 <= a < match_indices(h, n).len() ==> byte_offset(h, #[trigger] match_indices(h, n)[a])
                + byte_len(n) <= byte_len(h),
{
    let m = match_indices(h, n);
    lemma_occurrences_facts(h, n, 0);
    lemma_byte_offset_end(h);
    assert forall|a: int, b: int| #![trigger m[a], m[b]] 0 <= a < b < m.len() implies byte_offset(h, m[a]) + byte_len(n)
        <= byte_offset(h, m[b]) by {
        lemma_match_bytes(h, n, m[a]);
        if m[a] + n.len() < m[b] {
            lemma_byte_offset_mono(h, m[a] + n.len(), m[b]);
        }
    }
    assert forall|a: int| 0 <= a < m.len() implies byte_offset(h, #[trigger] m[a]) + byte_len(n) <= byte_len(h) by {
        lemma_match_bytes(h, n, m[a]);
        if m[a] + n.len() < h.len() {
            lemma_byte_offset_mono(h, m[a] + n.len(), h.len() as int);
        }
    }
}

/// Character indices of the occurrences of `n` in `h`.
fn find_matches(h: &[char], n: &[char]) -> (r: Vec<usize>)
    ensures
        r@.len() == match_indices(h@, n@).len(),
        forall|k: int| 0 <= k < r@.len() ==> r@[k] as int == match_indices(h@, n@)[k],
{
    let mut r: Vec<usize> = Vec::new();
    if n.len() == 0 {
        return r;
    }
    let mut i: usize = 0;
    while i <= h.len() && n.len() <= h.len() - i
        invariant
            i <= h@.len() + 1,
            n@.len() > 0,
            indices_of(r@) + occurrences_from(h@, n@, i as int) == match_indices(h@, n@),
        decreases h@.len() + 1 - i,
    {
        if occurs_at(h, n, i) {
            let ghost before = indices_of(r@);
            r.push(i);
            assert(indices_of(r@) =~= before.push(i as int));
            assert(occurrences_from(h@, n@, i as int) == seq![i as int] + occurrences_from(h@, n@, i + n@.len()));
            assert(before + occurrences_from(h@, n@, i as int) =~= before.push(i as int) + occurrences_from(
                h@,
                n@,
                i + n@.len(),
            ));
            i = i + n.len();
        } else {
            i = i + 1;
        }
    }
    assert(occurrences_from(h@, n@, i as int) =~= Seq::<int>::empty());
    assert(indices_of(r@) + Seq::<int>::empty() =~= indices_of(r@));
    r
}

/// Indices as integers.
pub open spec fn indices_of(v: Seq<usize>) -> Seq<int> {
    v.map_values(|x: usize| x as int)
}

/// Byte positions of the occurrences of `needle` in `haystack`, found left to
/// right with each search resuming after the previous occurrence: ascending
/// and non-overlapping. An empty needle has none.
pub fn find_all_positions(haystack: &str, needle: &str) -> (r: Vec<usize>)
    ensures
        r@.len() == match_indices(haystack@, needle@).len(),
        forall|k: int|
            0 <= k < r@.len() ==> r@[k] == byte_offset(
                haystack@,
                #[trigger] match_indices(haystack@, needle@)[k],
            ),
{
    let h = chars_of(haystack);
    let n = chars_of(needle);
    let total = haystack.as_bytes().len();
    let table = byte_offset_table(&h, total);
    let m = find_matches(&h, &n);
    let mut r: Vec<usize> = Vec::new();
    let mut k: usize = 0;
    proof {
        lemma_occurrences_facts(h@, n@, 0);
    }
    while k < m.len()
        invariant
            k <= m@.len(),
            m@.len() == match_indices(h@, n@).len(),
            forall|j: int| 0 <= j < m@.len() ==> m@[j] as int == match_indices(h@, n@)[j],
            forall|j: int| 0 <= j < m@.len() ==> 0 <= #[trigger] match_indices(h@, n@)[j] < h@.len(),
            table@.len() == h@.len() + 1,
            forall|i: int| 0 <= i <= h@.len() ==> table@[i] == byte_offset(h@, i),
            r@.len() == k,
            forall|j: int| 0 <= j < k ==> r@[j] == byte_offset(h@, match_indices(h@, n@)[j]),
        decreases m@.len() - k,
    {
        r.push(table[m[k]]);
        k = k + 1;
    }
    r
}

// ── Replacement ─────────────────────────────────────────────────────────────

/// `s` with the `len` characters at `i` replaced by `new`.
pub open spec fn splice(s: Seq<char>, i: int, len: int, new: Seq<char>) -> Seq<char> {
    s.take(i) + new + s.skip(i + len)
}

fn splice_chars(s: &[char], i: usize, len: usize, new: &[char]) -> (r: Vec<char>)
    requires
        i + len <= s@.len(),
    ensures
        r@ == splice(s@, i as int, len as int, new@),
{
    let mut r = copy_range(s, 0, i);
    let mut k: usize = 0;
    while k < new.len()
        invariant
            k <= new@.len(),
            r@ == s@.take(i as int) + new@.take(k as int),
        decreases new@.len() - k,
    {
        r.push(new[k]);
        k = k + 1;
        assert(r@ =~= s@.take(i as int) + new@.take(k as int));
    }
    assert(s@.len() == s.len());
    let mut j: usize = i + len;
    assert(new@.take(new@.len() as int) =~= new@);
    while j < s.len()
        invariant
            i + len <= j <= s@.len(),
            r@ == s@.take(i as int) + new@ + s@.subrange(i + len, j as int),
        decreases s@.len() - j,
    {
        r.push(s[j]);
        j = j + 1;
        assert(r@ =~= s@.take(i as int) + new@ + s@.subrange(i + len, j as int));
    }
    assert(s@.subrange(i + len, s@.len() as int) =~= s@.skip(i + len));
    r
}

/// The character index whose byte offset is `b`.
fn char_index_at_byte(s: &[char], table: &Vec<usize>, b: usize) -> (i: usize)
    requires
        table@.len() == s@.len() + 1,
        forall|k: int| 0 <= k <= s@.len() ==> table@[k] == byte_offset(s@, k),
        exists|k: int| 0 <= k <= s@.len() && byte_offset(s@, k) == b,
    ensures
        i <= s@.len(),
        byte_offset(s@, i as int) == b,
{
    let mut i: usize = 0;
    while i < s.len() && table[i] != b
        invariant
            i <= s@.len(),
            table@.len() == s@.len() + 1,
            forall|k: int| 0 <= k <= s@.len() ==> table@[k] == byte_offset(s@, k),
            exists|k: int| i <= k <= s@.len() && byte_offset(s@, k) == b,
        decreases s@.len() - i,
    {
        i = i + 1;
    }
    i
}

/// Byte offsets identify character indices.
pub proof fn lemma_byte_offset_injective(s: Seq<char>, i: int, j: int)
    requires
        0 <= i <= s.len(),
        0 <= j <= s.len(),
        byte_offset(s, i) == byte_offset(s, j),
    ensures
        i == j,
{
    if i < j {
        lemma_byte_offset_mono(s, i, j);
    } else if j < i {
        lemma_byte_offset_mono(s, j, i);
    }
}

/// Replaces the bytes `pos..pos + old.len()` of `content` with `new`.
pub fn apply_replace(content: &str, pos: usize, old: &str, new: &str) -> (r: String)
    requires
        exists|i: int| 0 <= i <= content@.len() && byte_offset(content@, i) == pos,
        exists|j: int|
            0 <= j <= content@.len() && byte_offset(content@, j) == pos + byte_len(old@),
    ensures
        forall|i: int, j: int|
            0 <= i <= content@.len() && 0 <= j <= content@.len() && byte_offset(content@, i)
                == pos && byte_offset(content@, j) == pos + byte_len(old@) ==> r@ == content@.take(i)
                + new@ + content@.skip(j),
{
    let c = chars_of(content);
    let total = content.as_bytes().len();
    let table = byte_offset_table(&c, total);
    let old_bytes = old.as_bytes().len();
    let i = char_index_at_byte(&c, &table, pos);
    let j = char_index_at_byte(&c, &table, pos + old_bytes);
    proof {
        let jj = choose|jj: int| 0 <= jj <= content@.len() && byte_offset(content@, jj) == pos + byte_len(old@);
        let ii = choose|ii: int| 0 <= ii <= content@.len() && byte_offset(content@, ii) == pos;
        lemma_byte_offset_injective(c@, i as int, ii);
        lemma_byte_offset_injective(c@, j as int, jj);
        if j < i {
            lemma_byte_offset_mono(c@, j as int, i as int);
        }
    }
    let n = chars_of(new);
    let out = splice_chars(&c, i, j - i, &n);
    proof {
        assert forall|i2: int, j2: int|
            0 <= i2 <= content@.len() && 0 <= j2 <= content@.len() && byte_offset(content@, i2)
                == pos && byte_offset(content@, j2) == pos + byte_len(old@) implies out@
                == content@.take(i2) + new@ + content@.skip(j2) by {
            lemma_byte_offset_injective(c@, i as int, i2);
            lemma_byte_offset_injective(c@, j as int, j2);
        }
    }
    string_of(&out)
}

// ── Line endings ─────────────────────────────────────────────────────────────

/// The line ending of `content`: `"\r\n"` if any CRLF occurs, else `"\n"`.
pub fn detect_line_ending(content: &str) -> (r: &'static str)
    ensures
        r@ == (if has_crlf(content@) {
            "\r\n"@
        } else {
            "\n"@
        }),
{
    let c = chars_of(content);
    if contains_crlf(&c) {
        "\r\n"
    } else {
        "\n"
    }
}

/// `content` with every line ending turned into `line_ending`: CRLF pairs
/// become LF, and if `line_ending` is `"\r\n"` every LF becomes CRLF.
pub fn normalize_line_endings(content: &str, line_ending: &str) -> (r: String)
    ensures
        r@ == (if line_ending@ == seq!['\r', '\n'] {
            lf_to_crlf(crlf_to_lf(content@))
        } else {
            crlf_to_lf(content@)
        }),
{
    let c = chars_of(content);
    let le = chars_of(line_ending);
    let lf = crlf_to_lf_chars(&c);
    let is_crlf = le.len() == 2 && le[0] == '\r' && le[1] == '\n';
    assert(is_crlf == (le@ == seq!['\r', '\n'])) by {
        if le@.len() == 2 && le@[0] == '\r' && le@[1] == '\n' {
            assert(le@ =~= seq!['\r', '\n']);
        }
    }
    if is_crlf {
        let out = lf_to_crlf_chars(&lf);
        string_of(&out)
    } else {
        string_of(&lf)
    }
}

// ── Relaxed matching ────────────────────────────────────────────────────────

/// Pairs of indices as integers.
pub open spec fn pair_view(v: Seq<(usize, usize)>) -> Seq<(int, int)> {
    v.map_values(|p: (usize, usize)| (p.0 as int, p.1 as int))
}

/// Greedy left-to-right occurrences of `n` at or after `i`, each extended
/// over the line whitespace that follows it: `(start, length)` in characters.
/// A matched span is skipped as a whole.
pub open spec fn rstrip_scan(h: Seq<char>, n: Seq<char>, i: int) -> Seq<(int, int)>
    decreases h.len() - i,
{
    if n.len() == 0 || i < 0 || i + n.len() > h.len() {
        Seq::empty()
    } else if matches_at(h, n, i) {
        let len = n.len() + line_ws_run(h, i + n.len());
        proof {
            lemma_line_ws_run_bound(h, i + n.len());
        }
        seq![(i, len as int)] + rstrip_scan(h, n, i + len)
    } else {
        rstrip_scan(h, n, i + 1)
    }
}

/// Greedy left-to-right occurrences of `n` at or after `i` that may be
/// preceded and followed by line whitespace; each span starts at the
/// whitespace before the occurrence: `(start, length)` in characters.
pub open spec fn trim_scan(h: Seq<char>, n: Seq<char>, i: int) -> Seq<(int, int)>
    decreases h.len() - i,
{
    if n.len() == 0 || i < 0 || i >= h.len() {
        Seq::empty()
    } else {
        let w = line_ws_run(h, i);
        if matches_at(h, n, i + w) {
            let len = w + n.len() + line_ws_run(h, i + w + n.len());
            proof {
                lemma_line_ws_run_bound(h, i + w + n.len());
            }
            seq![(i, len as int)] + trim_scan(h, n, i + len)
        } else {
            trim_scan(h, n, i + 1)
        }
    }
}

/// Every span lies in `0..hlen` at or after `i`.
pub open spec fn spans_within(s: Seq<(int, int)>, i: int, hlen: int) -> bool {
    forall|k: int| 0 <= k < s.len() ==> i <= #[trigger] s[k].0 && 0 < s[k].1 && s[k].0 + s[k].1 <= hlen
}

pub proof fn lemma_rstrip_scan_within(h: Seq<char>, n: Seq<char>, i: int)
    requires
        0 <= i,
    ensures
        spans_within(rstrip_scan(h, n, i), i, h.len() as int),
    decreases h.len() - i,
{
    if n.len() == 0 || i < 0 || i + n.len() > h.len() {
    } else if matches_at(h, n, i) {
        let len = n.len() + line_ws_run(h, i + n.len());
        lemma_line_ws_run_bound(h, i + n.len());
        lemma_rstrip_scan_within(h, n, i + len);
        let rest = rstrip_scan(h, n, i + len);
        let all = rstrip_scan(h, n, i);
        assert forall|k: int| 0 <= k < all.len() implies i <= #[trigger] all[k].0 && 0 < all[k].1
            && all[k].0 + all[k].1 <= h.len() by {
            if k > 0 {
                assert(all[k] == rest[k - 1]);
            }
        }
    } else {
        lemma_rstrip_scan_within(h, n, i + 1);
    }
}

pub proof fn lemma_trim_scan_within(h: Seq<char>, n: Seq<char>, i: int)
    requires
        0 <= i,
    ensures
        spans_within(trim_scan(h, n, i), i, h.len() as int),
    decreases h.len() - i,
{
    if n.len() == 0 || i < 0 || i >= h.len() {
    } else {
        let w = line_ws_run(h, i);
        lemma_line_ws_run_bound(h, i);
        if matches_at(h, n, i + w) {
            let len = w + n.len() + line_ws_run(h, i + w + n.len());
            lemma_line_ws_run_bound(h, i + w + n.len());
            lemma_trim_scan_within(h, n, i + len);
            let rest = trim_scan(h, n, i + len);
            let all = trim_scan(h, n, i);
            assert forall|k: int| 0 <= k < all.len() implies i <= #[trigger] all[k].0 && 0
                < all[k].1 && all[k].0 + all[k].1 <= h.len() by {
                if k > 0 {
                    assert(all[k] == rest[k - 1]);
                }
            }
        } else {
            lemma_trim_scan_within(h, n, i + 1);
        }
    }
}

fn rstrip_spans(h: &[char], n: &[char]) -> (r: Vec<(usize, usize)>)
    requires
        n@.len() > 0,
    ensures
        pair_view(r@) == rstrip_scan(h@, n@, 0),
{
    let mut r: Vec<(usize, usize)> = Vec::new();
    let mut i: usize = 0;
    assert(pair_view(r@) =~= Seq::<(int, int)>::empty());
    while i <= h.len() && n.len() <= h.len() - i
        invariant
            i <= h@.len(),
            n@.len() > 0,
            rstrip_scan(h@, n@, 0) == pair_view(r@) + rstrip_scan(h@, n@, i as int),
        decreases h@.len() - i,
    {
        if occurs_at(h, n, i) {
            let w = line_ws_run_at(h, i + n.len());
            let len = n.len() + w;
            let ghost before = pair_view(r@);
            r.push((i, len));
            assert(pair_view(r@) =~= before.push((i as int, len as int)));
            assert(seq![(i as int, len as int)] + rstrip_scan(h@, n@, i + len) == rstrip_scan(
                h@,
                n@,
                i as int,
            ));
            assert(before + (seq![(i as int, len as int)] + rstrip_scan(h@, n@, i + len))
                =~= before.push((i as int, len as int)) + rstrip_scan(h@, n@, i + len));
            i = i + len;
        } else {
            i = i + 1;
        }
    }
    assert(pair_view(r@) + Seq::<(int, int)>::empty() =~= pair_view(r@));
    r
}

fn trim_spans(h: &[char], n: &[char]) -> (r: Vec<(usize, usize)>)
    requires
        n@.len() > 0,
    ensures
        pair_view(r@) == trim_scan(h@, n@, 0),
{
    let mut r: Vec<(usize, usize)> = Vec::new();
    let mut i: usize = 0;
    assert(pair_view(r@) =~= Seq::<(int, int)>::empty());
    while i < h.len()
        invariant
            i <= h@.len(),
            n@.len() > 0,
            trim_scan(h@, n@, 0) == pair_view(r@) + trim_scan(h@, n@, i as int),
        decreases h@.len() - i,
    {
        let w = line_ws_run_at(h, i);
        if occurs_at(h, n, i + w) {
            let w2 = line_ws_run_at(h, i + w + n.len());
            let len = w + n.len() + w2;
            let ghost before = pair_view(r@);
            r.push((i, len));
            assert(pair_view(r@) =~= before.push((i as int, len as int)));
            assert(before + (seq![(i as int, len as int)] + trim_scan(h@, n@, i + len))
                =~= before.push((i as int, len as int)) + trim_scan(h@, n@, i + len));
            i = i + len;
        } else {
            i = i + 1;
        }
    }
    assert(pair_view(r@) + Seq::<(int, int)>::empty() =~= pair_view(r@));
    r
}

/// Byte positions and texts of the spans `spans` of `h`.
fn spans_with_text(h: &[char], total: usize, spans: &Vec<(usize, usize)>) -> (r: Vec<(usize, String)>)
    requires
        total == byte_len(h@),
        spans_within(pair_view(spans@), 0, h@.len() as int),
    ensures
        r@.len() == spans@.len(),
        forall|k: int|
            0 <= k < r@.len() ==> r@[k].0 == byte_offset(h@, spans@[k].0 as int) && r@[k].1@
                == h@.subrange(spans@[k].0 as int, spans@[k].0 + spans@[k].1),
{
    let table = byte_offset_table(h, total);
    let hl = h.len();
    let mut r: Vec<(usize, String)> = Vec::new();
    let mut k: usize = 0;
    while k < spans.len()
        invariant
            hl == h@.len(),
            k <= spans@.len(),
            spans_within(pair_view(spans@), 0, h@.len() as int),
            table@.len() == h@.len() + 1,
            forall|i: int| 0 <= i <= h@.len() ==> table@[i] == byte_offset(h@, i),
            r@.len() == k,
            forall|j: int|
                0 <= j < k ==> r@[j].0 == byte_offset(h@, spans@[j].0 as int) && r@[j].1@
                    == h@.subrange(spans@[j].0 as int, spans@[j].0 + spans@[j].1),
        decreases spans@.len() - k,
    {
        let (start, len) = spans[k];
        assert(pair_view(spans@)[k as int] == (start as int, len as int));
        assert(0 <= pair_view(spans@)[k as int].0 && pair_view(spans@)[k as int].0
            + pair_view(spans@)[k as int].1 <= h@.len());
        let text = copy_range(h, start, start + len);
        r.push((table[start], string_of(&text)));
        k = k + 1;
    }
    r
}

/// Occurrences of `needle` with trailing line whitespace after each, as
/// `(byte position, matched text)`; a matched span is skipped as a whole.
pub fn find_rstrip_matches(haystack: &str, needle: &str) -> (r: Vec<(usize, String)>)
    requires
        needle@.len() > 0,
    ensures
        r@.len() == rstrip_scan(haystack@, needle@, 0).len(),
        forall|k: int|
            0 <= k < r@.len() ==> r@[k].0 == byte_offset(
                haystack@,
                #[trigger] rstrip_scan(haystack@, needle@, 0)[k].0,
            ) && r@[k].1@ == haystack@.subrange(
                rstrip_scan(haystack@, needle@, 0)[k].0,
                rstrip_scan(haystack@, needle@, 0)[k].0 + rstrip_scan(haystack@, needle@, 0)[k].1,
            ),
{
    let h = chars_of(haystack);
    let n = chars_of(needle);
    let total = haystack.as_bytes().len();
    let spans = rstrip_spans(&h, &n);
    proof {
        lemma_rstrip_scan_within(h@, n@, 0);
    }
    let r = spans_with_text(&h, total, &spans);
    proof {
        assert forall|k: int| 0 <= k < r@.len() implies r@[k].0 == byte_offset(
            haystack@,
            #[trigger] rstrip_scan(haystack@, needle@, 0)[k].0,
        ) && r@[k].1@ == haystack@.subrange(
            rstrip_scan(haystack@, needle@, 0)[k].0,
            rstrip_scan(haystack@, needle@, 0)[k].0 + rstrip_scan(haystack@, needle@, 0)[k].1,
        ) by {
            assert(pair_view(spans@)[k] == rstrip_scan(h@, n@, 0)[k]);
        }
    }
    r
}

/// Occurrences of `needle` with surrounding line whitespace, as
/// `(byte position, matched text)`; each span starts at the whitespace
/// before the occurrence and is skipped as a whole.
pub fn find_trim_matches(haystack: &str, needle: &str) -> (r: Vec<(usize, String)>)
    requires
        needle@.len() > 0,
    ensures
        r@.len() == trim_scan(haystack@, needle@, 0).len(),
        forall|k: int|
            0 <= k < r@.len() ==> r@[k].0 == byte_offset(
                haystack@,
                #[trigger] trim_scan(haystack@, needle@, 0)[k].0,
            ) && r@[k].1@ == haystack@.subrange(
                trim_scan(haystack@, needle@, 0)[k].0,
                trim_scan(haystack@, needle@, 0)[k].0 + trim_scan(haystack@, needle@, 0)[k].1,
            ),
{
    let h = chars_of(haystack);
    let n = chars_of(needle);
    let total = haystack.as_bytes().len();
    let spans = trim_spans(&h, &n);
    proof {
        lemma_trim_scan_within(h@, n@, 0);
    }
    let r = spans_with_text(&h, total, &spans);
    proof {
        assert forall|k: int| 0 <= k < r@.len() implies r@[k].0 == byte_offset(
            haystack@,
            #[trigger] trim_scan(haystack@, needle@, 0)[k].0,
        ) && r@[k].1@ == haystack@.subrange(
            trim_scan(haystack@, needle@, 0)[k].0,
            trim_scan(haystack@, needle@, 0)[k].0 + trim_scan(haystack@, needle@, 0)[k].1,
        ) by {
            assert(pair_view(spans@)[k] == trim_scan(h@, n@, 0)[k]);
        }
    }
    r
}

/// Unicode NFC normalization hook; it currently returns its input unchanged.
pub fn unicode_normalize(s: &str) -> (r: String)
    ensures
        r@ == s@,
{
    let c = chars_of(s);
    string_of(&c)
}

/// Windows at the indices below `i` whose text is `n`: `(byte position, text)`.
pub open spec fn window_matches(h: Seq<char>, n: Seq<char>, i: int, r: Seq<(usize, String)>) -> bool {
    let m = matches_below(h, n, i);
    &&& r.len() == m.len()
    &&& forall|k: int|
        0 <= k < r.len() ==> r[k].0 == byte_offset(h, #[trigger] m[k]) && r[k].1@ == n
}

/// Records the window at `i` when it holds `n`.
fn push_window_match(
    h: &Vec<char>,
    n: &Vec<char>,
    table: &Vec<usize>,
    i: usize,
    r: &mut Vec<(usize, String)>,
)
    requires
        i + n@.len() <= h@.len(),
        table@.len() == h@.len() + 1,
        forall|j: int| 0 <= j <= h@.len() ==> table@[j] == byte_offset(h@, j),
        window_matches(h@, n@, i as int, old(r)@),
    ensures
        window_matches(h@, n@, i + 1, final(r)@),
{
    let hl = h.len();
    if occurs_at(h, n, i) {
        let text = copy_range(h, i, i + n.len());
        r.push((table[i], string_of(&text)));
    }
    proof {
        let prev = matches_below(h@, n@, i as int);
        let cur = matches_below(h@, n@, i + 1);
        assert(r@.len() == cur.len());
        assert forall|k: int| 0 <= k < r@.len() implies r@[k].0 == byte_offset(h@, #[trigger] cur[k])
            && r@[k].1@ == n@ by {
            if k < prev.len() {
                assert(cur[k] == prev[k]);
                assert(r@[k] == old(r)@[k]);
            }
        }
    }
}

/// Every character window of `haystack` whose NFC form equals `needle_nfc`,
/// as `(byte position, window text)`, ascending; windows may overlap. Since
/// the NFC hook is the identity, these are the occurrences of `needle_nfc`.
pub fn find_nfc_matches(haystack: &str, needle_nfc: &str) -> (r: Vec<(usize, String)>)
    requires
        needle_nfc@.len() <= haystack@.len(),
    ensures
        window_matches(
            haystack@,
            needle_nfc@,
            haystack@.len() - needle_nfc@.len() + 1,
            r@,
        ),
{
    let h = chars_of(haystack);
    let n = chars_of(needle_nfc);
    let total = haystack.as_bytes().len();
    let table = byte_offset_table(&h, total);
    let last = h.len() - n.len();
    let mut r: Vec<(usize, String)> = Vec::new();
    let mut i: usize = 0;
    while i < last
        invariant
            last == h@.len() - n@.len(),
            n@.len() <= h@.len(),
            i <= last,
            table@.len() == h@.len() + 1,
            forall|j: int| 0 <= j <= h@.len() ==> table@[j] == byte_offset(h@, j),
            window_matches(h@, n@, i as int, r@),
        decreases last - i,
    {
        push_window_match(&h, &n, &table, i, &mut r);
        i = i + 1;
    }
    push_window_match(&h, &n, &table, last, &mut r);
    r
}

// ── One edit ────────────────────────────────────────────────────────────────

/// A `Result` of strings, viewed as character sequences.
pub open spec fn result_view(r: Result<String, String>) -> Result<Seq<char>, Seq<char>> {
    match r {
        Ok(s) => Ok(s@),
        Err(e) => Err(e@),
    }
}

pub open spec fn after_prev_msg(n: nat) -> Seq<char> {
    "old_text is not unique in the file after previous edits. Found "@ + dec(n)
        + " occurrences. Merge edits that affect the same text."@
}

pub open spec fn not_unique_msg(n: nat) -> Seq<char> {
    "old_text is not unique \u{2014} found "@ + dec(n)
        + " occurrences. Provide more surrounding context to make it unique."@
}

pub open spec fn rstrip_msg(n: nat) -> Seq<char> {
    "old_text (with trailing whitespace stripped) is not unique \u{2014} found "@ + dec(n)
        + " matches. Provide more context."@
}

pub open spec fn trim_msg(n: nat) -> Seq<char> {
    "old_text (with whitespace trimmed) is not unique \u{2014} found "@ + dec(n)
        + " matches. Provide more context."@
}

pub open spec fn nfc_msg(n: nat) -> Seq<char> {
    "old_text (with Unicode NFC normalization) is not unique \u{2014} found "@ + dec(n)
        + " matches. Provide more context."@
}

pub open spec fn not_found_msg() -> Seq<char> {
    "old_text not found in the file. Check that the text matches exactly, including whitespace and indentation."@
}

/// The relaxed matching never ends: `old` is non-empty whitespace with no
/// exact occurrence, so the trailing-whitespace search looks for an empty
/// needle.
pub open spec fn stalls(cur: Seq<char>, old: Seq<char>) -> bool {
    &&& old.len() > 0
    &&& trim_end_seq(old).len() == 0
    &&& match_indices(cur, old).len() == 0
}

/// The outcome of replacing `old` by `new` in `cur` with the fallback levels:
/// exact, trailing whitespace stripped, whitespace trimmed. Uniqueness of an
/// ambiguous exact match is judged against `orig`. (The Unicode level
/// normalizes with the identity and so never applies.)
pub open spec fn replace_outcome(
    cur: Seq<char>,
    orig: Seq<char>,
    old: Seq<char>,
    new: Seq<char>,
) -> Result<Seq<char>, Seq<char>> {
    let m = match_indices(cur, old);
    let rs = trim_end_seq(old);
    let tr = trim_seq(old);
    let rspans = rstrip_scan(cur, rs, 0);
    let tspans = trim_scan(cur, tr, 0);
    if m.len() == 1 {
        Ok(splice(cur, m[0], old.len() as int, new))
    } else if m.len() > 1 {
        if match_indices(orig, old).len() == 1 {
            Err(after_prev_msg(m.len()))
        } else {
            Err(not_unique_msg(m.len()))
        }
    } else if rs != old && rspans.len() == 1 {
        Ok(splice(cur, rspans[0].0, rspans[0].1, new))
    } else if rs != old && rspans.len() > 1 {
        Err(rstrip_msg(rspans.len()))
    } else if tr != old && tr != rs && tspans.len() == 1 {
        Ok(splice(cur, tspans[0].0, tspans[0].1, new))
    } else if tr != old && tr != rs && tspans.len() > 1 {
        Err(trim_msg(tspans.len()))
    } else {
        Err(not_found_msg())
    }
}

/// The span `start..start + len` of `h` holds `n` with nothing but line
/// whitespace before and after it.
pub open spec fn loose_match_at(h: Seq<char>, n: Seq<char>, start: int, len: int) -> bool {
    exists|w: int|
        #![trigger matches_at(h, n, start + w)]
        0 <= w && w + n.len() <= len && matches_at(h, n, start + w) && (forall|q: int|
            start <= q < start + w ==> is_line_ws(#[trigger] h[q])) && (forall|q: int|
            start + w + n.len() <= q < start + len ==> is_line_ws(#[trigger] h[q]))
}

/// The characters of a whitespace run are line whitespace.
pub proof fn lemma_ws_run_chars(h: Seq<char>, p: int)
    ensures
        forall|q: int| p <= q < p + line_ws_run(h, p) ==> is_line_ws(#[trigger] h[q]),
    decreases h.len() - p,
{
    if 0 <= p < h.len() && is_line_ws(h[p]) {
        lemma_ws_run_chars(h, p + 1);
    }
}

/// Every span of the trailing-whitespace search holds the needle followed by
/// line whitespace only.
pub proof fn lemma_rstrip_scan_loose(h: Seq<char>, n: Seq<char>, i: int)
    ensures
        forall|k: int|
            0 <= k < rstrip_scan(h, n, i).len() ==> loose_match_at(
                h,
                n,
                (#[trigger] rstrip_scan(h, n, i)[k]).0,
                rstrip_scan(h, n, i)[k].1,
            ),
    decreases h.len() - i,
{
    if n.len() == 0 || i < 0 || i + n.len() > h.len() {
    } else if matches_at(h, n, i) {
        let len = n.len() + line_ws_run(h, i + n.len());
        lemma_line_ws_run_bound(h, i + n.len());
        lemma_rstrip_scan_loose(h, n, i + len);
        lemma_ws_run_chars(h, i + n.len());
        let rest = rstrip_scan(h, n, i + len);
        let all = rstrip_scan(h, n, i);
        assert forall|k: int| 0 <= k < all.len() implies loose_match_at(h, n, (#[trigger] all[k]).0, all[k].1) by {
            if k > 0 {
                assert(all[k] == rest[k - 1]);
            } else {
                assert(all[0] == (i, len as int));
                assert(matches_at(h, n, i + 0));
            }
        }
    } else {
        lemma_rstrip_scan_loose(h, n, i + 1);
        assert(rstrip_scan(h, n, i) == rstrip_scan(h, n, i + 1));
    }
}

/// Every span of the trimmed search holds the needle with line whitespace
/// only before and after it.
pub proof fn lemma_trim_scan_loose(h: Seq<char>, n: Seq<char>, i: int)
    ensures
        forall|k: int|
            0 <= k < trim_scan(h, n, i).len() ==> loose_match_at(
                h,
                n,
                (#[trigger] trim_scan(h, n, i)[k]).0,
                trim_scan(h, n, i)[k].1,
            ),
    decreases h.len() - i,
{
    if n.len() == 0 || i < 0 || i >= h.len() {
    } else {
        let w = line_ws_run(h, i);
        lemma_line_ws_run_bound(h, i);
        if matches_at(h, n, i + w) {
            let len = w + n.len() + line_ws_run(h, i + w + n.len());
            lemma_line_ws_run_bound(h, i + w + n.len());
            lemma_trim_scan_loose(h, n, i + len);
            lemma_ws_run_chars(h, i);
            lemma_ws_run_chars(h, i + w + n.len());
            let rest = trim_scan(h, n, i + len);
            let all = trim_scan(h, n, i);
            assert forall|k: int| 0 <= k < all.len() implies loose_match_at(h, n, (#[trigger] all[k]).0, all[k].1) by {
                if k > 0 {
                    assert(all[k] == rest[k - 1]);
                } else {
                    assert(all[0] == (i, len as int));
                }
            }
        } else {
            lemma_trim_scan_loose(h, n, i + 1);
            assert(trim_scan(h, n, i) == trim_scan(h, n, i + 1));
        }
    }
}

/// What a replacement replaces: a unique exact occurrence of `old` is
/// replaced in place and two or more are refused; every success replaces one
/// span of the text that is an exact occurrence of `old`, or holds `old`
/// without its trailing whitespace, or `old` trimmed, with nothing but line
/// whitespace around it.
pub proof fn replacement_changes_one_span(cur: Seq<char>, orig: Seq<char>, old: Seq<char>, new: Seq<char>)
    ensures
        match_indices(cur, old).len() == 1 ==> replace_outcome(cur, orig, old, new) == Ok::<Seq<char>, Seq<char>>(
            splice(cur, match_indices(cur, old)[0], old.len() as int, new),
        ),
        match_indices(cur, old).len() >= 2 ==> replace_outcome(cur, orig, old, new) is Err,
        replace_outcome(cur, orig, old, new) matches Ok(r) ==> exists|i: int, l: int|
            #![trigger splice(cur, i, l, new)]
            0 <= i && 0 <= l && i + l <= cur.len() && r == splice(cur, i, l, new) && (
            (l == old.len() && matches_at(cur, old, i)) || loose_match_at(cur, trim_end_seq(old), i, l)
                || loose_match_at(cur, trim_seq(old), i, l)),
{
    let m = match_indices(cur, old);
    let rs = trim_end_seq(old);
    let tr = trim_seq(old);
    if m.len() == 1 {
        lemma_occurrences_facts(cur, old, 0);
        assert(old.len() > 0);
        assert(0 <= m[0] < cur.len() && matches_at(cur, old, m[0]));
        assert(splice(cur, m[0], old.len() as int, new) == splice(cur, m[0], old.len() as int, new));
    } else if m.len() > 1 {
    } else {
        lemma_rstrip_scan_within(cur, rs, 0);
        lemma_trim_scan_within(cur, tr, 0);
        lemma_rstrip_scan_loose(cur, rs, 0);
        lemma_trim_scan_loose(cur, tr, 0);
        let rspans = rstrip_scan(cur, rs, 0);
        let tspans = trim_scan(cur, tr, 0);
        if rs != old && rspans.len() == 1 {
            assert(0 <= rspans[0].0 && 0 < rspans[0].1 && rspans[0].0 + rspans[0].1 <= cur.len());
            assert(loose_match_at(cur, rs, rspans[0].0, rspans[0].1));
            assert(splice(cur, rspans[0].0, rspans[0].1, new) == splice(cur, rspans[0].0, rspans[0].1, new));
        } else if tr != old && tr != rs && tspans.len() == 1 {
            assert(0 <= tspans[0].0 && 0 < tspans[0].1 && tspans[0].0 + tspans[0].1 <= cur.len());
            assert(loose_match_at(cur, tr, tspans[0].0, tspans[0].1));
            assert(splice(cur, tspans[0].0, tspans[0].1, new) == splice(cur, tspans[0].0, tspans[0].1, new));
        }
    }
}

/// A non-empty result of `trim_end_seq` ends in a non-whitespace character.
pub proof fn lemma_trim_end_last(s: Seq<char>)
    ensures
        trim_end_seq(s).len() > 0 ==> !is_ws(trim_end_seq(s).last()),
        trim_end_seq(s).len() <= s.len(),
    decreases s.len(),
{
    if s.len() > 0 && is_ws(s.last()) {
        lemma_trim_end_last(s.drop_last());
    }
}

/// Trimming the start keeps a final non-whitespace character.
pub proof fn lemma_trim_start_nonempty(t: Seq<char>)
    requires
        t.len() > 0,
        !is_ws(t.last()),
    ensures
        trim_start_seq(t).len() > 0,
    decreases t.len(),
{
    if is_ws(t[0]) {
        assert(t.len() > 1);
        assert(t.drop_first().last() == t.last());
        lemma_trim_start_nonempty(t.drop_first());
    }
}

/// Trimming both ends leaves something exactly when trimming the end does.
pub proof fn lemma_trim_nonempty(s: Seq<char>)
    ensures
        trim_end_seq(s).len() > 0 ==> trim_seq(s).len() > 0,
{
    lemma_trim_end_last(s);
    if trim_end_seq(s).len() > 0 {
        lemma_trim_start_nonempty(trim_end_seq(s));
    }
}

fn after_prev_message(n: usize) -> (s: String)
    ensures
        s@ == after_prev_msg(n as nat),
{
    let mut s = String::new();
    push_str(&mut s, "old_text is not unique in the file after previous edits. Found ");
    push_dec(&mut s, n as u64);
    push_str(&mut s, " occurrences. Merge edits that affect the same text.");
    s
}

fn not_unique_message(n: usize) -> (s: String)
    ensures
        s@ == not_unique_msg(n as nat),
{
    let mut s = String::new();
    push_str(&mut s, "old_text is not unique \u{2014} found ");
    push_dec(&mut s, n as u64);
    push_str(&mut s, " occurrences. Provide more surrounding context to make it unique.");
    s
}

fn rstrip_message(n: usize) -> (s: String)
    ensures
        s@ == rstrip_msg(n as nat),
{
    let mut s = String::new();
    push_str(&mut s, "old_text (with trailing whitespace stripped) is not unique \u{2014} found ");
    push_dec(&mut s, n as u64);
    push_str(&mut s, " matches. Provide more context.");
    s
}

fn trim_message(n: usize) -> (s: String)
    ensures
        s@ == trim_msg(n as nat),
{
    let mut s = String::new();
    push_str(&mut s, "old_text (with whitespace trimmed) is not unique \u{2014} found ");
    push_dec(&mut s, n as u64);
    push_str(&mut s, " matches. Provide more context.");
    s
}

fn nfc_message(n: usize) -> (s: String)
    ensures
        s@ == nfc_msg(n as nat),
{
    let mut s = String::new();
    push_str(&mut s, "old_text (with Unicode NFC normalization) is not unique \u{2014} found ");
    push_dec(&mut s, n as u64);
    push_str(&mut s, " matches. Provide more context.");
    s
}

fn not_found_message() -> (s: String)
    ensures
        s@ == not_found_msg(),
{
    let mut s = String::new();
    push_str(&mut s, "old_text not found in the file. Check that the text matches exactly, including whitespace and indentation.");
    s
}

/// Replaces `edit.old_text` by `edit.new_text` in `current` with the fallback
/// levels of `replace_outcome`; `original` decides whether an ambiguous exact
/// match was unique before earlier edits.
pub fn find_and_replace(current: &str, original: &str, edit: &Edit, _idx: usize) -> (r: Result<
    String,
    String,
>)
    requires
        !stalls(current@, edit.old_text@),
    ensures
        result_view(r) == replace_outcome(current@, original@, edit.old_text@, edit.new_text@),
{
    let cur = chars_of(current);
    let old = chars_of(edit.old_text.as_str());
    let new = chars_of(edit.new_text.as_str());
    let m = find_matches(&cur, &old);
    if m.len() == 1 {
        proof {
            if old@.len() > 0 {
                lemma_occurrences_facts(cur@, old@, 0);
            }
            assert(matches_at(cur@, old@, m@[0] as int));
        }
        let out = splice_chars(&cur, m[0], old.len(), &new);
        return Ok(string_of(&out));
    }
    if m.len() > 1 {
        let orig = chars_of(original);
        let om = find_matches(&orig, &old);
        if om.len() == 1 {
            return Err(after_prev_message(m.len()));
        }
        return Err(not_unique_message(m.len()));
    }
    let rs = trim_end_chars(&old);
    let rs_same = chars_eq(&rs, &old);
    if !rs_same {
        let spans = rstrip_spans(&cur, &rs);
        proof {
            lemma_rstrip_scan_within(cur@, rs@, 0);
            assert(pair_view(spans@).len() == spans@.len());
        }
        if spans.len() == 1 {
            let (start, len) = spans[0];
            assert(pair_view(spans@)[0] == (start as int, len as int));
            let out = splice_chars(&cur, start, len, &new);
            return Ok(string_of(&out));
        }
        if spans.len() > 1 {
            return Err(rstrip_message(spans.len()));
        }
    }
    let tr = trim_chars(&old);
    let tr_same = chars_eq(&tr, &old);
    let tr_rs = chars_eq(&tr, &rs);
    if !tr_same && !tr_rs {
        proof {
            lemma_trim_nonempty(old@);
        }
        let spans = trim_spans(&cur, &tr);
        proof {
            lemma_trim_scan_within(cur@, tr@, 0);
            assert(pair_view(spans@).len() == spans@.len());
        }
        if spans.len() == 1 {
            let (start, len) = spans[0];
            assert(pair_view(spans@)[0] == (start as int, len as int));
            let out = splice_chars(&cur, start, len, &new);
            return Ok(string_of(&out));
        }
        if spans.len() > 1 {
            return Err(trim_message(spans.len()));
        }
    }
    let nfc = unicode_normalize(edit.old_text.as_str());
    let nfc_c = chars_of(nfc.as_str());
    if !chars_eq(&nfc_c, &old) && !chars_eq(&nfc_c, &rs) && !chars_eq(&nfc_c, &tr) {
        if nfc_c.len() <= cur.len() {
            let found = find_nfc_matches(current, nfc.as_str());
            if found.len() == 1 {
                return Ok(apply_replace(current, found[0].0, found[0].1.as_str(), edit.new_text.as_str()));
            }
            if found.len() > 1 {
                return Err(nfc_message(found.len()));
            }
        }
    }
    Err(not_found_message())
}

// ── Overlap check ───────────────────────────────────────────────────────────

/// The old texts of `edits`.
pub open spec fn old_texts(edits: Seq<Edit>) -> Seq<Seq<char>> {
    edits.map_values(|e: Edit| e.old_text@)
}

/// The new texts of `edits`.
pub open spec fn new_texts(edits: Seq<Edit>) -> Seq<Seq<char>> {
    edits.map_values(|e: Edit| e.new_text@)
}

/// `(start byte, end byte, edit index)` of each of the first `k` old texts
/// that occurs exactly once in `orig`, in edit order.
pub open spec fn edit_ranges(orig: Seq<char>, olds: Seq<Seq<char>>, k: int) -> Seq<(int, int, int)>
    decreases k,
{
    if k <= 0 {
        Seq::empty()
    } else {
        let prev = edit_ranges(orig, olds, k - 1);
        let m = match_indices(orig, olds[k - 1]);
        if m.len() == 1 {
            let start = byte_offset(orig, m[0]) as int;
            prev.push((start, start + byte_len(olds[k - 1]), k - 1))
        } else {
            prev
        }
    }
}

/// Ranges ordered by start, then by edit index (a stable sort by start).
pub open spec fn range_le(a: (int, int, int), b: (int, int, int)) -> bool {
    ||| a.0 < b.0
    ||| a.0 == b.0 && a.2 < b.2
    ||| a.0 == b.0 && a.2 == b.2 && a.1 <= b.1
}

pub open spec fn range_order() -> spec_fn((int, int, int), (int, int, int)) -> bool {
    |a: (int, int, int), b: (int, int, int)| range_le(a, b)
}

/// The ranges of the uniquely occurring old texts, sorted by start.
pub open spec fn sorted_ranges(orig: Seq<char>, olds: Seq<Seq<char>>) -> Seq<(int, int, int)> {
    edit_ranges(orig, olds, olds.len() as int).sort_by(range_order())
}

/// The first position `j >= i` where range `j` ends after range `j + 1` starts.
pub open spec fn first_overlap(s: Seq<(int, int, int)>, i: int) -> Option<int>
    decreases s.len() - i,
{
    if i < 0 || i + 1 >= s.len() {
        None
    } else if s[i].1 > s[i + 1].0 {
        Some(i)
    } else {
        first_overlap(s, i + 1)
    }
}

pub open spec fn overlap_msg(a: (int, int, int), b: (int, int, int)) -> Seq<char> {
    "Edits "@ + dec(a.2 as nat) + " and "@ + dec(b.2 as nat) + " overlap. Edit "@ + dec(a.2 as nat)
        + " ends at byte "@ + dec(a.1 as nat) + " but edit "@ + dec(b.2 as nat)
        + " starts at byte "@ + dec(b.0 as nat) + ". Merge these edits into a single edit."@
}

/// `Ok` when no two uniquely matched edits overlap in `orig`; otherwise the
/// message for the first overlapping neighbours in start order.
pub open spec fn overlap_outcome(orig: Seq<char>, olds: Seq<Seq<char>>) -> Result<(), Seq<char>> {
    let s = sorted_ranges(orig, olds);
    match first_overlap(s, 0) {
        Some(j) => Err(overlap_msg(s[j], s[j + 1])),
        None => Ok(()),
    }
}

/// Each range of a uniquely occurring old text ends no earlier than it
/// starts, and the ranges come in the order of the edits.
pub proof fn lemma_edit_ranges_wf(orig: Seq<char>, olds: Seq<Seq<char>>, k: int)
    ensures
        forall|i: int|
            0 <= i < edit_ranges(orig, olds, k).len() ==> (#[trigger] edit_ranges(orig, olds, k)[i]).0
                <= edit_ranges(orig, olds, k)[i].1 && edit_ranges(orig, olds, k)[i].2 < k,
        forall|i: int, j: int|
            #![trigger edit_ranges(orig, olds, k)[i], edit_ranges(orig, olds, k)[j]]
            0 <= i < j < edit_ranges(orig, olds, k).len() ==> edit_ranges(orig, olds, k)[i].2
                < edit_ranges(orig, olds, k)[j].2,
    decreases k,
{
    if k > 0 {
        lemma_edit_ranges_wf(orig, olds, k - 1);
        let prev = edit_ranges(orig, olds, k - 1);
        let cur = edit_ranges(orig, olds, k);
        assert forall|i: int| 0 <= i < cur.len() implies (#[trigger] cur[i]).0 <= cur[i].1 && cur[i].2 < k by {
            if i < prev.len() {
                assert(cur[i] == prev[i]);
            }
        }
        assert forall|i: int, j: int| #![trigger cur[i], cur[j]] 0 <= i < j < cur.len() implies cur[i].2 < cur[j].2 by {
            assert(cur[i] == prev[i]);
            if j < prev.len() {
                assert(cur[j] == prev[j]);
            }
        }
    }
}

/// Without an overlap from `i` on, each range ends by the start of the next.
pub proof fn lemma_first_overlap_none(s: Seq<(int, int, int)>, i: int)
    requires
        0 <= i,
        first_overlap(s, i) is None,
    ensures
        forall|j: int| i <= j && j + 1 < s.len() ==> #[trigger] s[j].1 <= s[j + 1].0,
    decreases s.len() - i,
{
    if i + 1 < s.len() {
        lemma_first_overlap_none(s, i + 1);
    }
}

/// Ranges that each end by the start of the next, and end no earlier than
/// they start, end by the start of every later range.
pub proof fn lemma_ranges_chain(s: Seq<(int, int, int)>, i: int, j: int)
    requires
        0 <= i < j < s.len(),
        forall|k: int| 0 <= k && k + 1 < s.len() ==> #[trigger] s[k].1 <= s[k + 1].0,
        forall|k: int| 0 <= k < s.len() ==> (#[trigger] s[k]).0 <= s[k].1,
    ensures
        s[i].1 <= s[j].0,
    decreases j - i,
{
    if j > i + 1 {
        lemma_ranges_chain(s, i, j - 1);
        assert(s[j - 1].0 <= s[j - 1].1);
        assert(s[j - 1].1 <= s[j].0);
    }
}

/// Overlap checking accepts only edits whose unique occurrences in the
/// original text are disjoint: of any two such edits, one ends (in bytes)
/// before or where the other starts.
pub proof fn accepted_edits_do_not_overlap(orig: Seq<char>, olds: Seq<Seq<char>>)
    requires
        overlap_outcome(orig, olds) is Ok,
    ensures
        ({
            let er = edit_ranges(orig, olds, olds.len() as int);
            forall|x: (int, int, int), y: (int, int, int)|
                #![trigger er.contains(x), er.contains(y)]
                er.contains(x) && er.contains(y) && x.2 != y.2 ==> x.1 <= y.0 || y.1 <= x.0
        }),
{
    broadcast use vstd::seq_lib::group_to_multiset_ensures;

    let er = edit_ranges(orig, olds, olds.len() as int);
    let s = sorted_ranges(orig, olds);
    lemma_range_order_total();
    er.lemma_sort_by_ensures(range_order());
    lemma_edit_ranges_wf(orig, olds, olds.len() as int);
    lemma_first_overlap_none(s, 0);
    assert forall|k: int| 0 <= k < s.len() implies (#[trigger] s[k]).0 <= s[k].1 by {
        vstd::seq_lib::to_multiset_contains(s, s[k]);
        vstd::seq_lib::to_multiset_contains(er, s[k]);
        assert(s.contains(s[k]));
    }
    assert forall|x: (int, int, int), y: (int, int, int)|
        #![trigger er.contains(x), er.contains(y)]
        er.contains(x) && er.contains(y) && x.2 != y.2 implies x.1 <= y.0 || y.1 <= x.0 by {
        vstd::seq_lib::to_multiset_contains(s, x);
        vstd::seq_lib::to_multiset_contains(er, x);
        vstd::seq_lib::to_multiset_contains(s, y);
        vstd::seq_lib::to_multiset_contains(er, y);
        let i = choose|i: int| 0 <= i < s.len() && s[i] == x;
        let j = choose|j: int| 0 <= j < s.len() && s[j] == y;
        if i < j {
            lemma_ranges_chain(s, i, j);
        } else if j < i {
            lemma_ranges_chain(s, j, i);
        }
    }
}

/// The range of a uniquely occurring old text is never empty.
pub proof fn lemma_edit_ranges_nonempty(orig: Seq<char>, olds: Seq<Seq<char>>, k: int)
    ensures
        forall|i: int|
            0 <= i < edit_ranges(orig, olds, k).len() ==> (#[trigger] edit_ranges(orig, olds, k)[i]).0
                < edit_ranges(orig, olds, k)[i].1,
    decreases k,
{
    if k > 0 {
        lemma_edit_ranges_nonempty(orig, olds, k - 1);
        let prev = edit_ranges(orig, olds, k - 1);
        let cur = edit_ranges(orig, olds, k);
        lemma_chars_le_bytes(olds[k - 1]);
        assert forall|i: int| 0 <= i < cur.len() implies (#[trigger] cur[i]).0 < cur[i].1 by {
            if i < prev.len() {
                assert(cur[i] == prev[i]);
            } else {
                assert(match_indices(orig, olds[k - 1]).len() == 1);
                assert(olds[k - 1].len() > 0);
            }
        }
    }
}

/// Overlap checking refuses only edits of which two uniquely occurring ones
/// intersect (in bytes) in the original text; with
/// `accepted_edits_do_not_overlap`, it refuses exactly those.
pub proof fn refused_edits_overlap(orig: Seq<char>, olds: Seq<Seq<char>>)
    requires
        overlap_outcome(orig, olds) is Err,
    ensures
        ({
            let er = edit_ranges(orig, olds, olds.len() as int);
            exists|x: (int, int, int), y: (int, int, int)|
                #![trigger er.contains(x), er.contains(y)]
                er.contains(x) && er.contains(y) && x.2 != y.2 && x.0 < y.1 && y.0 < x.1
        }),
{
    broadcast use vstd::seq_lib::group_to_multiset_ensures;

    let er = edit_ranges(orig, olds, olds.len() as int);
    let s = sorted_ranges(orig, olds);
    lemma_range_order_total();
    er.lemma_sort_by_ensures(range_order());
    lemma_edit_ranges_wf(orig, olds, olds.len() as int);
    lemma_edit_ranges_nonempty(orig, olds, olds.len() as int);
    let j = first_overlap(s, 0)->0;
    lemma_first_overlap_bounds(s, 0);
    let x = s[j];
    let y = s[j + 1];
    assert(vstd::relations::sorted_by(s, range_order()));
    assert(range_order()(x, y));
    assert(range_le(x, y));
    vstd::seq_lib::to_multiset_contains(s, x);
    vstd::seq_lib::to_multiset_contains(s, y);
    assert(s.contains(x));
    assert(s.contains(y));
    assert(er.contains(x));
    assert(er.contains(y));
    let ix = choose|i: int| 0 <= i < er.len() && er[i] == x;
    let iy = choose|i: int| 0 <= i < er.len() && er[i] == y;
    assert(x.0 < x.1 && y.0 < y.1);
    assert(er.no_duplicates()) by {
        assert forall|a: int, b: int| 0 <= a < er.len() && 0 <= b < er.len() && a != b implies er[a] != er[b] by {
            if a < b {
                assert(er[a].2 < er[b].2);
            } else {
                assert(er[b].2 < er[a].2);
            }
        }
    }
    er.lemma_multiset_has_no_duplicates();
    s.lemma_multiset_has_no_duplicates_conv();
    assert(x != y);
    if x.2 == y.2 {
        if ix < iy {
            assert(er[ix].2 < er[iy].2);
        } else if iy < ix {
            assert(er[iy].2 < er[ix].2);
        }
    }
}

/// Where an overlap is found, it lies between two ranges of the sequence.
pub proof fn lemma_first_overlap_bounds(s: Seq<(int, int, int)>, i: int)
    requires
        0 <= i,
    ensures
        first_overlap(s, i) matches Some(j) ==> i <= j && j + 1 < s.len() && s[j].1 > s[j + 1].0,
    decreases s.len() - i,
{
    if i + 1 < s.len() && !(s[i].1 > s[i + 1].0) {
        lemma_first_overlap_bounds(s, i + 1);
    }
}

pub open spec fn unit_result_view(r: Result<(), String>) -> Result<(), Seq<char>> {
    match r {
        Ok(()) => Ok(()),
        Err(e) => Err(e@),
    }
}

pub open spec fn triples_view(v: Seq<(usize, usize, usize)>) -> Seq<(int, int, int)> {
    v.map_values(|t: (usize, usize, usize)| (t.0 as int, t.1 as int, t.2 as int))
}

/// The range order is a total order.
pub proof fn lemma_range_order_total()
    ensures
        total_ordering(range_order()),
{
    let r = range_order();
    assert(vstd::relations::reflexive(r));
    assert(vstd::relations::antisymmetric(r)) by {
        assert forall|x: (int, int, int), y: (int, int, int)| #[trigger] r(x, y) && #[trigger] r(
            y,
            x,
        ) implies x == y by {
            assert(x.0 == y.0 && x.1 == y.1 && x.2 == y.2);
        }
    }
    assert(vstd::relations::transitive(r));
    assert(vstd::relations::strongly_connected(r));
}

/// Two sequences sorted by a total order with the same elements are equal.
pub proof fn lemma_sorted_unique(a: Seq<(int, int, int)>, b: Seq<(int, int, int)>)
    requires
        sorted_by(a, range_order()),
        sorted_by(b, range_order()),
        a.to_multiset() == b.to_multiset(),
    ensures
        a == b,
    decreases a.len(),
{
    broadcast use vstd::seq_lib::group_to_multiset_ensures;

    lemma_range_order_total();
    let r = range_order();
    if a.len() == 0 {
        assert(b.to_multiset().len() == 0);
        assert(a =~= b);
    } else {
        vstd::seq_lib::to_multiset_len(a);
        vstd::seq_lib::to_multiset_len(b);
        vstd::seq_lib::to_multiset_contains(a, a[0]);
        vstd::seq_lib::to_multiset_contains(b, a[0]);
        vstd::seq_lib::to_multiset_contains(a, b[0]);
        vstd::seq_lib::to_multiset_contains(b, b[0]);
        assert(b.len() == a.len());
        assert(a.contains(a[0]));
        assert(a.to_multiset().count(a[0]) > 0);
        assert(b.contains(a[0]));
        let j = choose|j: int| 0 <= j < b.len() && b[j] == a[0];
        assert(b.contains(b[0]));
        assert(b.to_multiset().count(b[0]) > 0);
        assert(a.contains(b[0]));
        let i = choose|i: int| 0 <= i < a.len() && a[i] == b[0];
        if j > 0 {
            assert(r(b[0], b[j]));
        }
        if i > 0 {
            assert(r(a[0], a[i]));
        }
        assert(r(b[0], a[0]) && r(a[0], b[0]));
        assert(a[0] == b[0]);
        assert(a.remove(0).to_multiset() == a.to_multiset().remove(a[0]));
        assert(b.remove(0).to_multiset() == b.to_multiset().remove(b[0]));
        assert(a.remove(0) =~= a.drop_first());
        assert(b.remove(0) =~= b.drop_first());
        assert(sorted_by(a.drop_first(), r)) by {
            assert forall|x: int, y: int| 0 <= x < y < a.drop_first().len() implies #[trigger] r(
                a.drop_first()[x],
                a.drop_first()[y],
            ) by {
                assert(r(a[x + 1], a[y + 1]));
            }
        }
        assert(sorted_by(b.drop_first(), r)) by {
            assert forall|x: int, y: int| 0 <= x < y < b.drop_first().len() implies #[trigger] r(
                b.drop_first()[x],
                b.drop_first()[y],
            ) by {
                assert(r(b[x + 1], b[y + 1]));
            }
        }
        lemma_sorted_unique(a.drop_first(), b.drop_first());
        assert(a =~= b) by {
            assert forall|k: int| 0 <= k < a.len() implies a[k] == b[k] by {
                if k > 0 {
                    assert(a[k] == a.drop_first()[k - 1]);
                    assert(b[k] == b.drop_first()[k - 1]);
                }
            }
        }
    }
}

/// `v` sorted by the range order, keeping the elements.
fn sort_ranges(v: &Vec<(usize, usize, usize)>) -> (r: Vec<(usize, usize, usize)>)
    ensures
        sorted_by(triples_view(r@), range_order()),
        triples_view(r@).to_multiset() == triples_view(v@).to_multiset(),
{
    broadcast use vstd::seq_lib::group_to_multiset_ensures;

    proof {
        lemma_range_order_total();
    }
    let mut r: Vec<(usize, usize, usize)> = Vec::new();
    let mut k: usize = 0;
    assert(triples_view(r@) =~= Seq::<(int, int, int)>::empty());
    assert(triples_view(v@).take(0) =~= Seq::<(int, int, int)>::empty());
    while k < v.len()
        invariant
            k <= v@.len(),
            total_ordering(range_order()),
            sorted_by(triples_view(r@), range_order()),
            triples_view(r@).to_multiset() == triples_view(v@).take(k as int).to_multiset(),
        decreases v@.len() - k,
    {
        let x = v[k];
        let ghost tx = (x.0 as int, x.1 as int, x.2 as int);
        let ghost before = triples_view(r@);
        let mut p: usize = 0;
        while p < r.len() && (r[p].0 < x.0 || (r[p].0 == x.0 && r[p].2 < x.2) || (r[p].0 == x.0
            && r[p].2 == x.2 && r[p].1 <= x.1))
            invariant
                p <= r@.len(),
                before == triples_view(r@),
                tx == (x.0 as int, x.1 as int, x.2 as int),
                forall|q: int| 0 <= q < p ==> range_le(#[trigger] before[q], tx),
            decreases r@.len() - p,
        {
            assert(before[p as int] == (r@[p as int].0 as int, r@[p as int].1 as int, r@[p as int].2 as int));
            p = p + 1;
        }
        r.insert(p, x);
        proof {
            let after = triples_view(r@);
            assert(after =~= before.insert(p as int, tx));
            let ro = range_order();
            if p < before.len() {
                assert(!range_le(before[p as int], tx));
                assert(range_le(tx, before[p as int]));
            }
            assert forall|a: int, b: int| 0 <= a < b < after.len() implies #[trigger] ro(
                after[a],
                after[b],
            ) by {
                if b < p {
                    assert(ro(before[a], before[b]));
                } else if b == p {
                    assert(range_le(before[a], tx));
                } else if a < p {
                    assert(ro(before[a], before[b - 1]));
                } else if a == p {
                    if b - 1 > p {
                        assert(ro(before[p as int], before[b - 1]));
                    }
                    assert(ro(tx, before[p as int]));
                } else {
                    assert(ro(before[a - 1], before[b - 1]));
                }
            }
            assert(v@[k as int] == x);
            assert(triples_view(v@)[k as int] == tx);
            assert(triples_view(v@).take(k + 1) =~= triples_view(v@).take(k as int).push(tx));
            vstd::seq_lib::to_multiset_insert(before, p as int, tx);
            vstd::seq_lib::to_multiset_build(triples_view(v@).take(k as int), tx);
            assert(before.insert(p as int, tx).to_multiset() == before.to_multiset().insert(tx));
            assert(triples_view(v@).take(k as int).push(tx).to_multiset() == triples_view(v@).take(
                k as int,
            ).to_multiset().insert(tx));
        }
        k = k + 1;
    }
    assert(triples_view(v@).take(k as int) =~= triples_view(v@));
    r
}

fn overlap_message(a: (usize, usize, usize), b: (usize, usize, usize)) -> (s: String)
    ensures
        s@ == overlap_msg((a.0 as int, a.1 as int, a.2 as int), (b.0 as int, b.1 as int, b.2 as int)),
{
    let mut s = String::new();
    push_str(&mut s, "Edits ");
    push_dec(&mut s, a.2 as u64);
    push_str(&mut s, " and ");
    push_dec(&mut s, b.2 as u64);
    push_str(&mut s, " overlap. Edit ");
    push_dec(&mut s, a.2 as u64);
    push_str(&mut s, " ends at byte ");
    push_dec(&mut s, a.1 as u64);
    push_str(&mut s, " but edit ");
    push_dec(&mut s, b.2 as u64);
    push_str(&mut s, " starts at byte ");
    push_dec(&mut s, b.0 as u64);
    push_str(&mut s, ". Merge these edits into a single edit.");
    s
}

/// Checks that no two edits whose old text occurs exactly once in `original`
/// overlap there; edits that are not unique are left to the replacement step.
pub fn check_overlaps(original: &str, edits: &[Edit]) -> (r: Result<(), String>)
    ensures
        unit_result_view(r) == overlap_outcome(original@, old_texts(edits@)),
{
    let ghost olds = old_texts(edits@);
    let total = original.as_bytes().len();
    let mut ranges: Vec<(usize, usize, usize)> = Vec::new();
    let mut i: usize = 0;
    assert(triples_view(ranges@) =~= Seq::<(int, int, int)>::empty());
    while i < edits.len()
        invariant
            i <= edits@.len(),
            olds == old_texts(edits@),
            total == byte_len(original@),
            triples_view(ranges@) == edit_ranges(original@, olds, i as int),
        decreases edits@.len() - i,
    {
        let old = edits[i].old_text.as_str();
        assert(old@ == olds[i as int]);
        let positions = find_all_positions(original, old);
        if positions.len() == 1 {
            let start = positions[0];
            let ghost m = match_indices(original@, old@);
            proof {
                lemma_occurrences_facts(original@, old@, 0);
                lemma_match_bytes(original@, old@, m[0]);
                crate::text::lemma_byte_offset_end(original@);
                if m[0] + old@.len() < original@.len() {
                    lemma_byte_offset_mono(original@, m[0] + old@.len(), original@.len() as int);
                }
            }
            let end = start + old.as_bytes().len();
            let ghost before = triples_view(ranges@);
            ranges.push((start, end, i));
            assert(triples_view(ranges@) =~= before.push((start as int, end as int, i as int)));
        }
        i = i + 1;
    }
    let sorted = sort_ranges(&ranges);
    let ghost all = edit_ranges(original@, olds, olds.len() as int);
    proof {
        lemma_range_order_total();
        all.lemma_sort_by_ensures(range_order());
        lemma_sorted_unique(triples_view(sorted@), all.sort_by(range_order()));
    }
    let ghost ss = triples_view(sorted@);
    let mut j: usize = 0;
    while sorted.len() - j > 1
        invariant
            ss == triples_view(sorted@),
            ss == sorted_ranges(original@, olds),
            olds == old_texts(edits@),
            j <= ss.len(),
            first_overlap(ss, 0) == first_overlap(ss, j as int),
        decreases ss.len() - j,
    {
        let a = sorted[j];
        let b = sorted[j + 1];
        assert(ss[j as int] == (a.0 as int, a.1 as int, a.2 as int));
        assert(ss[j + 1] == (b.0 as int, b.1 as int, b.2 as int));
        if a.1 > b.0 {
            assert(first_overlap(ss, j as int) == Some(j as int));
            return Err(overlap_message(a, b));
        }
        j = j + 1;
    }
    Ok(())
}

// ── The whole request ───────────────────────────────────────────────────────

pub open spec fn edit_failed_msg(i: nat, e: Seq<char>) -> Seq<char> {
    "[Error]: Edit "@ + dec(i) + " failed: "@ + e
}

/// The content after the first `k` edits are applied in turn, or the message
/// of the first edit that failed.
pub open spec fn run_edits(
    orig: Seq<char>,
    olds: Seq<Seq<char>>,
    news: Seq<Seq<char>>,
    k: int,
) -> Result<Seq<char>, Seq<char>>
    decreases k,
{
    if k <= 0 {
        Ok(orig)
    } else {
        match run_edits(orig, olds, news, k - 1) {
            Err(e) => Err(e),
            Ok(cur) => match replace_outcome(cur, orig, olds[k - 1], news[k - 1]) {
                Ok(next) => Ok(next),
                Err(e) => Err(edit_failed_msg((k - 1) as nat, e)),
            },
        }
    }
}

/// Some edit reached in turn would make the replacement search run forever.
pub open spec fn edits_stall(orig: Seq<char>, olds: Seq<Seq<char>>, news: Seq<Seq<char>>) -> bool {
    exists|k: int|
        0 <= k < olds.len() && (#[trigger] run_edits(orig, olds, news, k) matches Ok(cur) && stalls(
            cur,
            olds[k],
        ))
}

/// The request reaches an edit whose replacement search runs forever.
pub open spec fn edit_request_stalls(orig: Seq<char>, edits: Seq<Edit>) -> bool {
    overlap_outcome(orig, old_texts(edits)) is Ok && edits_stall(
        orig,
        old_texts(edits),
        new_texts(edits),
    )
}

/// `content` with its line endings made those of `orig`.
pub open spec fn restore_line_endings(orig: Seq<char>, content: Seq<char>) -> Seq<char> {
    if has_crlf(orig) {
        lf_to_crlf(crlf_to_lf(content))
    } else {
        crlf_to_lf(content)
    }
}

/// Every `\n` that LF-to-CRLF conversion produces is preceded by `\r`.
pub proof fn lf_to_crlf_leaves_no_bare_lf(y: Seq<char>)
    ensures
        forall|i: int|
            0 <= i < lf_to_crlf(y).len() && #[trigger] lf_to_crlf(y)[i] == '\n' ==> i > 0
                && lf_to_crlf(y)[i - 1] == '\r',
    decreases y.len(),
{
    if y.len() > 0 {
        lf_to_crlf_leaves_no_bare_lf(y.skip(1));
        let rest = lf_to_crlf(y.skip(1));
        if y[0] == '\n' {
            assert(lf_to_crlf(y) == seq!['\r', '\n'] + rest);
            assert forall|i: int| 0 <= i < lf_to_crlf(y).len() && #[trigger] lf_to_crlf(y)[i] == '\n' implies i > 0 && lf_to_crlf(y)[i - 1] == '\r' by {
                if i >= 2 {
                    assert(lf_to_crlf(y)[i] == rest[i - 2]);
                    assert(lf_to_crlf(y)[i - 1] == rest[i - 3] || i == 2);
                }
            }
        } else {
            assert(lf_to_crlf(y) == seq![y[0]] + rest);
            assert forall|i: int| 0 <= i < lf_to_crlf(y).len() && #[trigger] lf_to_crlf(y)[i] == '\n' implies i > 0 && lf_to_crlf(y)[i - 1] == '\r' by {
                if i >= 1 {
                    assert(lf_to_crlf(y)[i] == rest[i - 1]);
                }
            }
        }
    }
}

/// Converting LF to CRLF loses nothing: converting back gives the text again.
pub proof fn crlf_round_trip(y: Seq<char>)
    ensures
        crlf_to_lf(lf_to_crlf(y)) == y,
    decreases y.len(),
{
    if y.len() > 0 {
        crlf_round_trip(y.skip(1));
        let rest = lf_to_crlf(y.skip(1));
        if y[0] == '\n' {
            let t = seq!['\r', '\n'] + rest;
            assert(lf_to_crlf(y) == t);
            assert(t.skip(2) =~= rest);
            assert(crlf_to_lf(t) == seq!['\n'] + crlf_to_lf(rest));
            assert(y =~= seq!['\n'] + y.skip(1));
        } else {
            let t = seq![y[0]] + rest;
            assert(lf_to_crlf(y) == t);
            assert(t.skip(1) =~= rest);
            if y[0] == '\r' && rest.len() > 0 {
                lf_to_crlf_leaves_no_bare_lf(y.skip(1));
                if rest[0] == '\n' {
                    assert(false);
                }
            }
            assert(crlf_to_lf(t) == seq![y[0]] + crlf_to_lf(rest));
            assert(y =~= seq![y[0]] + y.skip(1));
        }
    }
}

/// Restoring CRLF line endings twice gives what restoring once gives.
pub proof fn crlf_restore_idempotent(orig: Seq<char>, content: Seq<char>)
    requires
        has_crlf(orig),
    ensures
        restore_line_endings(orig, restore_line_endings(orig, content)) == restore_line_endings(
            orig,
            content,
        ),
{
    crlf_round_trip(crlf_to_lf(content));
}

/// The new file content for `edits` applied to `orig`, or the error text:
/// overlapping edits are refused first, then the edits are applied in turn
/// (each matched in the current content), then the original line endings
/// are restored.
pub open spec fn edit_outcome(orig: Seq<char>, edits: Seq<Edit>) -> Result<Seq<char>, Seq<char>> {
    match overlap_outcome(orig, old_texts(edits)) {
        Err(m) => Err("[Error]: "@ + m),
        Ok(()) => match run_edits(orig, old_texts(edits), new_texts(edits), edits.len() as int) {
            Err(e) => Err(e),
            Ok(cur) => Ok(restore_line_endings(orig, cur)),
        },
    }
}

/// A failed run of edits reports an error message.
pub proof fn lemma_run_edits_error_prefix(orig: Seq<char>, olds: Seq<Seq<char>>, news: Seq<Seq<char>>, k: int)
    ensures
        run_edits(orig, olds, news, k) matches Err(e) ==> e.len() >= 7 && e.take(7) == "[Error]"@,
    decreases k,
{
    reveal_strlit("[Error]");
    reveal_strlit("[Error]: Edit ");
    if k > 0 {
        lemma_run_edits_error_prefix(orig, olds, news, k - 1);
        match run_edits(orig, olds, news, k - 1) {
            Err(e) => {},
            Ok(cur) => match replace_outcome(cur, orig, olds[k - 1], news[k - 1]) {
                Ok(next) => {},
                Err(e) => {
                    let m = edit_failed_msg((k - 1) as nat, e);
                    assert(m.take(7) =~= "[Error]"@);
                },
            },
        }
    }
}

/// Edits apply all or nothing: when any edit fails, or two uniquely
/// matched edits overlap, no text comes out, and the refusal is a message
/// that starts with `[Error]`.
pub proof fn edits_apply_all_or_nothing(orig: Seq<char>, edits: Seq<Edit>, k: int)
    requires
        0 <= k <= edits.len(),
    ensures
        run_edits(orig, old_texts(edits), new_texts(edits), k) is Err ==> edit_outcome(orig, edits) is Err,
        overlap_outcome(orig, old_texts(edits)) is Err ==> edit_outcome(orig, edits) is Err,
        edit_outcome(orig, edits) matches Err(e) ==> e.len() >= 7 && e.take(7) == "[Error]"@,
{
    reveal_strlit("[Error]");
    reveal_strlit("[Error]: ");
    let olds = old_texts(edits);
    let news = new_texts(edits);
    if run_edits(orig, olds, news, k) is Err {
        lemma_run_edits_failed(orig, olds, news, k, edits.len() as int);
    }
    lemma_run_edits_error_prefix(orig, olds, news, edits.len() as int);
    match overlap_outcome(orig, olds) {
        Err(m) => {
            assert(("[Error]: "@ + m).take(7) =~= "[Error]"@);
        },
        Ok(()) => {},
    }
}

/// Editing a file with CRLF line endings gives text in which every `\n` is
/// preceded by `\r`.
pub proof fn crlf_file_stays_crlf(orig: Seq<char>, edits: Seq<Edit>)
    requires
        has_crlf(orig),
    ensures
        edit_outcome(orig, edits) matches Ok(out) ==> forall|i: int|
            0 <= i < out.len() && #[trigger] out[i] == '\n' ==> i > 0 && out[i - 1] == '\r',
{
    if let Ok(()) = overlap_outcome(orig, old_texts(edits)) {
        if let Ok(cur) = run_edits(orig, old_texts(edits), new_texts(edits), edits.len() as int) {
            lf_to_crlf_leaves_no_bare_lf(crlf_to_lf(cur));
        }
    }
}

/// Once an edit fails, the run stays failed with the same message.
pub proof fn lemma_run_edits_failed(
    orig: Seq<char>,
    olds: Seq<Seq<char>>,
    news: Seq<Seq<char>>,
    k: int,
    l: int,
)
    requires
        k <= l,
        run_edits(orig, olds, news, k) is Err,
    ensures
        run_edits(orig, olds, news, l) == run_edits(orig, olds, news, k),
    decreases l - k,
{
    if k < l {
        lemma_run_edits_failed(orig, olds, news, k, l - 1);
    }
}

/// Whether the replacement search for `old` in `cur` would never end.
fn would_stall(cur: &str, old: &str) -> (b: bool)
    ensures
        b == stalls(cur@, old@),
{
    let o = chars_of(old);
    if o.len() == 0 {
        return false;
    }
    let t = trim_end_chars(&o);
    if t.len() != 0 {
        return false;
    }
    let c = chars_of(cur);
    let m = find_matches(&c, &o);
    m.len() == 0
}

/// Applies the edits in turn, or gives `None` where a replacement search
/// would never end.
fn try_apply_edits(original: &str, edits: &[Edit]) -> (r: Option<Result<String, String>>)
    ensures
        r is None <==> edit_request_stalls(original@, edits@),
        r matches Some(x) ==> result_view(x) == edit_outcome(original@, edits@),
{
    let ghost olds = old_texts(edits@);
    let ghost news = new_texts(edits@);
    match check_overlaps(original, edits) {
        Err(m) => {
            let mut s = String::new();
            push_str(&mut s, "[Error]: ");
            push_str(&mut s, m.as_str());
            return Some(Err(s));
        },
        Ok(()) => {},
    }
    let oc = chars_of(original);
    let mut cur = string_of(&oc);
    let mut i: usize = 0;
    while i < edits.len()
        invariant
            i <= edits@.len(),
            olds == old_texts(edits@),
            news == new_texts(edits@),
            overlap_outcome(original@, olds) is Ok,
            run_edits(original@, olds, news, i as int) == Ok::<Seq<char>, Seq<char>>(cur@),
            forall|k: int|
                0 <= k < i ==> !(#[trigger] run_edits(original@, olds, news, k) matches Ok(c)
                    && stalls(c, olds[k])),
        decreases edits@.len() - i,
    {
        let edit = &edits[i];
        assert(edit.old_text@ == olds[i as int]);
        assert(edit.new_text@ == news[i as int]);
        if would_stall(cur.as_str(), edit.old_text.as_str()) {
            assert(edits_stall(original@, olds, news)) by {
                assert(run_edits(original@, olds, news, i as int) matches Ok(c) && stalls(c, olds[i as int]));
            }
            return None;
        }
        match find_and_replace(cur.as_str(), original, edit, i) {
            Ok(next) => {
                cur = next;
            },
            Err(e) => {
                let mut s = String::new();
                push_str(&mut s, "[Error]: Edit ");
                push_dec(&mut s, i as u64);
                push_str(&mut s, " failed: ");
                push_str(&mut s, e.as_str());
                proof {
                    let ghost fail = run_edits(original@, olds, news, i + 1);
                    assert(fail == Err::<Seq<char>, Seq<char>>(s@));
                    lemma_run_edits_failed(original@, olds, news, i + 1, olds.len() as int);
                    assert forall|k: int| 0 <= k < olds.len() implies !(#[trigger] run_edits(
                        original@,
                        olds,
                        news,
                        k,
                    ) matches Ok(c) && stalls(c, olds[k])) by {
                        if k > i {
                            lemma_run_edits_failed(original@, olds, news, i + 1, k);
                        }
                    }
                }
                return Some(Err(s));
            },
        }
        i = i + 1;
    }
    proof {
        reveal_strlit("\r\n");
        reveal_strlit("\n");
        assert("\r\n"@ =~= seq!['\r', '\n']);
        assert("\n"@.len() == 1);
    }
    let le = detect_line_ending(original);
    let out = normalize_line_endings(cur.as_str(), le);
    assert(out@ == restore_line_endings(original@, cur@));
    Some(Ok(out))
}

/// Applies `edits` to `original`: the new content, or the error text that
/// the edit tool reports.
pub fn apply_edits(original: &str, edits: &[Edit]) -> (r: Result<String, String>)
    requires
        !edit_request_stalls(original@, edits@),
    ensures
        result_view(r) == edit_outcome(original@, edits@),
{
    match try_apply_edits(original, edits) {
        Some(r) => r,
        None => Err(String::new()),
    }
}

/// Whether `apply_edits` would reach an edit whose replacement search never
/// ends.
pub fn edits_would_stall(original: &str, edits: &[Edit]) -> (b: bool)
    ensures
        b == edit_request_stalls(original@, edits@),
{
    try_apply_edits(original, edits).is_none()
}

} // verus!

//! `list_files`: filtering entries by name (excludes and glob patterns),
//! ordering them (directories first, then by name), and the listing text cut
//! to the output budget. Walking the file system is the caller's part.

use vstd::prelude::*;
use vstd::relations::sorted_by;
use std::path::PathBuf;
use crate::text::{
    chars_eq, chars_of, dec, dec_chars, push_char, push_chars, push_dec, push_str, string_of,
    trim_chars, trim_seq, seq_lt, chars_lt, lemma_seq_lt_asym, lemma_seq_lt_trans,
};

verus! {

/// Default cap on the number of entries of one listing.
pub const DEFAULT_LIMIT: usize = 500;

/// Maximum recursion depth of a recursive listing.
pub const MAX_DEPTH: usize = 64;

/// Lists files and directories, with glob filtering and a recursive mode.
pub struct ListFilesTool {
    pub workspace_root: PathBuf,
    /// Entry names to skip.
    pub excludes: Vec<String>,
}

impl ListFilesTool {
    pub fn new(workspace_root: PathBuf) -> (r: Self)
        ensures
            r.workspace_root == workspace_root,
            r.excludes@.len() == 0,
    {
        Self::with_excludes(workspace_root, Vec::new())
    }

    /// A tool that skips entries whose name is one of `excludes`.
    pub fn with_excludes(workspace_root: PathBuf, excludes: Vec<String>) -> (r: Self)
        ensures
            r.workspace_root == workspace_root,
            r.excludes == excludes,
    {
        ListFilesTool { workspace_root, excludes }
    }

    pub fn name(&self) -> (s: &'static str)
        ensures
            s@ == "list_files"@,
    {
        "list_files"
    }

    pub fn description(&self) -> (s: &'static str)
        ensures
            s@ == "List files and directories in a workspace directory. Supports glob pattern filtering (e.g. '*.rs'), optional recursive mode (which respects .gitignore), and a limit on the number of entries returned. Use this to explore project structure, find files by pattern, or understand directory layout."@,
    {
        "List files and directories in a workspace directory. Supports glob pattern filtering (e.g. '*.rs'), optional recursive mode (which respects .gitignore), and a limit on the number of entries returned. Use this to explore project structure, find files by pattern, or understand directory layout."
    }
}

// ── Glob patterns ───────────────────────────────────────────────────────────

/// `p` matches all of `s`: `*` matches any run of characters other than
/// `/`, `?` one character other than `/`, any other character itself.
pub open spec fn glob_matches(p: Seq<char>, s: Seq<char>) -> bool
    decreases p.len() + s.len(),
{
    if p.len() == 0 {
        s.len() == 0
    } else if p[0] == '*' {
        glob_matches(p.drop_first(), s) || (s.len() > 0 && s[0] != '/' && glob_matches(
            p,
            s.drop_first(),
        ))
    } else if p[0] == '?' {
        s.len() > 0 && s[0] != '/' && glob_matches(p.drop_first(), s.drop_first())
    } else {
        s.len() > 0 && s[0] == p[0] && glob_matches(p.drop_first(), s.drop_first())
    }
}

/// `*` matches exactly the names without `/`.
pub proof fn star_matches_names_without_slash(s: Seq<char>)
    ensures
        glob_matches(seq!['*'], s) <==> forall|i: int| 0 <= i < s.len() ==> s[i] != '/',
    decreases s.len(),
{
    let p = seq!['*'];
    assert(p.drop_first() =~= Seq::<char>::empty());
    assert(glob_matches(p, s) == (glob_matches(p.drop_first(), s) || (s.len() > 0 && s[0] != '/'
        && glob_matches(p, s.drop_first()))));
    if s.len() > 0 {
        star_matches_names_without_slash(s.drop_first());
        if forall|i: int| 0 <= i < s.len() ==> s[i] != '/' {
            assert forall|i: int| 0 <= i < s.drop_first().len() implies s.drop_first()[i] != '/' by {
                assert(s.drop_first()[i] == s[i + 1]);
            }
        }
        if glob_matches(p, s) {
            assert forall|i: int| 0 <= i < s.len() implies s[i] != '/' by {
                if i > 0 {
                    assert(s.drop_first()[i - 1] == s[i]);
                }
            }
        }
    }
}

/// One step of the matching table: whether `pi` (a non-empty pattern
/// suffix starting with `c`) matches the name suffix from `t`, given the
/// answers `next` for the pattern suffix after `c` and `cur_after` for `pi`
/// at `t + 1`.
fn glob_step(c: char, s: &Vec<char>, t: usize, next: &Vec<bool>, cur_after: bool) -> (v: bool)
    requires
        t <= s@.len(),
        next@.len() == s@.len() + 1,
    ensures
        v == (if c == '*' {
            next@[t as int] || (t < s@.len() && s@[t as int] != '/' && cur_after)
        } else if c == '?' {
            t < s@.len() && s@[t as int] != '/' && next@[t + 1]
        } else {
            t < s@.len() && s@[t as int] == c && next@[t + 1]
        }),
{
    if c == '*' {
        next[t] || (t < s.len() && s[t] != '/' && cur_after)
    } else if c == '?' {
        t < s.len() && s[t] != '/' && next[t + 1]
    } else {
        t < s.len() && s[t] == c && next[t + 1]
    }
}

/// `n + 1` copies of `v`.
fn filled(n: usize, v: bool) -> (r: Vec<bool>)
    ensures
        r@.len() == n + 1,
        forall|k: int| 0 <= k <= n ==> r@[k] == v,
{
    let mut r: Vec<bool> = Vec::new();
    let mut j: usize = 0;
    while j < n
        invariant
            j <= n,
            r@.len() == j,
            forall|k: int| 0 <= k < j ==> r@[k] == v,
        decreases n - j,
    {
        r.push(v);
        j = j + 1;
    }
    r.push(v);
    r
}

/// Whether `pattern` matches all of `name`.
pub fn glob_match(pattern: &str, name: &str) -> (b: bool)
    ensures
        b == glob_matches(pattern@, name@),
{
    let p = chars_of(pattern);
    let s = chars_of(name);
    let m = p.len();
    let n = s.len();
    // `next[k]`: the pattern suffix from `i` matches the name suffix from `k`.
    let mut next = filled(n, false);
    next.set(n, true);
    proof {
        assert forall|k: int| 0 <= k <= n implies next@[k] == glob_matches(
            p@.skip(m as int),
            #[trigger] s@.skip(k),
        ) by {
            assert(p@.skip(m as int).len() == 0);
            assert(s@.skip(k).len() == n - k);
        }
    }
    let mut i: usize = m;
    while i > 0
        invariant
            i <= m,
            m == p@.len(),
            n == s@.len(),
            next@.len() == n + 1,
            forall|k: int| 0 <= k <= n ==> next@[k] == glob_matches(p@.skip(i as int), #[trigger] s@.skip(k)),
        decreases i,
    {
        let c = p[i - 1];
        let ghost pi = p@.skip(i - 1);
        assert(pi.drop_first() =~= p@.skip(i as int));
        assert(pi[0] == c);
        let mut cur = filled(n, false);
        let last = glob_step(c, &s, n, &next, false);
        proof {
            assert(s@.skip(n as int).len() == 0);
        }
        cur.set(n, last);
        let mut q: usize = n;
        while q > 0
            invariant
                q <= n,
                n == s@.len(),
                next@.len() == n + 1,
                cur@.len() == n + 1,
                pi == p@.skip(i - 1),
                pi.len() > 0,
                pi[0] == c,
                pi.drop_first() == p@.skip(i as int),
                forall|r: int| 0 <= r <= n ==> next@[r] == glob_matches(p@.skip(i as int), #[trigger] s@.skip(r)),
                forall|r: int| q <= r <= n ==> cur@[r] == glob_matches(pi, #[trigger] s@.skip(r)),
            decreases q,
        {
            let t = q - 1;
            let ghost st = s@.skip(t as int);
            proof {
                assert(st.drop_first() =~= s@.skip(t + 1));
                assert(st[0] == s@[t as int]);
                assert(next@[t + 1] == glob_matches(p@.skip(i as int), s@.skip(t + 1)));
                assert(cur@[t + 1] == glob_matches(pi, s@.skip(t + 1)));
                assert(next@[t as int] == glob_matches(p@.skip(i as int), st));
            }
            let v = glob_step(c, &s, t, &next, cur[t + 1]);
            assert(v == glob_matches(pi, st));
            cur.set(t, v);
            q = t;
        }
        next = cur;
        i = i - 1;
    }
    assert(p@.skip(0) =~= p@);
    assert(s@.skip(0) =~= s@);
    next[0]
}

// ── Entries ─────────────────────────────────────────────────────────────────

/// A listed entry: its name relative to the listed directory.
pub struct FileEntry {
    pub name: String,
    pub is_dir: bool,
    pub size: u64,
}

/// Version-control metadata directories, pruned from recursive listings.
pub open spec fn is_vcs_dir(name: Seq<char>) -> bool {
    name == ".git"@ || name == ".hg"@ || name == ".svn"@
}

/// `name` is one of `excludes`.
pub open spec fn excluded(excludes: Seq<String>, name: Seq<char>) -> bool {
    exists|i: int| 0 <= i < excludes.len() && #[trigger] excludes[i]@ == name
}

fn is_excluded(excludes: &Vec<String>, name: &str) -> (b: bool)
    ensures
        b == excluded(excludes@, name@),
{
    let n = chars_of(name);
    let mut i: usize = 0;
    while i < excludes.len()
        invariant
            i <= excludes@.len(),
            n@ == name@,
            forall|k: int| 0 <= k < i ==> excludes@[k]@ != name@,
        decreases excludes@.len() - i,
    {
        if chars_eq(&chars_of(excludes[i].as_str()), &n) {
            return true;
        }
        i = i + 1;
    }
    false
}

/// Whether a directory entry named `file_name` is listed: it is not
/// excluded and, given a pattern, matches it.
pub fn admit_entry(excludes: &Vec<String>, pattern: Option<&str>, file_name: &str) -> (b: bool)
    ensures
        b == (!excluded(excludes@, file_name@) && match pattern {
            Some(p) => glob_matches(p@, file_name@),
            None => true,
        }),
{
    if is_excluded(excludes, file_name) {
        return false;
    }
    match pattern {
        Some(p) => glob_match(p, file_name),
        None => true,
    }
}

/// Whether a recursive walk descends into or lists an entry named `name`:
/// version-control metadata and excluded names are pruned.
pub fn walk_keeps(excludes: &Vec<String>, name: &str) -> (b: bool)
    ensures
        b == (!is_vcs_dir(name@) && !excluded(excludes@, name@)),
{
    let n = chars_of(name);
    let vcs = chars_eq(&n, &chars_of(".git")) || chars_eq(&n, &chars_of(".hg")) || chars_eq(
        &n,
        &chars_of(".svn"),
    );
    !vcs && !is_excluded(excludes, name)
}

// ── Order ───────────────────────────────────────────────────────────────────

/// Listing order: directories first, then by name.
pub open spec fn entry_le(a: (bool, Seq<char>), b: (bool, Seq<char>)) -> bool {
    (a.0 && !b.0) || (a.0 == b.0 && !seq_lt(b.1, a.1))
}

pub open spec fn entry_key(e: FileEntry) -> (bool, Seq<char>) {
    (e.is_dir, e.name@)
}

pub open spec fn entry_keys(v: Seq<FileEntry>) -> Seq<(bool, Seq<char>)> {
    v.map_values(|e: FileEntry| entry_key(e))
}

/// An entry as a plain value: whether it is a directory, its name, its size.
pub open spec fn entry_view(e: FileEntry) -> (bool, Seq<char>, u64) {
    (e.is_dir, e.name@, e.size)
}

pub open spec fn entry_views(v: Seq<FileEntry>) -> Seq<(bool, Seq<char>, u64)> {
    v.map_values(|e: FileEntry| entry_view(e))
}

pub open spec fn entry_order() -> spec_fn((bool, Seq<char>), (bool, Seq<char>)) -> bool {
    |a: (bool, Seq<char>), b: (bool, Seq<char>)| entry_le(a, b)
}

/// `e` may stay before `x` in listing order.
fn comes_before(e: &FileEntry, x: &FileEntry, xn: &Vec<char>) -> (b: bool)
    requires
        xn@ == x.name@,
    ensures
        b == entry_le(entry_key(*e), entry_key(*x)),
{
    (e.is_dir && !x.is_dir) || (e.is_dir == x.is_dir && !chars_lt(xn, &chars_of(e.name.as_str())))
}

/// Moving an element into place: `v` with `x` inserted before the first
/// element that comes after it.
fn sort_entries_insert(v: &mut Vec<FileEntry>, x: FileEntry)
    requires
        sorted_by(entry_keys(old(v)@), entry_order()),
    ensures
        sorted_by(entry_keys(final(v)@), entry_order()),
        entry_keys(final(v)@).to_multiset() == entry_keys(old(v)@).to_multiset().insert(entry_key(x)),
        entry_views(final(v)@).to_multiset() == entry_views(old(v)@).to_multiset().insert(entry_view(x)),
{
    let ghost before = entry_keys(v@);
    let ghost vbefore = entry_views(v@);
    let ghost tx = entry_key(x);
    let xn = chars_of(x.name.as_str());
    let mut p: usize = 0;
    while p < v.len() && comes_before(&v[p], &x, &xn)
        invariant
            p <= v@.len(),
            before == entry_keys(v@),
            tx == entry_key(x),
            xn@ == x.name@,
            forall|q: int| 0 <= q < p ==> entry_le(#[trigger] before[q], tx),
        decreases v@.len() - p,
    {
        assert(before[p as int] == entry_key(v@[p as int]));
        p = p + 1;
    }
    v.insert(p, x);
    proof {
        let after = entry_keys(v@);
        assert(after =~= before.insert(p as int, tx));
        let ro = entry_order();
        assert forall|a: (bool, Seq<char>), b: (bool, Seq<char>), c: (bool, Seq<char>)|
            #[trigger] entry_le(a, b) && #[trigger] entry_le(b, c) implies entry_le(a, c) by {
            if a.0 == b.0 && b.0 == c.0 {
                lemma_seq_lt_asym(b.1, c.1);
                if seq_lt(c.1, a.1) {
                    if b.1 != c.1 {
                        assert(seq_lt(b.1, c.1));
                        lemma_seq_lt_trans(b.1, c.1, a.1);
                    }
                }
            }
        }
        if p < before.len() {
            assert(!entry_le(before[p as int], tx));
            lemma_seq_lt_asym(tx.1, before[p as int].1);
            assert(entry_le(tx, before[p as int]));
        }
        assert forall|a: int, b: int| 0 <= a < b < after.len() implies #[trigger] ro(
            after[a],
            after[b],
        ) by {
            if b < p {
                assert(ro(before[a], before[b]));
            } else if b == p {
                assert(entry_le(before[a], tx));
            } else if a < p {
                assert(ro(before[a], before[b - 1]));
            } else if a == p {
                if b - 1 > p {
                    assert(ro(before[p as int], before[b - 1]));
                }
                assert(entry_le(tx, before[p as int]));
            } else {
                assert(ro(before[a - 1], before[b - 1]));
            }
        }
        vstd::seq_lib::to_multiset_insert(before, p as int, tx);
        assert(entry_views(v@) =~= vbefore.insert(p as int, entry_view(x)));
        vstd::seq_lib::to_multiset_insert(vbefore, p as int, entry_view(x));
    }
}

/// `entries` in listing order: directories first, then by name; the same
/// entries, each with its size.
pub fn sort_entries(entries: Vec<FileEntry>) -> (r: Vec<FileEntry>)
    ensures
        sorted_by(entry_keys(r@), entry_order()),
        entry_views(r@).to_multiset() == entry_views(entries@).to_multiset(),
        entry_keys(r@).to_multiset() == entry_keys(entries@).to_multiset(),
{
    let mut r: Vec<FileEntry> = Vec::new();
    let mut rest = entries;
    let n = rest.len();
    let ghost all = entry_keys(rest@);
    let ghost allv = entry_views(rest@);
    let mut k: usize = 0;
    assert(entry_views(r@).to_multiset() =~= allv.take(0).to_multiset()) by {
        broadcast use vstd::multiset::group_multiset_axioms;
        vstd::seq_lib::to_multiset_len(entry_views(r@));
        vstd::seq_lib::to_multiset_len(allv.take(0));
        assert(entry_views(r@).len() == 0);
        assert(allv.take(0).len() == 0);
    }
    assert(entry_keys(r@) =~= Seq::<(bool, Seq<char>)>::empty());
    assert(all.take(0) =~= Seq::<(bool, Seq<char>)>::empty());
    assert(entry_keys(r@).to_multiset() =~= all.take(0).to_multiset()) by {
        vstd::seq_lib::to_multiset_len(entry_keys(r@));
        vstd::seq_lib::to_multiset_len(all.take(0));
        assert(entry_keys(r@).to_multiset() =~= vstd::multiset::Multiset::empty()) by {
            broadcast use vstd::multiset::group_multiset_axioms;
            assert(entry_keys(r@).len() == 0);
        }
        assert(all.take(0).to_multiset() =~= vstd::multiset::Multiset::empty()) by {
            broadcast use vstd::multiset::group_multiset_axioms;
        }
    }
    while rest.len() > 0
        invariant
            k + rest@.len() == n,
            n == all.len(),
            entry_keys(rest@) == all.skip(k as int),
            sorted_by(entry_keys(r@), entry_order()),
            entry_keys(r@).to_multiset() == all.take(k as int).to_multiset(),
            n == allv.len(),
            entry_views(rest@) == allv.skip(k as int),
            entry_views(r@).to_multiset() == allv.take(k as int).to_multiset(),
        decreases rest@.len(),
    {
        let ghost before = rest@;
        let x = rest.remove(0);
        proof {
            assert(x == before[0]);
            assert(entry_keys(before)[0] == all.skip(k as int)[0]);
            assert(all[k as int] == entry_key(x));
            assert(all.take(k + 1) =~= all.take(k as int).push(entry_key(x)));
            vstd::seq_lib::to_multiset_build(all.take(k as int), entry_key(x));
            assert(entry_views(before)[0] == allv.skip(k as int)[0]);
            assert(allv[k as int] == entry_view(x));
            assert(allv.take(k + 1) =~= allv.take(k as int).push(entry_view(x)));
            vstd::seq_lib::to_multiset_build(allv.take(k as int), entry_view(x));
        }
        sort_entries_insert(&mut r, x);
        assert(rest@ =~= before.drop_first());
        assert(entry_keys(rest@) =~= entry_keys(before).drop_first());
        assert(all.skip(k + 1) =~= all.skip(k as int).drop_first());
        assert(entry_views(rest@) =~= entry_views(before).drop_first());
        assert(allv.skip(k + 1) =~= allv.skip(k as int).drop_first());
        k = k + 1;
    }
    assert(all.take(k as int) =~= all);
    assert(allv.take(k as int) =~= allv);
    r
}

// ── Sizes ───────────────────────────────────────────────────────────────────

/// The unit of a byte count: B, KB, MB or GB (index 0 to 3).
pub open spec fn size_unit(bytes: nat) -> nat {
    if bytes >= 1073741824 {
        3
    } else if bytes >= 1048576 {
        2
    } else if bytes >= 1024 {
        1
    } else {
        0
    }
}

pub open spec fn unit_divisor(k: nat) -> nat {
    if k == 3 {
        1073741824
    } else if k == 2 {
        1048576
    } else if k == 1 {
        1024
    } else {
        1
    }
}

pub open spec fn unit_name(k: nat) -> Seq<char> {
    if k == 3 {
        "GB"@
    } else if k == 2 {
        "MB"@
    } else {
        "KB"@
    }
}

/// `bytes / d` in tenths, rounded to the nearest tenth, ties to even.
pub open spec fn rounded_tenths(bytes: nat, d: nat) -> nat {
    let q = (bytes * 10) / d;
    let r = (bytes * 10) % d;
    if 2 * r > d || (2 * r == d && q % 2 == 1) {
        q + 1
    } else {
        q
    }
}

/// A byte count for people: plain bytes below 1 KB, else the count in the
/// largest unit up to GB with one decimal.
pub open spec fn human_size_text(bytes: nat) -> Seq<char> {
    let k = size_unit(bytes);
    if k == 0 {
        dec(bytes) + " B"@
    } else {
        let t = rounded_tenths(bytes, unit_divisor(k));
        dec(t / 10) + "."@ + dec(t % 10) + " "@ + unit_name(k)
    }
}

/// A byte count for people, e.g. `500 B`, `1.5 KB`, `1.0 MB`.
pub fn human_size(bytes: u64) -> (s: String)
    ensures
        s@ == human_size_text(bytes as nat),
{
    let mut s = String::new();
    let d: u64 = if bytes >= 1073741824 {
        1073741824
    } else if bytes >= 1048576 {
        1048576
    } else if bytes >= 1024 {
        1024
    } else {
        1
    };
    if d == 1 {
        push_dec(&mut s, bytes);
        push_str(&mut s, " B");
        return s;
    }
    let x: u128 = bytes as u128 * 10;
    let q: u128 = x / (d as u128);
    let r: u128 = x % (d as u128);
    let t: u128 = if 2 * r > d as u128 || (2 * r == d as u128 && q % 2 == 1) {
        q + 1
    } else {
        q
    };
    assert(q <= x / 1024) by (nonlinear_arith)
        requires
            q == x / (d as u128),
            d >= 1024,
    ;
    assert(t / 10 <= u64::MAX) by (nonlinear_arith)
        requires
            t <= q + 1,
            q <= x / 1024,
            x <= u64::MAX * 10,
    ;
    push_dec(&mut s, (t / 10) as u64);
    push_str(&mut s, ".");
    push_dec(&mut s, (t % 10) as u64);
    push_str(&mut s, " ");
    if d == 1073741824 {
        push_str(&mut s, "GB");
    } else if d == 1048576 {
        push_str(&mut s, "MB");
    } else {
        push_str(&mut s, "KB");
    }
    s
}

// ── Listing text ────────────────────────────────────────────────────────────

/// The line of one entry: directories get a slash, files their size.
pub open spec fn entry_line(e: FileEntry) -> Seq<char> {
    if e.is_dir {
        "  "@ + e.name@ + "/"@ + "\n"@
    } else {
        "  "@ + e.name@ + " ("@ + human_size_text(e.size as nat) + ")"@ + "\n"@
    }
}

/// The lines of entries `0..k`.
pub open spec fn entry_lines(v: Seq<FileEntry>, k: int) -> Seq<char>
    decreases k,
{
    if k <= 0 {
        Seq::empty()
    } else {
        entry_lines(v, k - 1) + entry_line(v[k - 1])
    }
}

/// The number of directories among entries `0..k`.
pub open spec fn dir_count(v: Seq<FileEntry>, k: int) -> nat
    decreases k,
{
    if k <= 0 {
        0
    } else {
        dir_count(v, k - 1) + if v[k - 1].is_dir {
            1nat
        } else {
            0nat
        }
    }
}

/// The directories counted among the first `k` entries, with the files
/// among them, make up all `k` entries.
pub proof fn counts_add_up(v: Seq<FileEntry>, k: int)
    requires
        0 <= k <= v.len(),
    ensures
        dir_count(v, k) <= k,
        dir_count(v, k) == Set::new(|i: int| 0 <= i < k && v[i].is_dir).len(),
    decreases k,
{
    let s = Set::new(|i: int| 0 <= i < k && v[i].is_dir);
    if k > 0 {
        counts_add_up(v, k - 1);
        let p = Set::new(|i: int| 0 <= i < k - 1 && v[i].is_dir);
        vstd::set_lib::lemma_int_range(0, k - 1);
        assert(p.subset_of(vstd::set_lib::set_int_range(0, k - 1)));
        vstd::set_lib::lemma_len_subset(p, vstd::set_lib::set_int_range(0, k - 1));
        if v[k - 1].is_dir {
            assert(s =~= p.insert(k - 1));
        } else {
            assert(s =~= p);
        }
    } else {
        assert(s =~= Set::empty());
    }
}

/// With no excluded names, no name is excluded: the tool made with an
/// empty exclusion list behaves as the plain one.
pub proof fn empty_excludes_exclude_nothing(name: Seq<char>)
    ensures
        !excluded(Seq::<String>::empty(), name),
{
}

pub open spec fn listing_header(path: Seq<char>, files: nat, dirs: nat) -> Seq<char> {
    "Listing '"@ + path + "' ("@ + dec(files) + " files, "@ + dec(dirs) + " dirs):\n"@
}

pub open spec fn listing_marker() -> Seq<char> {
    "...(truncated)\n"@
}

/// How many entry lines, from `j` on, fit next to `header` and the marker
/// within `budget`.
pub open spec fn listed_from(v: Seq<FileEntry>, j: int, header: Seq<char>, budget: Option<usize>) -> nat
    decreases v.len() - j,
{
    if j < 0 || j >= v.len() {
        v.len()
    } else {
        match budget {
            None => listed_from(v, j + 1, header, budget),
            Some(max) => if header.len() + entry_lines(v, j).len() + entry_line(v[j]).len()
                + listing_marker().len() > max {
                j as nat
            } else {
                listed_from(v, j + 1, header, budget)
            },
        }
    }
}

/// `s` without one final `\n`.
pub open spec fn drop_final_newline(s: Seq<char>) -> Seq<char> {
    if s.len() > 0 && s.last() == '\n' {
        s.drop_last()
    } else {
        s
    }
}

proof fn lemma_listed_bound(v: Seq<FileEntry>, j: int, header: Seq<char>, budget: Option<usize>)
    requires
        0 <= j,
    ensures
        listed_from(v, j, header, budget) <= v.len(),
    decreases v.len() - j,
{
    if j < v.len() {
        lemma_listed_bound(v, j + 1, header, budget);
    }
}

proof fn lemma_dir_count_filters(v: Seq<FileEntry>, k: int)
    requires
        0 <= k <= v.len(),
    ensures
        dir_count(v, k) == v.take(k).filter(|e: FileEntry| e.is_dir).len(),
        k - dir_count(v, k) == v.take(k).filter(|e: FileEntry| !e.is_dir).len(),
    decreases k,
{
    reveal(Seq::filter);
    if k > 0 {
        lemma_dir_count_filters(v, k - 1);
        assert(v.take(k).drop_last() =~= v.take(k - 1));
        assert(v.take(k).last() == v[k - 1]);
    } else {
        assert(v.take(0) =~= Seq::<FileEntry>::empty());
    }
}

/// A listing of entries opens with the path and two counts: before
/// ` files` the number of entries that are not directories, before ` dirs`
/// the number that are.
pub proof fn listing_counts_files_and_dirs(
    path: Seq<char>,
    v: Seq<FileEntry>,
    has_pattern: bool,
    budget: Option<usize>,
    limit_reached: bool,
    limit: usize,
)
    requires
        v.len() > 0,
    ensures
        ({
            let nf = v.filter(|e: FileEntry| !e.is_dir).len();
            let nd = v.filter(|e: FileEntry| e.is_dir).len();
            let head = "Listing '"@ + path + "' ("@ + dec(nf) + " files, "@ + dec(nd) + " dirs):\n"@;
            let t = listing_text(path, v, has_pattern, budget, limit_reached, limit);
            &&& nf + nd == v.len()
            &&& head.len() <= t.len()
            &&& t.take(head.len() as int) == head
        }),
{
    reveal_strlit("\n");
    reveal_strlit("...(truncated)\n");
    lemma_dir_count_filters(v, v.len() as int);
    assert(v.take(v.len() as int) =~= v);
    let dirs = dir_count(v, v.len() as int);
    let header = listing_header(path, (v.len() - dirs) as nat, dirs);
    let shown = listed_from(v, 0, header, budget);
    lemma_listed_bound(v, 0, header, budget);
    let tail = entry_lines(v, shown as int) + if shown < v.len() {
        listing_marker()
    } else {
        Seq::empty()
    };
    if shown < v.len() {
        assert(tail.len() > 0);
    } else {
        assert(entry_lines(v, shown as int) == entry_lines(v, shown - 1) + entry_line(v[shown - 1]));
        assert(tail.len() > 0);
    }
    let summary = header + tail;
    assert(drop_final_newline(summary) =~= header + drop_final_newline(tail));
    let t = listing_text(path, v, has_pattern, budget, limit_reached, limit);
    assert(t.take(header.len() as int) =~= header);
}

/// The text of a listing of `v` (in the given order) for `path`.
pub open spec fn listing_text(
    path: Seq<char>,
    v: Seq<FileEntry>,
    has_pattern: bool,
    budget: Option<usize>,
    limit_reached: bool,
    limit: usize,
) -> Seq<char> {
    if v.len() == 0 {
        if has_pattern {
            "Directory '"@ + path + "' is empty or no entries match the pattern."@
        } else {
            "Directory '"@ + path + "' is empty."@
        }
    } else {
        let dirs = dir_count(v, v.len() as int);
        let header = listing_header(path, (v.len() - dirs) as nat, dirs);
        let shown = listed_from(v, 0, header, budget);
        let summary = header + entry_lines(v, shown as int) + if shown < v.len() {
            listing_marker()
        } else {
            Seq::empty()
        };
        let doubled = if limit * 2 > usize::MAX {
            usize::MAX as nat
        } else {
            (limit * 2) as nat
        };
        drop_final_newline(summary) + if limit_reached {
            "\n\n["@ + dec(limit as nat) + " entries limit reached. use limit="@ + dec(doubled)
                + " for more, or narrow path/pattern]"@
        } else {
            Seq::empty()
        }
    }
}

fn entry_line_chars(e: &FileEntry) -> (r: Vec<char>)
    ensures
        r@ == entry_line(*e),
{
    let mut s = String::new();
    push_str(&mut s, "  ");
    push_str(&mut s, e.name.as_str());
    if e.is_dir {
        push_str(&mut s, "/");
    } else {
        push_str(&mut s, " (");
        let h = human_size(e.size);
        push_str(&mut s, h.as_str());
        push_str(&mut s, ")");
    }
    push_str(&mut s, "\n");
    chars_of(s.as_str())
}

fn count_dirs(entries: &Vec<FileEntry>) -> (d: usize)
    ensures
        d == dir_count(entries@, entries@.len() as int),
        d <= entries@.len(),
{
    let n = entries.len();
    let mut dirs: usize = 0;
    let mut k: usize = 0;
    while k < n
        invariant
            n == entries@.len(),
            k <= n,
            dirs == dir_count(entries@, k as int),
            dirs <= k,
        decreases n - k,
    {
        if entries[k].is_dir {
            dirs = dirs + 1;
        }
        k = k + 1;
    }
    dirs
}

/// Appends to `summary` (which holds the header) the entry lines that fit
/// the budget, and the marker when some were left out.
fn push_entry_lines(summary: &mut String, entries: &Vec<FileEntry>, max_output_chars: Option<usize>)
    ensures
        final(summary)@ == old(summary)@ + entry_lines(
            entries@,
            listed_from(entries@, 0, old(summary)@, max_output_chars) as int,
        ) + if listed_from(entries@, 0, old(summary)@, max_output_chars) < entries@.len() {
            listing_marker()
        } else {
            Seq::empty()
        },
{
    let ghost header = summary@;
    let n = entries.len();
    let header_len = chars_of(summary.as_str()).len();
    let mut used: u128 = header_len as u128;
    let mut j: usize = 0;
    let mut truncated = false;
    proof {
        reveal_strlit("...(truncated)\n");
    }
    while j < n
        invariant_except_break
            !truncated,
        invariant
            n == entries@.len(),
            j <= n,
            header.len() == header_len,
            summary@ == header + entry_lines(entries@, j as int),
            listing_marker().len() == 15,
            max_output_chars matches Some(max) ==> used == summary@.len() && used <= usize::MAX,
            listed_from(entries@, 0, header, max_output_chars) == listed_from(
                entries@,
                j as int,
                header,
                max_output_chars,
            ),
        ensures
            truncated ==> j < n && listed_from(entries@, 0, header, max_output_chars) == j,
            !truncated ==> j == n && listed_from(entries@, 0, header, max_output_chars) == n,
            summary@ == header + entry_lines(entries@, j as int),
        decreases n - j,
    {
        let line = entry_line_chars(&entries[j]);
        match max_output_chars {
            Some(max) => {
                if used + line.len() as u128 + 15 > max as u128 {
                    truncated = true;
                    break;
                }
                used = used + line.len() as u128;
            },
            None => {},
        }
        push_chars(summary, &line);
        j = j + 1;
    }
    if truncated {
        push_str(summary, "...(truncated)\n");
    }
}

/// The summary of a non-empty listing: header, the entry lines that fit the
/// budget and the marker when some were cut.
fn listing_summary(path: &str, entries: &Vec<FileEntry>, max_output_chars: Option<usize>) -> (r: String)
    requires
        entries@.len() > 0,
    ensures
        ({
            let v = entries@;
            let dirs = dir_count(v, v.len() as int);
            let header = listing_header(path@, (v.len() - dirs) as nat, dirs);
            let shown = listed_from(v, 0, header, max_output_chars);
            r@ == header + entry_lines(v, shown as int) + if shown < v.len() {
                listing_marker()
            } else {
                Seq::empty()
            }
        }),
{
    let n = entries.len();
    let dirs = count_dirs(entries);
    let mut summary = String::new();
    push_str(&mut summary, "Listing '");
    push_str(&mut summary, path);
    push_str(&mut summary, "' (");
    push_dec(&mut summary, (n - dirs) as u64);
    push_str(&mut summary, " files, ");
    push_dec(&mut summary, dirs as u64);
    push_str(&mut summary, " dirs):\n");
    assert(summary@ =~= listing_header(path@, (n - dirs) as nat, dirs as nat));
    push_entry_lines(&mut summary, entries, max_output_chars);
    summary
}

/// Appends the notice that the entry limit `limit` was reached.
fn push_limit_notice(out: &mut String, limit: usize)
    ensures
        ({
            let doubled = if limit * 2 > usize::MAX {
                usize::MAX as nat
            } else {
                (limit * 2) as nat
            };
            final(out)@ == old(out)@ + "\n\n["@ + dec(limit as nat) + " entries limit reached. use limit="@
                + dec(doubled) + " for more, or narrow path/pattern]"@
        }),
{
    push_str(out, "\n\n[");
    push_dec(out, limit as u64);
    push_str(out, " entries limit reached. use limit=");
    let doubled: usize = if limit > usize::MAX / 2 {
        usize::MAX
    } else {
        limit * 2
    };
    push_dec(out, doubled as u64);
    push_str(out, " for more, or narrow path/pattern]");
}

/// The listing text of `entries` (already in listing order) for `path`,
/// cut to `max_output_chars` characters where set, with a hint when the
/// entry cap `limit` was reached.
pub fn format_listing(
    path: &str,
    entries: &Vec<FileEntry>,
    has_pattern: bool,
    max_output_chars: Option<usize>,
    limit_reached: bool,
    limit: usize,
) -> (r: String)
    ensures
        r@ == listing_text(path@, entries@, has_pattern, max_output_chars, limit_reached, limit),
{
    let mut out = String::new();
    if entries.len() == 0 {
        push_str(&mut out, "Directory '");
        push_str(&mut out, path);
        if has_pattern {
            push_str(&mut out, "' is empty or no entries match the pattern.");
        } else {
            push_str(&mut out, "' is empty.");
        }
        return out;
    }
    let summary = listing_summary(path, entries, max_output_chars);
    let sc = chars_of(summary.as_str());
    let cut = if sc.len() > 0 && sc[sc.len() - 1] == '\n' {
        sc.len() - 1
    } else {
        sc.len()
    };
    let body = crate::text::copy_range(&sc, 0, cut);
    assert(body@ =~= drop_final_newline(summary@));
    push_chars(&mut out, &body);
    if limit_reached {
        push_limit_notice(&mut out, limit);
    }
    out
}

/// The directory argument: trimmed, `.` when missing or empty.
pub fn listing_path(raw: Option<&str>) -> (p: String)
    ensures
        p@ == (match raw {
            Some(s) => if trim_seq(s@).len() > 0 {
                trim_seq(s@)
            } else {
                "."@
            },
            None => "."@,
        }),
{
    match raw {
        Some(s) => {
            let t = trim_chars(&chars_of(s));
            if t.len() > 0 {
                string_of(&t)
            } else {
                string_of(&chars_of("."))
            }
        },
        None => string_of(&chars_of(".")),
    }
}

/// The pattern argument: trimmed, absent when missing or empty.
pub fn listing_pattern(raw: Option<&str>) -> (p: Option<String>)
    ensures
        p == (match raw {
            Some(s) => if trim_seq(s@).len() > 0 {
                Some(p->0)
            } else {
                None
            },
            None => None::<String>,
        }),
        p matches Some(q) ==> q@ == trim_seq(raw.unwrap()@),
{
    match raw {
        Some(s) => {
            let t = trim_chars(&chars_of(s));
            if t.len() > 0 {
                Some(string_of(&t))
            } else {
                None
            }
        },
        None => None,
    }
}

/// The entry cap: `DEFAULT_LIMIT` unless a positive one is given.
pub fn listing_limit(raw: Option<usize>) -> (n: usize)
    ensures
        n == (match raw {
            Some(v) => if v > 0 {
                v
            } else {
                DEFAULT_LIMIT
            },
            None => DEFAULT_LIMIT,
        }),
{
    match raw {
        Some(v) => if v > 0 {
            v
        } else {
            DEFAULT_LIMIT
        },
        None => DEFAULT_LIMIT,
    }
}

} // verus!

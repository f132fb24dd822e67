//! The activity ledger: a deterministic handoff extracted from the outgoing
//! window's messages. Work tool calls become short ledger lines (repeated
//! ones once, the most recent kept), context-management calls are left out,
//! and the last assistant narration tells where the work stopped.

use vstd::prelude::*;
use crate::context_rotation::message::{Message, ToolCall};
use crate::text::{
    chars_eq, chars_of, dec, is_whitespace, is_ws, opt_view, opt_views, push_char, push_chars, push_dec,
    push_str, string_of,
};

verus! {

/// Distinct actions kept (the most recent ones).
pub const MAX_ENTRIES: usize = 30;

/// Characters kept of one ledger line.
pub const MAX_ENTRY_CHARS: usize = 80;

/// Characters kept of the last narration.
pub const MAX_NARRATION_CHARS: usize = 200;

/// Characters kept of the whole ledger.
pub const MAX_LEDGER_CHARS: usize = 1200;

// ── JSON arguments ──────────────────────────────────────────────────────────

/// `json` parses as a JSON value.
pub uninterp spec fn json_parses(json: Seq<char>) -> bool;

/// The string at `key` of the JSON object `json`, if there is one.
pub uninterp spec fn json_string_field(json: Seq<char>, key: Seq<char>) -> Option<Seq<char>>;

/// The unsigned integer at `key` of the JSON object `json`, if there is one.
pub uninterp spec fn json_u64_field(json: Seq<char>, key: Seq<char>) -> Option<u64>;

/// The values of the JSON object `json` in the order of their keys (the
/// map keeps its keys sorted), each as its string where it is a string;
/// empty where `json` is not an object.
pub uninterp spec fn json_object_strings(json: Seq<char>) -> Seq<Option<Seq<char>>>;

/// Whether `json` parses (`serde_json::from_str::<Value>`).
#[verifier::external_body]
fn parses(json: &str) -> (b: bool)
    ensures
        b == json_parses(json@),
{
    serde_json::from_str::<serde_json::Value>(json).is_ok()
}

/// The string at `key` of the parsed `json` (`Value::get`, `Value::as_str`).
#[verifier::external_body]
fn string_field(json: &str, key: &str) -> (r: Option<String>)
    ensures
        r matches Some(s) ==> json_string_field(json@, key@) == Some(s@),
        r is None ==> json_string_field(json@, key@) is None,
{
    match serde_json::from_str::<serde_json::Value>(json) {
        Ok(v) => v.get(key).and_then(|x| x.as_str()).map(|s| s.to_string()),
        Err(_) => None,
    }
}

/// The unsigned integer at `key` of the parsed `json` (`Value::get`,
/// `Value::as_u64`).
#[verifier::external_body]
fn u64_field(json: &str, key: &str) -> (r: Option<u64>)
    ensures
        r == json_u64_field(json@, key@),
{
    match serde_json::from_str::<serde_json::Value>(json) {
        Ok(v) => v.get(key).and_then(|x| x.as_u64()),
        Err(_) => None,
    }
}

/// The values of the parsed object `json` in key order, each as its
/// string where it is one (`Value::as_object`, `Map::values`,
/// `Value::as_str`); empty where `json` is not an object.
#[verifier::external_body]
fn object_string_values(json: &str) -> (r: Vec<Option<String>>)
    ensures
        opt_views(r@) == json_object_strings(json@),
{
    match serde_json::from_str::<serde_json::Value>(json) {
        Ok(v) => v
            .as_object()
            .map(|o| o.values().map(|x| x.as_str().map(|t| t.to_string())).collect())
            .unwrap_or_default(),
        Err(_) => Vec::new(),
    }
}

/// The first present string of `values`.
pub open spec fn first_present(values: Seq<Option<Seq<char>>>) -> Option<Seq<char>>
    decreases values.len(),
{
    if values.len() == 0 {
        None
    } else if values[0] is Some {
        values[0]
    } else {
        first_present(values.drop_first())
    }
}

/// The first of `values` that is a string, skipping the others.
pub fn first_string_of(values: &Vec<Option<String>>) -> (r: Option<String>)
    ensures
        opt_view(r) == first_present(opt_views(values@)),
{
    let mut i: usize = 0;
    assert(opt_views(values@).skip(0) =~= opt_views(values@));
    while i < values.len()
        invariant
            i <= values@.len(),
            first_present(opt_views(values@)) == first_present(opt_views(values@).skip(i as int)),
        decreases values@.len() - i,
    {
        let ghost rest = opt_views(values@).skip(i as int);
        assert(rest[0] == opt_view(values@[i as int]));
        match &values[i] {
            Some(v) => {
                return Some(v.clone());
            },
            None => {},
        }
        assert(rest.drop_first() =~= opt_views(values@).skip(i + 1));
        i = i + 1;
    }
    assert(opt_views(values@).skip(i as int).len() == 0);
    None
}

// ── Text shaping ────────────────────────────────────────────────────────────

/// Index of the first whitespace character at or after `i`, or the end.
pub open spec fn word_end(s: Seq<char>, i: int) -> int
    decreases s.len() - i,
{
    if i >= s.len() || is_ws(s[i]) {
        if i >= s.len() { s.len() as int } else { i }
    } else {
        word_end(s, i + 1)
    }
}

/// Index of the first non-whitespace character at or after `i`, or the end.
pub open spec fn word_start(s: Seq<char>, i: int) -> int
    decreases s.len() - i,
{
    if i >= s.len() {
        s.len() as int
    } else if !is_ws(s[i]) {
        i
    } else {
        word_start(s, i + 1)
    }
}

pub proof fn lemma_word_bounds(s: Seq<char>, i: int)
    requires
        0 <= i <= s.len(),
    ensures
        i <= word_start(s, i) <= s.len(),
        i <= word_end(s, i) <= s.len(),
        word_start(s, i) < s.len() ==> word_start(s, i) < word_end(s, word_start(s, i)),
    decreases s.len() - i,
{
    if i < s.len() {
        lemma_word_bounds(s, i + 1);
        if !is_ws(s[i]) {
            assert(word_end(s, i) == word_end(s, i + 1));
        }
    }
}

/// The whitespace-separated words of `s` from index `i` on.
pub open spec fn words_from(s: Seq<char>, i: int) -> Seq<Seq<char>>
    decreases s.len() - i,
{
    if i < 0 || i > s.len() {
        Seq::empty()
    } else {
        let j = word_start(s, i);
        proof {
            lemma_word_bounds(s, i);
        }
        if j >= s.len() {
            Seq::empty()
        } else {
            let e = word_end(s, j);
            proof {
                lemma_word_bounds(s, j);
            }
            seq![s.subrange(j, e)] + words_from(s, e)
        }
    }
}

/// Words joined by single spaces.
pub open spec fn join_words(w: Seq<Seq<char>>) -> Seq<char>
    decreases w.len(),
{
    if w.len() == 0 {
        Seq::empty()
    } else if w.len() == 1 {
        w[0]
    } else {
        w[0] + " "@ + join_words(w.drop_first())
    }
}

/// `s` on one line: its words joined by single spaces.
pub open spec fn one_line_text(s: Seq<char>) -> Seq<char> {
    join_words(words_from(s, 0))
}

/// `s` cut to `max` characters, the cut marked by `...`.
pub open spec fn truncated_chars(s: Seq<char>, max: nat) -> Seq<char> {
    if s.len() <= max {
        s
    } else {
        s.take(if max >= 3 { max - 3 } else { 0 }) + "..."@
    }
}

/// `s` on one line: whitespace runs collapsed to single spaces, none at
/// either end.
pub fn one_line(s: &str) -> (r: String)
    ensures
        r@ == one_line_text(s@),
{
    let c = chars_of(s);
    let n = c.len();
    let mut out = String::new();
    let mut started = false;
    let mut i: usize = 0;
    assert(s@.len() == n);
    while i < n
        invariant
            started == (out@.len() > 0),
            n == c@.len(),
            c@ == s@,
            i <= n,
            one_line_text(s@) == out@ + (if out@.len() > 0 && words_from(s@, i as int).len() > 0 {
                " "@
            } else {
                Seq::empty()
            }) + join_words(words_from(s@, i as int)),
            out@.len() == 0 ==> words_from(s@, 0) == words_from(s@, i as int),
        decreases n - i,
    {
        let ghost wi = words_from(s@, i as int);
        let mut j: usize = i;
        while j < n && is_whitespace(c[j])
            invariant
                i <= j <= n,
                n == c@.len(),
                c@ == s@,
                word_start(s@, i as int) == word_start(s@, j as int),
            decreases n - j,
        {
            j = j + 1;
        }
        if j == n {
            proof {
                lemma_word_bounds(s@, i as int);
                assert(wi.len() == 0);
                assert(words_from(s@, n as int) == Seq::<Seq<char>>::empty()) by {
                    assert(word_start(s@, n as int) == n);
                }
            }
            i = n;
        } else {
            let mut e: usize = j;
            while e < n && !is_whitespace(c[e])
                invariant
                    j <= e <= n,
                    n == c@.len(),
                    c@ == s@,
                    word_end(s@, j as int) == word_end(s@, e as int),
                decreases n - e,
            {
                e = e + 1;
            }
            proof {
                lemma_word_bounds(s@, i as int);
                lemma_word_bounds(s@, j as int);
                assert(word_start(s@, j as int) == j);
                assert(wi == seq![s@.subrange(j as int, e as int)] + words_from(s@, e as int));
                assert(wi.drop_first() =~= words_from(s@, e as int));
            }
            let ghost before = out@;
            if started {
                push_char(&mut out, ' ');
            }
            started = true;
            let w = crate::text::copy_range(&c, j, e);
            push_chars(&mut out, &w);
            proof {
                let rest = words_from(s@, e as int);
                reveal_strlit(" ");
                assert(w@ == wi[0]);
                assert(w@.len() > 0);
                assert(out@.len() > 0);
                if before.len() > 0 {
                    assert(out@ =~= before + " "@ + w@);
                } else {
                    assert(out@ =~= w@);
                }
                if rest.len() == 0 {
                    assert(join_words(wi) == wi[0]);
                } else {
                    assert(join_words(wi) == wi[0] + " "@ + join_words(rest));
                }
                assert(one_line_text(s@) =~= out@ + (if out@.len() > 0 && rest.len() > 0 {
                    " "@
                } else {
                    Seq::empty()
                }) + join_words(rest));
            }
            i = e;
        }
    }
    proof {
        assert(words_from(s@, n as int) == Seq::<Seq<char>>::empty()) by {
            assert(word_start(s@, n as int) == n);
        }
        assert(one_line_text(s@) =~= out@);
    }
    out
}

/// `s` cut to `max` characters, the cut marked by `...`.
pub fn truncate_chars(s: &str, max: usize) -> (r: String)
    ensures
        r@ == truncated_chars(s@, max as nat),
{
    let c = chars_of(s);
    if c.len() <= max {
        return string_of(&c);
    }
    let keep = if max >= 3 {
        max - 3
    } else {
        0
    };
    let mut out = String::new();
    push_chars(&mut out, &c[0..keep]);
    push_str(&mut out, "...");
    assert(c@.subrange(0, keep as int) =~= c@.take(keep as int));
    out
}

// ── Ledger lines ────────────────────────────────────────────────────────────

/// A non-empty string, or nothing.
pub open spec fn nonempty(o: Option<Seq<char>>) -> Option<Seq<char>> {
    match o {
        Some(s) => if s.len() > 0 {
            Some(s)
        } else {
            None
        },
        None => None,
    }
}

/// The non-empty string at `key` of the arguments.
pub open spec fn arg(args: Seq<char>, key: Seq<char>) -> Option<Seq<char>> {
    nonempty(json_string_field(args, key))
}

/// `(Lo-o+l)` or `(Lo-)` for a paginated read, else nothing.
pub open spec fn line_range_text(offset: Option<u64>, limit: Option<u64>) -> Seq<char> {
    match offset {
        Some(o) => match limit {
            Some(l) => "(L"@ + dec(o as nat) + "-"@ + dec((o + l) as nat) + ")"@,
            None => "(L"@ + dec(o as nat) + "-)"@,
        },
        None => Seq::empty(),
    }
}

/// Context-management tools: not work, never recorded.
pub open spec fn is_churn(tool: Seq<char>) -> bool {
    ||| tool == "history.list_windows"@
    ||| tool == "history.list_items"@
    ||| tool == "history.read_item"@
    ||| tool == "history.search_contents"@
    ||| tool == "notes.list_files"@
    ||| tool == "notes.read_file"@
    ||| tool == "notes.search_contents"@
}

/// The arguments of a call that its ledger line can use, as plain values.
pub struct ArgsView {
    pub path: Option<Seq<char>>,
    pub offset: Option<u64>,
    pub limit: Option<u64>,
    pub command: Option<Seq<char>>,
    pub pattern: Option<Seq<char>>,
    pub task_name: Option<Seq<char>>,
    pub name: Option<Seq<char>>,
    pub first_string: Option<Seq<char>>,
}

/// The arguments of a tool call that its ledger line can use, looked up in
/// its JSON arguments: the non-empty strings at `path`, `command`,
/// `pattern`, `task_name` and `name`, the integers at `offset` and `limit`,
/// and the first string among all values.
pub struct CallArgs {
    pub path: Option<String>,
    pub offset: Option<u64>,
    pub limit: Option<u64>,
    pub command: Option<String>,
    pub pattern: Option<String>,
    pub task_name: Option<String>,
    pub name: Option<String>,
    pub first_string: Option<String>,
}

impl View for CallArgs {
    type V = ArgsView;

    open spec fn view(&self) -> ArgsView {
        ArgsView {
            path: opt_view(self.path),
            offset: self.offset,
            limit: self.limit,
            command: opt_view(self.command),
            pattern: opt_view(self.pattern),
            task_name: opt_view(self.task_name),
            name: opt_view(self.name),
            first_string: opt_view(self.first_string),
        }
    }
}

/// What a call's JSON arguments `args` give for its ledger line.
pub open spec fn looked_up(args: Seq<char>) -> ArgsView {
    ArgsView {
        path: arg(args, "path"@),
        offset: json_u64_field(args, "offset"@),
        limit: json_u64_field(args, "limit"@),
        command: arg(args, "command"@),
        pattern: arg(args, "pattern"@),
        task_name: arg(args, "task_name"@),
        name: arg(args, "name"@),
        first_string: first_present(json_object_strings(args)),
    }
}

/// A `read_file` line whose end line `offset + limit` does not fit in 64
/// bits.
pub open spec fn range_too_long(tool: Seq<char>, a: ArgsView) -> bool {
    &&& tool == "read_file"@
    &&& a.path is Some
    &&& a.offset matches Some(o)
    &&& a.limit matches Some(l)
    &&& o + l > u64::MAX
}

/// The ledger line of a call of `tool` whose arguments looked up to `a`,
/// before it is cut to `MAX_ENTRY_CHARS`.
pub open spec fn line_from(tool: Seq<char>, a: ArgsView) -> Option<Seq<char>> {
    if is_churn(tool) {
        None
    } else if tool == "read_file"@ {
        match a.path {
            Some(p) => Some("read "@ + p + line_range_text(a.offset, a.limit)),
            None => None,
        }
    } else if tool == "write_file"@ {
        match a.path {
            Some(p) => Some("wrote "@ + p),
            None => None,
        }
    } else if tool == "edit_file"@ {
        match a.path {
            Some(p) => Some("edited "@ + p),
            None => None,
        }
    } else if tool == "execute_command"@ {
        match a.command {
            Some(c) => Some("ran `"@ + truncated_chars(one_line_text(c), 60) + "`"@),
            None => None,
        }
    } else if tool == "search_content"@ {
        match a.pattern {
            Some(pat) => match a.path {
                Some(p) => Some("searched \""@ + pat + "\" in "@ + p),
                None => Some("searched \""@ + pat + "\""@),
            },
            None => None,
        }
    } else if tool == "repo_map"@ {
        match a.path {
            Some(p) => Some("mapped structure of "@ + p),
            None => Some("mapped repo structure"@),
        }
    } else if tool == "spawn_agent"@ {
        match a.task_name {
            Some(n) => Some("spawned sub-agent "@ + n),
            None => match a.name {
                Some(n) => Some("spawned sub-agent "@ + n),
                None => None,
            },
        }
    } else if tool == "notes.write_file"@ || tool == "notes.append_to_file"@ {
        match a.path {
            Some(p) => Some("note "@ + p),
            None => None,
        }
    } else {
        match a.first_string {
            Some(v) => Some(tool + " "@ + truncated_chars(one_line_text(v), 40)),
            None => Some(tool),
        }
    }
}

/// The ledger line of a call of `tool` with JSON arguments `args`, before
/// it is cut to `MAX_ENTRY_CHARS`.
pub open spec fn ledger_line(tool: Seq<char>, args: Seq<char>) -> Option<Seq<char>> {
    if is_churn(tool) || !json_parses(args) {
        None
    } else {
        line_from(tool, looked_up(args))
    }
}

/// The ledger entry of a call: its line cut to `MAX_ENTRY_CHARS`.
pub open spec fn ledger_entry_text(tool: Seq<char>, args: Seq<char>) -> Option<Seq<char>> {
    match ledger_line(tool, args) {
        Some(l) => Some(truncated_chars(l, MAX_ENTRY_CHARS as nat)),
        None => None,
    }
}

/// A paginated `read_file` call whose end line `offset + limit` does not
/// fit in 64 bits.
pub open spec fn range_overflows(tool: Seq<char>, args: Seq<char>) -> bool {
    &&& tool == "read_file"@
    &&& json_parses(args)
    &&& arg(args, "path"@) is Some
    &&& json_u64_field(args, "offset"@) matches Some(o)
    &&& json_u64_field(args, "limit"@) matches Some(l)
    &&& o + l > u64::MAX
}

fn str_is(a: &str, lit: &str) -> (b: bool)
    ensures
        b == (a@ == lit@),
{
    chars_eq(&chars_of(a), &chars_of(lit))
}

fn arg_of(args: &str, key: &str) -> (r: Option<String>)
    ensures
        match r {
            Some(s) => arg(args@, key@) == Some(s@),
            None => arg(args@, key@) is None,
        },
{
    match string_field(args, key) {
        Some(s) => if chars_of(s.as_str()).len() > 0 {
            Some(s)
        } else {
            None
        },
        None => None,
    }
}

fn push_line_range(out: &mut String, offset: Option<u64>, limit: Option<u64>)
    requires
        !(offset matches Some(o) && limit matches Some(l) && o + l > u64::MAX),
    ensures
        final(out)@ == old(out)@ + line_range_text(offset, limit),
{
    match offset {
        Some(o) => match limit {
            Some(l) => {
                push_str(out, "(L");
                push_dec(out, o);
                push_str(out, "-");
                push_dec(out, o + l);
                push_str(out, ")");
            },
            None => {
                push_str(out, "(L");
                push_dec(out, o);
                push_str(out, "-)");
            },
        },
        None => {},
    }
}

/// The ledger line of a call of `tool` whose arguments looked up to `a`,
/// before it is cut to `MAX_ENTRY_CHARS`: `None` for context-management
/// calls and calls without the arguments that the line needs.
pub fn ledger_line_from_args(tool: &str, a: &CallArgs) -> (r: Option<String>)
    requires
        !range_too_long(tool@, a@),
    ensures
        opt_view(r) == line_from(tool@, a@),
{
    if str_is(tool, "history.list_windows") || str_is(tool, "history.list_items") || str_is(
        tool,
        "history.read_item",
    ) || str_is(tool, "history.search_contents") || str_is(tool, "notes.list_files") || str_is(
        tool,
        "notes.read_file",
    ) || str_is(tool, "notes.search_contents") {
        return None;
    }
    let mut out = String::new();
    if str_is(tool, "read_file") {
        match a.path.clone() {
            Some(p) => {
                push_str(&mut out, "read ");
                push_str(&mut out, p.as_str());
                push_line_range(&mut out, a.offset, a.limit);
                Some(out)
            },
            None => None,
        }
    } else if str_is(tool, "write_file") {
        match a.path.clone() {
            Some(p) => {
                push_str(&mut out, "wrote ");
                push_str(&mut out, p.as_str());
                Some(out)
            },
            None => None,
        }
    } else if str_is(tool, "edit_file") {
        match a.path.clone() {
            Some(p) => {
                push_str(&mut out, "edited ");
                push_str(&mut out, p.as_str());
                Some(out)
            },
            None => None,
        }
    } else if str_is(tool, "execute_command") {
        match a.command.clone() {
            Some(c) => {
                push_str(&mut out, "ran `");
                let flat = one_line(c.as_str());
                let cut = truncate_chars(flat.as_str(), 60);
                push_str(&mut out, cut.as_str());
                push_str(&mut out, "`");
                Some(out)
            },
            None => None,
        }
    } else if str_is(tool, "search_content") {
        match a.pattern.clone() {
            Some(pat) => {
                push_str(&mut out, "searched \"");
                push_str(&mut out, pat.as_str());
                match a.path.clone() {
                    Some(p) => {
                        push_str(&mut out, "\" in ");
                        push_str(&mut out, p.as_str());
                    },
                    None => {
                        push_str(&mut out, "\"");
                    },
                }
                Some(out)
            },
            None => None,
        }
    } else if str_is(tool, "repo_map") {
        match a.path.clone() {
            Some(p) => {
                push_str(&mut out, "mapped structure of ");
                push_str(&mut out, p.as_str());
            },
            None => {
                push_str(&mut out, "mapped repo structure");
            },
        }
        Some(out)
    } else if str_is(tool, "spawn_agent") {
        let name = match a.task_name.clone() {
            Some(n) => Some(n),
            None => a.name.clone(),
        };
        match name {
            Some(n) => {
                push_str(&mut out, "spawned sub-agent ");
                push_str(&mut out, n.as_str());
                Some(out)
            },
            None => None,
        }
    } else if str_is(tool, "notes.write_file") || str_is(tool, "notes.append_to_file") {
        match a.path.clone() {
            Some(p) => {
                push_str(&mut out, "note ");
                push_str(&mut out, p.as_str());
                Some(out)
            },
            None => None,
        }
    } else {
        push_str(&mut out, tool);
        match a.first_string.clone() {
            Some(v) => {
                push_str(&mut out, " ");
                let flat = one_line(v.as_str());
                let cut = truncate_chars(flat.as_str(), 40);
                push_str(&mut out, cut.as_str());
            },
            None => {},
        }
        Some(out)
    }
}

fn ledger_line_of(tool: &str, args: &str) -> (r: Option<String>)
    requires
        !range_overflows(tool@, args@),
    ensures
        opt_view(r) == ledger_line(tool@, args@),
{
    if str_is(tool, "history.list_windows") || str_is(tool, "history.list_items") || str_is(
        tool,
        "history.read_item",
    ) || str_is(tool, "history.search_contents") || str_is(tool, "notes.list_files") || str_is(
        tool,
        "notes.read_file",
    ) || str_is(tool, "notes.search_contents") {
        return None;
    }
    if !parses(args) {
        return None;
    }
    let a = CallArgs {
        path: arg_of(args, "path"),
        offset: u64_field(args, "offset"),
        limit: u64_field(args, "limit"),
        command: arg_of(args, "command"),
        pattern: arg_of(args, "pattern"),
        task_name: arg_of(args, "task_name"),
        name: arg_of(args, "name"),
        first_string: first_string_of(&object_string_values(args)),
    };
    assert(a@ == looked_up(args@));
    ledger_line_from_args(tool, &a)
}

/// The ledger entry of a call of `tool` with JSON arguments `args`, or
/// `None` for context-management calls and calls without the arguments
/// that the entry needs.
pub fn ledger_entry(tool: &str, args_json: &str) -> (r: Option<String>)
    requires
        !range_overflows(tool@, args_json@),
    ensures
        match r {
            Some(s) => ledger_entry_text(tool@, args_json@) == Some(s@),
            None => ledger_entry_text(tool@, args_json@) is None,
        },
{
    match ledger_line_of(tool, args_json) {
        Some(l) => Some(truncate_chars(l.as_str(), MAX_ENTRY_CHARS)),
        None => None,
    }
}

// ── The ledger ──────────────────────────────────────────────────────────────

/// `entries` with the entries of calls `0..k` added, each at most once.
pub open spec fn add_calls(entries: Seq<Seq<char>>, calls: Seq<ToolCall>, k: int) -> Seq<Seq<char>>
    decreases k,
{
    if k <= 0 {
        entries
    } else {
        let e = add_calls(entries, calls, k - 1);
        match ledger_entry_text(calls[k - 1].name@, calls[k - 1].arguments@) {
            Some(x) => if e.contains(x) {
                e
            } else {
                e.push(x)
            },
            None => e,
        }
    }
}

/// The entries and the last narration after messages `0..k`.
pub open spec fn ledger_state(msgs: Seq<Message>, k: int) -> (Seq<Seq<char>>, Option<Seq<char>>)
    decreases k,
{
    if k <= 0 {
        (Seq::empty(), None)
    } else {
        let prev = ledger_state(msgs, k - 1);
        match msgs[k - 1] {
            Message::Assistant { content, tool_calls } => {
                let narration = match content {
                    Some(t) => if one_line_text(t@).len() > 0 {
                        Some(truncated_chars(one_line_text(t@), MAX_NARRATION_CHARS as nat))
                    } else {
                        prev.1
                    },
                    None => prev.1,
                };
                let entries = match tool_calls {
                    Some(calls) => add_calls(prev.0, calls@, calls@.len() as int),
                    None => prev.0,
                };
                (entries, narration)
            },
            _ => prev,
        }
    }
}

/// Some tool call of the messages is a paginated read whose end line does
/// not fit in 64 bits.
pub open spec fn ledger_overflows(msgs: Seq<Message>) -> bool {
    exists|i: int| 0 <= i < msgs.len() && message_overflows(#[trigger] msgs[i])
}

/// An assistant message with a call whose read range does not fit.
pub open spec fn message_overflows(m: Message) -> bool {
    match m {
        Message::Assistant { tool_calls, .. } => match tool_calls {
            Some(calls) => !calls_fit(calls@),
            None => false,
        },
        _ => false,
    }
}

/// The lines `- entry` of `entries`.
pub open spec fn entry_lines(entries: Seq<Seq<char>>) -> Seq<char>
    decreases entries.len(),
{
    if entries.len() == 0 {
        Seq::empty()
    } else {
        entry_lines(entries.drop_last()) + "- "@ + entries.last() + "\n"@
    }
}

/// The ledger text for `entries` and `narration`, before the length cap.
pub open spec fn ledger_body(entries: Seq<Seq<char>>, narration: Option<Seq<char>>) -> Seq<char> {
    let skipped = if entries.len() > MAX_ENTRIES {
        entries.len() - MAX_ENTRIES
    } else {
        0
    };
    "<activity_ledger>\n"@ + "Covered in the previous window (do NOT redo this work):\n"@ + (if skipped
        > 0 {
        "- (+"@ + dec(skipped as nat) + " earlier actions omitted)\n"@
    } else {
        Seq::empty()
    }) + entry_lines(entries.skip(skipped as int)) + (match narration {
        Some(t) => "Where you left off: "@ + t + "\n"@,
        None => Seq::empty(),
    }) + "Continue from here; re-read a file only for details this ledger lacks.\n"@
        + "</activity_ledger>"@
}

/// The activity ledger of `msgs`: `None` when there was neither recorded
/// work nor narration.
pub open spec fn ledger_text(msgs: Seq<Message>) -> Option<Seq<char>> {
    let st = ledger_state(msgs, msgs.len() as int);
    if st.0.len() == 0 && st.1 is None {
        None
    } else {
        let body = ledger_body(st.0, st.1);
        if body.len() > MAX_LEDGER_CHARS {
            Some(body.take(MAX_LEDGER_CHARS - 3) + "..."@)
        } else {
            Some(body)
        }
    }
}

/// The ledger never exceeds `MAX_LEDGER_CHARS` characters.
pub proof fn ledger_is_capped(msgs: Seq<Message>)
    ensures
        ledger_text(msgs) matches Some(t) ==> t.len() <= MAX_LEDGER_CHARS,
{
    reveal_strlit("...");
}

/// A call that the ledger records.
pub open spec fn call_recorded(c: ToolCall) -> bool {
    ledger_entry_text(c.name@, c.arguments@) is Some
}

/// A message that gives the ledger something: an assistant message with
/// narration that is not blank, or with a call that the ledger records.
pub open spec fn contributes(m: Message) -> bool {
    match m {
        Message::Assistant { content, tool_calls } => {
            ||| (content matches Some(t) && one_line_text(t@).len() > 0)
            ||| (tool_calls matches Some(calls) && exists|j: int|
                0 <= j < calls@.len() && call_recorded(#[trigger] calls@[j]))
        },
        _ => false,
    }
}

proof fn lemma_add_calls_empty(entries: Seq<Seq<char>>, calls: Seq<ToolCall>, k: int)
    requires
        0 <= k <= calls.len(),
    ensures
        add_calls(entries, calls, k).len() == 0 <==> (entries.len() == 0 && forall|j: int|
            0 <= j < k ==> !call_recorded(#[trigger] calls[j])),
    decreases k,
{
    if k > 0 {
        lemma_add_calls_empty(entries, calls, k - 1);
        let e = add_calls(entries, calls, k - 1);
        match ledger_entry_text(calls[k - 1].name@, calls[k - 1].arguments@) {
            Some(x) => {
                if e.contains(x) {
                    assert(e.len() > 0);
                }
            },
            None => {
                if add_calls(entries, calls, k).len() == 0 {
                    assert forall|j: int| 0 <= j < k implies !call_recorded(#[trigger] calls[j]) by {
                        if j < k - 1 {
                        }
                    }
                }
            },
        }
    }
}

proof fn lemma_ledger_state_empty(msgs: Seq<Message>, k: int)
    requires
        0 <= k <= msgs.len(),
    ensures
        (ledger_state(msgs, k).0.len() == 0 && ledger_state(msgs, k).1 is None) <==> forall|i: int|
            0 <= i < k ==> !contributes(#[trigger] msgs[i]),
    decreases k,
{
    if k > 0 {
        lemma_ledger_state_empty(msgs, k - 1);
        let prev = ledger_state(msgs, k - 1);
        match msgs[k - 1] {
            Message::Assistant { content, tool_calls } => {
                match tool_calls {
                    Some(calls) => {
                        lemma_add_calls_empty(prev.0, calls@, calls@.len() as int);
                    },
                    None => {},
                }
            },
            _ => {},
        }
        let now = ledger_state(msgs, k);
        if now.0.len() == 0 && now.1 is None {
            assert forall|i: int| 0 <= i < k implies !contributes(#[trigger] msgs[i]) by {
                if i < k - 1 {
                }
            }
        }
    }
}

/// The ledger is absent exactly when no message gives it anything, and
/// never exceeds `MAX_LEDGER_CHARS` characters.
pub proof fn ledger_absent_iff_nothing_recorded(msgs: Seq<Message>)
    ensures
        ledger_text(msgs) is None <==> forall|i: int| 0 <= i < msgs.len() ==> !contributes(#[trigger] msgs[i]),
        ledger_text(msgs) matches Some(t) ==> t.len() <= MAX_LEDGER_CHARS,
{
    lemma_ledger_state_empty(msgs, msgs.len() as int);
    ledger_is_capped(msgs);
}

/// Adding calls keeps recorded actions distinct.
pub proof fn add_calls_distinct(entries: Seq<Seq<char>>, calls: Seq<ToolCall>, k: int)
    requires
        entries.no_duplicates(),
    ensures
        add_calls(entries, calls, k).no_duplicates(),
    decreases k,
{
    if k > 0 {
        add_calls_distinct(entries, calls, k - 1);
    }
}

/// An action is recorded in the ledger once, however often it was repeated.
pub proof fn ledger_actions_distinct(msgs: Seq<Message>, k: int)
    ensures
        ledger_state(msgs, k).0.no_duplicates(),
    decreases k,
{
    if k > 0 {
        ledger_actions_distinct(msgs, k - 1);
        let prev = ledger_state(msgs, k - 1);
        match msgs[k - 1] {
            Message::Assistant { content, tool_calls } => {
                match tool_calls {
                    Some(calls) => add_calls_distinct(prev.0, calls@, calls@.len() as int),
                    None => {},
                }
            },
            _ => {},
        }
    }
}

fn contains_string(v: &Vec<String>, x: &String) -> (b: bool)
    ensures
        b == v@.map_values(|s: String| s@).contains(x@),
{
    let ghost vv = v@.map_values(|s: String| s@);
    let mut i: usize = 0;
    while i < v.len()
        invariant
            i <= v@.len(),
            vv == v@.map_values(|s: String| s@),
            forall|k: int| 0 <= k < i ==> vv[k] != x@,
        decreases v@.len() - i,
    {
        if v[i] == *x {
            assert(vv[i as int] == x@);
            return true;
        }
        i = i + 1;
    }
    false
}

pub open spec fn views(v: Seq<String>) -> Seq<Seq<char>> {
    v.map_values(|s: String| s@)
}

/// The state after `msgs[0..k]` has no overflowing read.
pub open spec fn calls_fit(calls: Seq<ToolCall>) -> bool {
    forall|j: int| 0 <= j < calls.len() ==> !range_overflows(#[trigger] calls[j].name@, calls[j].arguments@)
}

fn add_call_entries(entries: &mut Vec<String>, calls: &Vec<ToolCall>)
    requires
        calls_fit(calls@),
    ensures
        views(final(entries)@) == add_calls(views(old(entries)@), calls@, calls@.len() as int),
{
    let ghost start = views(entries@);
    let mut i: usize = 0;
    while i < calls.len()
        invariant
            i <= calls@.len(),
            calls_fit(calls@),
            views(entries@) == add_calls(start, calls@, i as int),
        decreases calls@.len() - i,
    {
        let call = &calls[i];
        assert(!range_overflows(calls@[i as int].name@, calls@[i as int].arguments@));
        match ledger_entry(call.name.as_str(), call.arguments.as_str()) {
            Some(e) => {
                if !contains_string(entries, &e) {
                    let ghost before = views(entries@);
                    entries.push(e);
                    assert(views(entries@) =~= before.push(e@));
                }
            },
            None => {},
        }
        i = i + 1;
    }
}

fn push_entry_lines(out: &mut String, entries: &Vec<String>, from: usize)
    requires
        from <= entries@.len(),
    ensures
        final(out)@ == old(out)@ + entry_lines(views(entries@).skip(from as int)),
{
    let ghost o = out@;
    let mut i: usize = from;
    assert(views(entries@).subrange(from as int, from as int) =~= Seq::<Seq<char>>::empty());
    while i < entries.len()
        invariant
            from <= i <= entries@.len(),
            out@ == o + entry_lines(views(entries@).subrange(from as int, i as int)),
        decreases entries@.len() - i,
    {
        let ghost sub = views(entries@).subrange(from as int, i + 1);
        assert(sub.drop_last() =~= views(entries@).subrange(from as int, i as int));
        assert(sub.last() == entries@[i as int]@);
        push_str(out, "- ");
        push_str(out, entries[i].as_str());
        push_str(out, "\n");
        i = i + 1;
        assert(out@ =~= o + entry_lines(views(entries@).subrange(from as int, i as int)));
    }
    assert(views(entries@).subrange(from as int, i as int) =~= views(entries@).skip(from as int));
}

/// The activity ledger of an outgoing window's messages, or `None` when it
/// holds no recorded work and no narration.
pub fn extract_ledger(messages: &[Message]) -> (r: Option<String>)
    requires
        !ledger_overflows(messages@),
    ensures
        match r {
            Some(s) => ledger_text(messages@) == Some(s@),
            None => ledger_text(messages@) is None,
        },
{
    let mut entries: Vec<String> = Vec::new();
    let mut narration: Option<String> = None;
    let mut k: usize = 0;
    assert(views(entries@) =~= Seq::<Seq<char>>::empty());
    while k < messages.len()
        invariant
            k <= messages@.len(),
            !ledger_overflows(messages@),
            views(entries@) == ledger_state(messages@, k as int).0,
            match narration {
                Some(t) => ledger_state(messages@, k as int).1 == Some(t@),
                None => ledger_state(messages@, k as int).1 is None,
            },
        decreases messages@.len() - k,
    {
        match &messages[k] {
            Message::Assistant { content, tool_calls } => {
                match content {
                    Some(text) => {
                        let flat = one_line(text.as_str());
                        if chars_of(flat.as_str()).len() > 0 {
                            narration = Some(truncate_chars(flat.as_str(), MAX_NARRATION_CHARS));
                        }
                    },
                    None => {},
                }
                match tool_calls {
                    Some(calls) => {
                        proof {
                            if !calls_fit(calls@) {
                                assert(message_overflows(messages@[k as int]));
                            }
                        }
                        add_call_entries(&mut entries, calls);
                    },
                    None => {},
                }
            },
            _ => {},
        }
        k = k + 1;
    }
    if entries.len() == 0 && narration.is_none() {
        return None;
    }
    let mut out = String::new();
    push_str(&mut out, "<activity_ledger>\n");
    push_str(&mut out, "Covered in the previous window (do NOT redo this work):\n");
    let skipped: usize = if entries.len() > MAX_ENTRIES {
        entries.len() - MAX_ENTRIES
    } else {
        0
    };
    if skipped > 0 {
        push_str(&mut out, "- (+");
        push_dec(&mut out, skipped as u64);
        push_str(&mut out, " earlier actions omitted)\n");
    }
    push_entry_lines(&mut out, &entries, skipped);
    match &narration {
        Some(t) => {
            push_str(&mut out, "Where you left off: ");
            push_str(&mut out, t.as_str());
            push_str(&mut out, "\n");
        },
        None => {},
    }
    push_str(&mut out, "Continue from here; re-read a file only for details this ledger lacks.\n");
    push_str(&mut out, "</activity_ledger>");
    let ghost st = ledger_state(messages@, messages@.len() as int);
    assert(out@ =~= ledger_body(st.0, st.1));
    let c = chars_of(out.as_str());
    if c.len() > MAX_LEDGER_CHARS {
        let mut cut = String::new();
        push_chars(&mut cut, &c[0..MAX_LEDGER_CHARS - 3]);
        push_str(&mut cut, "...");
        assert(c@.subrange(0, (MAX_LEDGER_CHARS - 3) as int) =~= c@.take((MAX_LEDGER_CHARS - 3) as int));
        return Some(cut);
    }
    Some(out)
}

fn calls_overflow(calls: &Vec<ToolCall>) -> (b: bool)
    ensures
        b == !calls_fit(calls@),
{
    let mut j: usize = 0;
    while j < calls.len()
        invariant
            j <= calls@.len(),
            forall|q: int| 0 <= q < j ==> !range_overflows(#[trigger] calls@[q].name@, calls@[q].arguments@),
        decreases calls@.len() - j,
    {
        let call = &calls[j];
        if str_is(call.name.as_str(), "read_file") && parses(call.arguments.as_str()) && arg_of(
            call.arguments.as_str(),
            "path",
        ).is_some() {
            match (u64_field(call.arguments.as_str(), "offset"), u64_field(call.arguments.as_str(), "limit")) {
                (Some(o), Some(l)) => {
                    if o > u64::MAX - l {
                        assert(range_overflows(calls@[j as int].name@, calls@[j as int].arguments@));
                        return true;
                    }
                },
                _ => {},
            }
        }
        j = j + 1;
    }
    false
}

/// Whether some tool call of `messages` is a paginated read whose end line
/// does not fit in 64 bits.
pub fn ledger_overflow_check(messages: &[Message]) -> (b: bool)
    ensures
        b == ledger_overflows(messages@),
{
    let mut k: usize = 0;
    while k < messages.len()
        invariant
            k <= messages@.len(),
            forall|i: int| 0 <= i < k ==> !message_overflows(#[trigger] messages@[i]),
        decreases messages@.len() - k,
    {
        match &messages[k] {
            Message::Assistant { tool_calls, .. } => {
                match tool_calls {
                    Some(calls) => {
                        if calls_overflow(calls) {
                            assert(message_overflows(messages@[k as int]));
                            return true;
                        }
                    },
                    None => {},
                }
            },
            _ => {},
        }
        assert(!message_overflows(messages@[k as int]));
        k = k + 1;
    }
    false
}

/// The activity ledger of `messages`, or `None` when some tool call is a
/// paginated read whose end line does not fit in 64 bits.
pub fn extract_ledger_checked(messages: &[Message]) -> (r: Option<Option<String>>)
    ensures
        r is None <==> ledger_overflows(messages@),
        r matches Some(l) ==> match l {
            Some(s) => ledger_text(messages@) == Some(s@),
            None => ledger_text(messages@) is None,
        },
{
    if ledger_overflow_check(messages) {
        None
    } else {
        Some(extract_ledger(messages))
    }
}

} // verus!

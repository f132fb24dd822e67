//! The replies of the history tools (`history.list_windows`,
//! `history.list_items`, `history.read_item`, `history.search_contents`),
//! before they are cut to the token budget.

use vstd::prelude::*;
use std::sync::Arc;
use crate::context_rotation::history::{
    padded3, window_id_string, HistoryStore, ItemSummary, SearchResult, SessionMeta, WindowMeta,
};
use crate::text::{chars_of, dec, push_chars, push_dec, push_str, string_of, trim_chars, trim_seq};

verus! {

/// Characters read from a message when no limit is given.
pub const DEFAULT_READ_LIMIT: usize = 3000;

/// List archived context windows.
pub struct HistoryListWindowsTool {
    pub store: Arc<HistoryStore>,
}

pub open spec fn window_lines(ws: Seq<WindowMeta>) -> Seq<char>
    decreases ws.len(),
{
    if ws.len() == 0 {
        Seq::empty()
    } else {
        window_lines(ws.drop_last()) + "  Window "@ + ws.last().id@ + ": "@ + dec(
            ws.last().message_count as nat,
        ) + " messages, archived at "@ + ws.last().started_at@ + "\n"@
    }
}

/// The windows shown: newest first if asked, at most `limit`.
pub open spec fn shown_windows(ws: Seq<WindowMeta>, limit: nat, recent_first: bool) -> Seq<WindowMeta> {
    let ordered = if recent_first {
        ws.reverse()
    } else {
        ws
    };
    if ordered.len() <= limit {
        ordered
    } else {
        ordered.take(limit as int)
    }
}

/// The listing of windows is one line per window, in the order given: the
/// lines of two runs of windows are the lines of the first followed by those
/// of the second, and a window's line gives its id, its message count and
/// when it was archived.
pub proof fn window_lines_line_per_window(a: Seq<WindowMeta>, b: Seq<WindowMeta>, w: WindowMeta)
    ensures
        window_lines(a + b) == window_lines(a) + window_lines(b),
        window_lines(seq![w]) == "  Window "@ + w.id@ + ": "@ + dec(w.message_count as nat)
            + " messages, archived at "@ + w.started_at@ + "\n"@,
    decreases b.len(),
{
    assert(seq![w].drop_last() =~= Seq::<WindowMeta>::empty());
    assert(window_lines(seq![w].drop_last()) =~= Seq::<char>::empty());
    assert(seq![w].last() == w);
    assert(window_lines(seq![w]) =~= "  Window "@ + w.id@ + ": "@ + dec(w.message_count as nat)
        + " messages, archived at "@ + w.started_at@ + "\n"@);
    if b.len() == 0 {
        assert(a + b =~= a);
        assert(window_lines(b) =~= Seq::<char>::empty());
        assert(window_lines(a) + window_lines(b) =~= window_lines(a));
    } else {
        window_lines_line_per_window(a, b.drop_last(), w);
        assert((a + b).drop_last() =~= a + b.drop_last());
        assert((a + b).last() == b.last());
        assert(window_lines(a + b) =~= window_lines(a) + window_lines(b));
    }
}

/// The window listing shows `min(limit, n)` of the `n` windows: the first
/// ones in order, or with `recent_first` the last ones, newest first (the
/// `k`-th shown is window `n - 1 - k`).
pub proof fn windows_shown_newest_first(ws: Seq<WindowMeta>, limit: nat, recent_first: bool)
    ensures
        shown_windows(ws, limit, recent_first).len() == if ws.len() <= limit {
            ws.len()
        } else {
            limit
        },
        forall|k: int|
            0 <= k < shown_windows(ws, limit, recent_first).len() ==> #[trigger] shown_windows(
                ws,
                limit,
                recent_first,
            )[k] == if recent_first {
                ws[ws.len() - 1 - k]
            } else {
                ws[k]
            },
{
}

impl HistoryListWindowsTool {
    pub fn new(store: Arc<HistoryStore>) -> (r: Self)
        ensures
            r.store == store,
    {
        HistoryListWindowsTool { store }
    }

    pub fn name(&self) -> (s: &'static str)
        ensures
            s@ == "history.list_windows"@,
    {
        "history.list_windows"
    }

    pub fn description(&self) -> (s: &'static str)
        ensures
            s@ == "List archived context windows. Returns window IDs and message counts. Use to discover what history is available."@,
    {
        "List archived context windows. Returns window IDs and message counts. Use to discover what history is available."
    }

    /// The reply listing the windows of `meta`.
    pub fn format_windows(&self, meta: &SessionMeta, limit: usize, recent_first: bool) -> (s: String)
        ensures
            ({
                let ws = shown_windows(meta.windows@, limit as nat, recent_first);
                if ws.len() == 0 {
                    s@ == "No archived windows found."@
                } else {
                    s@ == "Archived context windows:\n"@ + window_lines(ws)
                }
            }),
    {
        let ghost ws = shown_windows(meta.windows@, limit as nat, recent_first);
        let n = meta.windows.len();
        let count = if n <= limit {
            n
        } else {
            limit
        };
        if count == 0 {
            return string_of(&chars_of("No archived windows found."));
        }
        let mut s = String::new();
        push_str(&mut s, "Archived context windows:\n");
        let ghost head = s@;
        let mut k: usize = 0;
        while k < count
            invariant
                k <= count <= n,
                n == meta.windows@.len(),
                count == ws.len(),
                ws == shown_windows(meta.windows@, limit as nat, recent_first),
                s@ == head + window_lines(ws.take(k as int)),
            decreases count - k,
        {
            let idx = if recent_first {
                n - 1 - k
            } else {
                k
            };
            let w = &meta.windows[idx];
            assert(ws[k as int] == meta.windows@[idx as int]);
            assert(ws.take(k + 1).drop_last() =~= ws.take(k as int));
            push_str(&mut s, "  Window ");
            push_str(&mut s, w.id.as_str());
            push_str(&mut s, ": ");
            push_dec(&mut s, w.message_count as u64);
            push_str(&mut s, " messages, archived at ");
            push_str(&mut s, w.started_at.as_str());
            push_str(&mut s, "\n");
            k = k + 1;
            assert(s@ =~= head + window_lines(ws.take(k as int)));
        }
        assert(ws.take(k as int) =~= ws);
        s
    }
}

/// ` (name)` for a named item, else nothing.
pub open spec fn name_suffix(name: Option<String>) -> Seq<char> {
    match name {
        Some(n) => " ("@ + n@ + ")"@,
        None => Seq::empty(),
    }
}

fn push_reference(s: &mut String, window: usize, index: usize, role: &String, name: &Option<String>)
    ensures
        final(s)@ == old(s)@ + "[W"@ + padded3(window as nat) + "#"@ + dec(index as nat) + "] "@
            + role@ + name_suffix(*name),
{
    push_str(s, "[W");
    let w = window_id_string(window);
    push_str(s, w.as_str());
    push_str(s, "#");
    push_dec(s, index as u64);
    push_str(s, "] ");
    push_str(s, role.as_str());
    match name {
        Some(n) => {
            push_str(s, " (");
            push_str(s, n.as_str());
            push_str(s, ")");
        },
        None => {},
    }
}

/// List messages of archived windows.
pub struct HistoryListItemsTool {
    pub store: Arc<HistoryStore>,
}

pub open spec fn item_lines(items: Seq<ItemSummary>) -> Seq<char>
    decreases items.len(),
{
    if items.len() == 0 {
        Seq::empty()
    } else {
        let it = items.last();
        item_lines(items.drop_last()) + "[W"@ + padded3(it.window as nat) + "#"@ + dec(
            it.index as nat,
        ) + "] "@ + it.role@ + name_suffix(it.name) + ": "@ + it.content_preview@ + "\n"@
    }
}

impl HistoryListItemsTool {
    pub fn new(store: Arc<HistoryStore>) -> (r: Self)
        ensures
            r.store == store,
    {
        HistoryListItemsTool { store }
    }

    pub fn name(&self) -> (s: &'static str)
        ensures
            s@ == "history.list_items"@,
    {
        "history.list_items"
    }

    pub fn description(&self) -> (s: &'static str)
        ensures
            s@ == "List messages in archived context windows. Filter by role (user/assistant/tool/system) or tool name. Returns message summaries with role and content preview."@,
    {
        "List messages in archived context windows. Filter by role (user/assistant/tool/system) or tool name. Returns message summaries with role and content preview."
    }

    /// The reply listing `items`.
    pub fn format_items(&self, items: &Vec<ItemSummary>) -> (s: String)
        ensures
            items@.len() == 0 ==> s@ == "No matching messages found."@,
            items@.len() > 0 ==> s@ == item_lines(items@),
    {
        if items.len() == 0 {
            return string_of(&chars_of("No matching messages found."));
        }
        let mut s = String::new();
        let mut i: usize = 0;
        while i < items.len()
            invariant
                i <= items@.len(),
                s@ == item_lines(items@.take(i as int)),
            decreases items@.len() - i,
        {
            assert(items@.take(i + 1).drop_last() =~= items@.take(i as int));
            let it = &items[i];
            push_reference(&mut s, it.window, it.index, &it.role, &it.name);
            push_str(&mut s, ": ");
            push_str(&mut s, it.content_preview.as_str());
            push_str(&mut s, "\n");
            i = i + 1;
            assert(s@ =~= item_lines(items@.take(i as int)));
        }
        assert(items@.take(i as int) =~= items@);
        s
    }
}

/// Read one archived message.
pub struct HistoryReadItemTool {
    pub store: Arc<HistoryStore>,
}

/// The reply for reading item `item_id` of window `window_id` from
/// character `offset`: the part read with its range and a hint to continue
/// where it was cut, or the note that the item does not exist.
pub open spec fn read_reply_text(window_id: usize, item_id: usize, offset: usize, found: Option<(Seq<char>, nat)>) -> Seq<char> {
    match found {
        Some((content, total)) => {
            let end = offset + content.len();
            let header = if offset > 0 || end < total {
                "[chars "@ + dec(offset as nat) + ".."@ + dec(end as nat) + "/"@ + dec(total) + "]\n"@
            } else {
                Seq::empty()
            };
            let more = if end < total {
                "\n[use offset_chars="@ + dec(end as nat) + " to continue reading]"@
            } else {
                Seq::empty()
            };
            header + content + more
        },
        None => "Item not found: window "@ + dec(window_id as nat) + ", item "@ + dec(item_id as nat),
    }
}

impl HistoryReadItemTool {
    pub fn new(store: Arc<HistoryStore>) -> (r: Self)
        ensures
            r.store == store,
    {
        HistoryReadItemTool { store }
    }

    pub fn name(&self) -> (s: &'static str)
        ensures
            s@ == "history.read_item"@,
    {
        "history.read_item"
    }

    pub fn description(&self) -> (s: &'static str)
        ensures
            s@ == "Read a specific message from history by window ID and item index. Large messages are paginated \u{2014} use offset_chars to continue reading."@,
    {
        "Read a specific message from history by window ID and item index. Large messages are paginated \u{2014} use offset_chars to continue reading."
    }

    /// The reply for the outcome `found` of reading item `item_id` of
    /// window `window_id` from character `offset`.
    /// Whether the end offset of the reply for `found`, read from `offset`,
    /// can be counted in a `usize`.
    pub fn item_reply_fits(&self, offset: usize, found: &Option<(String, usize)>) -> (b: bool)
        ensures
            b == (found matches Some(p) ==> offset + p.0@.len() <= usize::MAX),
    {
        match found {
            Some((content, _)) => chars_of(content.as_str()).len() <= usize::MAX - offset,
            None => true,
        }
    }

    pub fn format_item(&self, window_id: usize, item_id: usize, offset: usize, found: &Option<(String, usize)>) -> (s: String)
        requires
            found matches Some(p) ==> offset + p.0@.len() <= usize::MAX,
        ensures
            s@ == read_reply_text(window_id, item_id, offset, match found {
                Some(p) => Some((p.0@, p.1 as nat)),
                None => None,
            }),
    {
        let mut s = String::new();
        match found {
            Some((content, total)) => {
                let c = chars_of(content.as_str());
                let end = offset + c.len();
                if offset > 0 || end < *total {
                    push_str(&mut s, "[chars ");
                    push_dec(&mut s, offset as u64);
                    push_str(&mut s, "..");
                    push_dec(&mut s, end as u64);
                    push_str(&mut s, "/");
                    push_dec(&mut s, *total as u64);
                    push_str(&mut s, "]\n");
                }
                push_chars(&mut s, &c);
                if end < *total {
                    push_str(&mut s, "\n[use offset_chars=");
                    push_dec(&mut s, end as u64);
                    push_str(&mut s, " to continue reading]");
                }
                s
            },
            None => {
                push_str(&mut s, "Item not found: window ");
                push_dec(&mut s, window_id as u64);
                push_str(&mut s, ", item ");
                push_dec(&mut s, item_id as u64);
                s
            },
        }
    }
}

/// Search archived messages.
pub struct HistorySearchContentsTool {
    pub store: Arc<HistoryStore>,
}

pub open spec fn search_blocks(rs: Seq<SearchResult>) -> Seq<char>
    decreases rs.len(),
{
    if rs.len() == 0 {
        Seq::empty()
    } else {
        search_blocks(rs.drop_last()) + search_block(rs.last())
    }
}

/// One search hit in the reply: its reference line and its preview.
pub open spec fn search_block(r: SearchResult) -> Seq<char> {
    "\n"@ + "[W"@ + padded3(r.window as nat) + "#"@ + dec(r.index as nat) + "] "@ + r.role@
        + name_suffix(r.name) + ":\n"@ + r.match_preview@ + "\n"@
}

fn push_search_block(s: &mut String, r: &SearchResult)
    ensures
        final(s)@ == old(s)@ + search_block(*r),
{
    push_str(s, "\n");
    push_reference(s, r.window, r.index, &r.role, &r.name);
    push_str(s, ":\n");
    push_str(s, r.match_preview.as_str());
    push_str(s, "\n");
    assert(final(s)@ =~= old(s)@ + search_block(*r));
}

impl HistorySearchContentsTool {
    pub fn new(store: Arc<HistoryStore>) -> (r: Self)
        ensures
            r.store == store,
    {
        HistorySearchContentsTool { store }
    }

    pub fn name(&self) -> (s: &'static str)
        ensures
            s@ == "history.search_contents"@,
    {
        "history.search_contents"
    }

    pub fn description(&self) -> (s: &'static str)
        ensures
            s@ == "Search message content across archived windows. Case-insensitive substring match. Returns matching snippets with window/item references."@,
    {
        "Search message content across archived windows. Case-insensitive substring match. Returns matching snippets with window/item references."
    }

    /// The query, trimmed, or the reply refusing a missing or empty one.
    pub fn query_arg(&self, raw: Option<&str>) -> (r: Result<String, String>)
        ensures
            match raw {
                None => r matches Err(e) && e@ == "[Error]: query is required"@,
                Some(q) => if trim_seq(q@).len() == 0 {
                    r matches Err(e) && e@ == "[Error]: query cannot be empty"@
                } else {
                    r matches Ok(t) && t@ == trim_seq(q@)
                },
            },
    {
        match raw {
            None => Err(string_of(&chars_of("[Error]: query is required"))),
            Some(q) => {
                let t = trim_chars(&chars_of(q));
                if t.len() == 0 {
                    Err(string_of(&chars_of("[Error]: query cannot be empty")))
                } else {
                    Ok(string_of(&t))
                }
            },
        }
    }

    /// The reply for the `results` of searching `query`.
    pub fn format_results(&self, query: &str, results: &Vec<SearchResult>) -> (s: String)
        ensures
            results@.len() == 0 ==> s@ == "No matches found for '"@ + query@ + "'"@,
            results@.len() > 0 ==> s@ == "Search results for '"@ + query@ + "':\n"@ + search_blocks(
                results@,
            ),
    {
        let mut s = String::new();
        if results.len() == 0 {
            push_str(&mut s, "No matches found for '");
            push_str(&mut s, query);
            push_str(&mut s, "'");
            return s;
        }
        push_str(&mut s, "Search results for '");
        push_str(&mut s, query);
        push_str(&mut s, "':\n");
        let ghost head = s@;
        let mut i: usize = 0;
        while i < results.len()
            invariant
                i <= results@.len(),
                s@ == head + search_blocks(results@.take(i as int)),
            decreases results@.len() - i,
        {
            assert(results@.take(i + 1).drop_last() =~= results@.take(i as int));
            push_search_block(&mut s, &results[i]);
            i = i + 1;
            assert(s@ =~= head + search_blocks(results@.take(i as int)));
        }
        assert(results@.take(i as int) =~= results@);
        s
    }
}

} // verus!

//! Archived history of earlier context windows: the records of archived
//! messages, listing and searching them, reading one by character range,
//! and the per-session metadata. Reading and writing the files is the
//! caller's part; it hands the parsed records over.

use vstd::prelude::*;
use std::path::{Path, PathBuf};
use crate::file::owned_path;
use crate::context_rotation::message::Message;
use crate::text::{
    byte_len, byte_offset, byte_offset_table, chars_eq, chars_of, contains_chars, contains_seq,
    copy_range, dec, dec_chars, find_first, first_match_from, lowercase, opt_view, parse_usize,
    parsed_usize, push_chars, push_dec, push_padded, push_str, sort_strings, str_opt_view,
    string_of, string_views, text_order, to_lower,
};

verus! {

/// Characters of content shown in an item listing.
pub const PREVIEW_CHARS: usize = 200;

/// Characters of context around a search match.
pub const MATCH_CONTEXT_CHARS: usize = 100;

/// Largest thread hint injected into a fresh window (4 KB).
pub const THREAD_HINT_MAX_BYTES: usize = 4096;

/// Metadata of one archived window.
pub struct WindowMeta {
    /// Window id: the number zero-padded to three digits, e.g. `001`.
    pub id: String,
    /// When the window was archived (RFC 3339).
    pub started_at: String,
    pub message_count: usize,
}

/// Metadata of a session: its archived windows.
pub struct SessionMeta {
    pub session_id: String,
    pub windows: Vec<WindowMeta>,
}

/// One archived message.
pub struct MessageRecord {
    pub window: usize,
    pub index: usize,
    pub role: String,
    pub name: Option<String>,
    pub content: String,
    pub ts: String,
}

/// A listed message.
pub struct ItemSummary {
    pub window: usize,
    pub index: usize,
    pub role: String,
    pub name: Option<String>,
    pub content_preview: String,
}

/// A message that matched a search.
pub struct SearchResult {
    pub window: usize,
    pub index: usize,
    pub role: String,
    pub name: Option<String>,
    pub match_preview: String,
}

// ── Messages ────────────────────────────────────────────────────────────────

pub open spec fn role_of(m: Message) -> Seq<char> {
    match m {
        Message::System { .. } => "system"@,
        Message::User { .. } => "user"@,
        Message::Assistant { .. } => "assistant"@,
        Message::Tool { .. } => "tool"@,
        Message::Custom { role, .. } => role@,
    }
}

pub open spec fn content_of(m: Message) -> Seq<char> {
    match m {
        Message::System { content } => content@,
        Message::User { content } => content@,
        Message::Assistant { content, .. } => match content {
            Some(c) => c@,
            None => Seq::empty(),
        },
        Message::Tool { content, .. } => content@,
        Message::Custom { data, .. } => data@,
    }
}

pub open spec fn name_of(m: Message) -> Option<Seq<char>> {
    match m {
        Message::Tool { name, .. } => opt_view(name),
        _ => None,
    }
}

fn clone_opt(o: &Option<String>) -> (r: Option<String>)
    ensures
        r == *o,
{
    match o {
        Some(s) => Some(s.clone()),
        None => None,
    }
}

/// The role of a message.
pub fn message_role(msg: &Message) -> (r: String)
    ensures
        r@ == role_of(*msg),
{
    match msg {
        Message::System { .. } => string_of(&chars_of("system")),
        Message::User { .. } => string_of(&chars_of("user")),
        Message::Assistant { .. } => string_of(&chars_of("assistant")),
        Message::Tool { .. } => string_of(&chars_of("tool")),
        Message::Custom { role, .. } => role.clone(),
    }
}

/// The content of a message; empty for an assistant message without text.
pub fn message_content(msg: &Message) -> (r: String)
    ensures
        r@ == content_of(*msg),
{
    match msg {
        Message::System { content } => content.clone(),
        Message::User { content } => content.clone(),
        Message::Assistant { content, .. } => match content {
            Some(c) => c.clone(),
            None => String::new(),
        },
        Message::Tool { content, .. } => content.clone(),
        Message::Custom { data, .. } => data.clone(),
    }
}

/// The tool name of a tool message.
pub fn message_name(msg: &Message) -> (r: Option<String>)
    ensures
        opt_view(r) == name_of(*msg),
{
    match msg {
        Message::Tool { name, .. } => clone_opt(name),
        _ => None,
    }
}

/// The archive record of message `index` of window `window`, stamped `ts`.
pub fn message_record(window: usize, index: usize, msg: &Message, ts: &str) -> (r: MessageRecord)
    ensures
        r.window == window,
        r.index == index,
        r.role@ == role_of(*msg),
        opt_view(r.name) == name_of(*msg),
        r.content@ == content_of(*msg),
        r.ts@ == ts@,
{
    MessageRecord {
        window,
        index,
        role: message_role(msg),
        name: message_name(msg),
        content: message_content(msg),
        ts: string_of(&chars_of(ts)),
    }
}

// ── Previews ────────────────────────────────────────────────────────────────

/// Byte `b` of `s` is where a character starts, or the end of `s`.
pub open spec fn char_boundary(s: Seq<char>, b: nat) -> bool {
    exists|k: int| 0 <= k <= s.len() && byte_offset(s, k) == b
}

/// `s` can be cut at byte `max`: it is no longer, or `max` is a character
/// boundary.
pub open spec fn cut_ok(s: Seq<char>, max: nat) -> bool {
    byte_len(s) <= max || char_boundary(s, max)
}

/// The number of characters of `s` in its first `b` bytes, where `b` is a
/// character boundary.
pub open spec fn chars_before_byte(s: Seq<char>, b: nat) -> int {
    choose|k: int| 0 <= k <= s.len() && byte_offset(s, k) == b
}

/// `s` cut to its first `max` bytes, with `...` after a cut.
pub open spec fn preview_text(s: Seq<char>, max: nat) -> Seq<char> {
    if byte_len(s) <= max {
        s
    } else {
        s.take(chars_before_byte(s, max)) + "..."@
    }
}

/// The index of the character that starts at byte `max` of `h`.
fn char_index_at_byte(h: &Vec<char>, table: &Vec<usize>, max: usize) -> (k: usize)
    requires
        table@.len() == h@.len() + 1,
        forall|i: int| 0 <= i <= h@.len() ==> table@[i] == byte_offset(h@, i),
        char_boundary(h@, max as nat),
    ensures
        k <= h@.len(),
        k == chars_before_byte(h@, max as nat),
{
    let ghost k0 = chars_before_byte(h@, max as nat);
    let n = h.len();
    let mut k: usize = 0;
    while table[k] != max
        invariant
            n == h@.len(),
            0 <= k0 <= h@.len(),
            byte_offset(h@, k0) == max,
            k <= k0,
            table@.len() == h@.len() + 1,
            forall|i: int| 0 <= i <= h@.len() ==> table@[i] == byte_offset(h@, i),
        decreases k0 - k,
    {
        assert(table@[k as int] == byte_offset(h@, k as int));
        assert(k != k0);
        assert(k < h@.len());
        k = k + 1;
    }
    proof {
        crate::file::edit_file::lemma_byte_offset_injective(h@, k as int, k0);
    }
    k
}

/// Whether `s` can be cut at byte `max`.
pub fn cut_fits(s: &str, max: usize) -> (b: bool)
    ensures
        b == cut_ok(s@, max as nat),
{
    let total = s.as_bytes().len();
    if total <= max {
        return true;
    }
    let c = chars_of(s);
    let table = byte_offset_table(&c, total);
    let mut k: usize = 0;
    while k < table.len()
        invariant
            c@ == s@,
            k <= c@.len() + 1,
            table@.len() == c@.len() + 1,
            forall|i: int| 0 <= i <= c@.len() ==> table@[i] == byte_offset(c@, i),
            forall|i: int| 0 <= i < k ==> byte_offset(c@, i) != max,
        decreases c@.len() + 1 - k,
    {
        if table[k] == max {
            assert(byte_offset(c@, k as int) == max);
            assert(char_boundary(c@, max as nat));
            return true;
        }
        assert(table@[k as int] == byte_offset(c@, k as int));
        k = k + 1;
    }
    false
}

/// `s` cut to its first `max_chars` bytes, with `...` after a cut.
pub fn truncate_str(s: &str, max_chars: usize) -> (r: String)
    requires
        cut_ok(s@, max_chars as nat),
    ensures
        r@ == preview_text(s@, max_chars as nat),
{
    let c = chars_of(s);
    let total = s.as_bytes().len();
    if total <= max_chars {
        return string_of(&c);
    }
    let table = byte_offset_table(&c, total);
    let k = char_index_at_byte(&c, &table, max_chars);
    let mut out = String::new();
    push_chars(&mut out, &c[0..k]);
    push_str(&mut out, "...");
    assert(c@.subrange(0, k as int) =~= c@.take(k as int));
    out
}

/// The text around the first match of `query_lower` in the lowercase form
/// of `content`: `context` characters on each side, marked `...` where cut;
/// without a match, the first `2 * context` characters.
pub open spec fn match_preview_text(content: Seq<char>, query_lower: Seq<char>, context: nat) -> Seq<char> {
    match first_match_from(lowercase(content), query_lower, 0) {
        Some(pos) => {
            let end = if pos + query_lower.len() + context < content.len() {
                pos + query_lower.len() + context
            } else {
                content.len() as int
            };
            let start0 = if pos > context {
                pos - context
            } else {
                0
            };
            let start = if start0 < end {
                start0
            } else {
                end
            };
            let snippet = content.subrange(start, end);
            if start0 > 0 {
                "..."@ + snippet + "..."@
            } else {
                snippet + "..."@
            }
        },
        None => preview_text(content, 2 * context),
    }
}

/// The text around the first match of `query_lower` (compared with the
/// lowercase form of `content`).
pub fn extract_match_preview(content: &str, query_lower: &str, context_chars: usize) -> (r: String)
    requires
        context_chars <= usize::MAX / 2,
        first_match_from(lowercase(content@), query_lower@, 0) is None ==> cut_ok(
            content@,
            2 * context_chars as nat,
        ),
    ensures
        r@ == match_preview_text(content@, query_lower@, context_chars as nat),
{
    let c = chars_of(content);
    let lc = chars_of(to_lower(content).as_str());
    let q = chars_of(query_lower);
    match find_first(&lc, &q) {
        Some(pos) => {
            proof {
                crate::text::lemma_first_match(lc@, q@, 0);
            }
            let far: u128 = pos as u128 + q.len() as u128 + context_chars as u128;
            let end: usize = if far < c.len() as u128 {
                far as usize
            } else {
                c.len()
            };
            let start0: usize = if pos > context_chars {
                pos - context_chars
            } else {
                0
            };
            let start = if start0 < end {
                start0
            } else {
                end
            };
            let snippet = copy_range(&c, start, end);
            let mut out = String::new();
            if start0 > 0 {
                push_str(&mut out, "...");
            }
            push_chars(&mut out, &snippet);
            push_str(&mut out, "...");
            out
        },
        None => truncate_str(content, context_chars * 2),
    }
}

// ── Store ───────────────────────────────────────────────────────────────────

/// History of one session, stored under `<base_dir>/history/<session_id>/`.
pub struct HistoryStore {
    pub base_dir: PathBuf,
    pub session_id: String,
}

/// Keeps a record: its role is `role` and its tool name `tool_name`, where
/// given.
pub open spec fn record_selected(r: MessageRecord, role: Option<Seq<char>>, tool_name: Option<Seq<char>>) -> bool {
    &&& (role matches Some(x) ==> r.role@ == x)
    &&& (tool_name matches Some(t) ==> opt_view(r.name) == Some(t))
}

/// The selected records of `recs`, in order.
pub open spec fn selected(recs: Seq<MessageRecord>, role: Option<Seq<char>>, tool_name: Option<Seq<char>>) -> Seq<MessageRecord>
    decreases recs.len(),
{
    if recs.len() == 0 {
        Seq::empty()
    } else if record_selected(recs.last(), role, tool_name) {
        selected(recs.drop_last(), role, tool_name).push(recs.last())
    } else {
        selected(recs.drop_last(), role, tool_name)
    }
}

/// The records of all windows, in order.
pub open spec fn all_records(windows: Seq<Vec<MessageRecord>>) -> Seq<MessageRecord>
    decreases windows.len(),
{
    if windows.len() == 0 {
        Seq::empty()
    } else {
        all_records(windows.drop_last()) + windows.last()@
    }
}

/// `item` lists record `r`.
pub open spec fn summarizes(item: ItemSummary, r: MessageRecord) -> bool {
    &&& item.window == r.window
    &&& item.index == r.index
    &&& item.role@ == r.role@
    &&& opt_view(item.name) == opt_view(r.name)
    &&& item.content_preview@ == preview_text(r.content@, PREVIEW_CHARS as nat)
}

/// The records listed: the selected ones, newest first if asked, at most
/// `limit`.
pub open spec fn listed_records(
    windows: Seq<Vec<MessageRecord>>,
    role: Option<Seq<char>>,
    tool_name: Option<Seq<char>>,
    limit: nat,
    recent_first: bool,
) -> Seq<MessageRecord> {
    let s = selected(all_records(windows), role, tool_name);
    let ordered = if recent_first {
        s.reverse()
    } else {
        s
    };
    if ordered.len() <= limit {
        ordered
    } else {
        ordered.take(limit as int)
    }
}

fn str_opt_eq(a: &String, b: Option<&str>) -> (r: bool)
    requires
        b is Some,
    ensures
        r == (a@ == b.unwrap()@),
{
    match b {
        Some(x) => chars_eq(&chars_of(a.as_str()), &chars_of(x)),
        None => false,
    }
}

fn selects(r: &MessageRecord, role: Option<&str>, tool_name: Option<&str>) -> (b: bool)
    ensures
        b == record_selected(*r, str_opt_view(role), str_opt_view(tool_name)),
{
    if role.is_some() && !str_opt_eq(&r.role, role) {
        return false;
    }
    match tool_name {
        Some(t) => match &r.name {
            Some(n) => chars_eq(&chars_of(n.as_str()), &chars_of(t)),
            None => false,
        },
        None => true,
    }
}

fn summary_of(r: &MessageRecord) -> (item: ItemSummary)
    requires
        cut_ok(r.content@, PREVIEW_CHARS as nat),
    ensures
        summarizes(item, *r),
{
    ItemSummary {
        window: r.window,
        index: r.index,
        role: r.role.clone(),
        name: clone_opt(&r.name),
        content_preview: truncate_str(r.content.as_str(), PREVIEW_CHARS),
    }
}

/// Appends the selected records of `recs` to `out`.
fn push_selected(
    out: &mut Vec<MessageRecord>,
    recs: &Vec<MessageRecord>,
    role: Option<&str>,
    tool_name: Option<&str>,
)
    ensures
        final(out)@ == old(out)@ + selected(recs@, str_opt_view(role), str_opt_view(tool_name)),
{
    let ghost o = out@;
    let mut i: usize = 0;
    assert(recs@.take(0) =~= Seq::<MessageRecord>::empty());
    while i < recs.len()
        invariant
            i <= recs@.len(),
            out@ == o + selected(recs@.take(i as int), str_opt_view(role), str_opt_view(tool_name)),
        decreases recs@.len() - i,
    {
        let r = &recs[i];
        assert(recs@.take(i + 1).drop_last() =~= recs@.take(i as int));
        if selects(r, role, tool_name) {
            out.push(MessageRecord {
                window: r.window,
                index: r.index,
                role: r.role.clone(),
                name: clone_opt(&r.name),
                content: r.content.clone(),
                ts: r.ts.clone(),
            });
            assert(out@ =~= o + selected(recs@.take(i + 1), str_opt_view(role), str_opt_view(tool_name)));
        }
        i = i + 1;
    }
    assert(recs@.take(i as int) =~= recs@);
}

/// The selected records of all windows, in order.
/// Every record that a listing with these filters selects can have its
/// preview cut.
pub open spec fn previews_cut(windows: Seq<Vec<MessageRecord>>, role: Option<Seq<char>>, tool_name: Option<Seq<char>>) -> bool {
    forall|k: int|
        0 <= k < selected(all_records(windows), role, tool_name).len() ==> cut_ok(
            #[trigger] selected(all_records(windows), role, tool_name)[k].content@,
            PREVIEW_CHARS as nat,
        )
}

/// Whether every record that a listing with these filters selects can have
/// its preview cut.
pub fn previews_fit(windows: &Vec<Vec<MessageRecord>>, role: Option<&str>, tool_name: Option<&str>) -> (b: bool)
    ensures
        b == previews_cut(windows@, str_opt_view(role), str_opt_view(tool_name)),
{
    let recs = select_all(windows, role, tool_name);
    let mut i: usize = 0;
    while i < recs.len()
        invariant
            i <= recs@.len(),
            recs@ == selected(all_records(windows@), str_opt_view(role), str_opt_view(tool_name)),
            forall|k: int| 0 <= k < i ==> cut_ok(#[trigger] recs@[k].content@, PREVIEW_CHARS as nat),
        decreases recs@.len() - i,
    {
        if !cut_fits(recs[i].content.as_str(), PREVIEW_CHARS) {
            return false;
        }
        i = i + 1;
    }
    true
}

fn select_all(windows: &Vec<Vec<MessageRecord>>, role: Option<&str>, tool_name: Option<&str>) -> (r: Vec<MessageRecord>)
    ensures
        r@ == selected(all_records(windows@), str_opt_view(role), str_opt_view(tool_name)),
{
    let mut r: Vec<MessageRecord> = Vec::new();
    let mut w: usize = 0;
    assert(windows@.take(0) =~= Seq::<Vec<MessageRecord>>::empty());
    while w < windows.len()
        invariant
            w <= windows@.len(),
            r@ == selected(all_records(windows@.take(w as int)), str_opt_view(role), str_opt_view(tool_name)),
        decreases windows@.len() - w,
    {
        assert(windows@.take(w + 1).drop_last() =~= windows@.take(w as int));
        proof {
            lemma_selected_concat(
                all_records(windows@.take(w as int)),
                windows@[w as int]@,
                str_opt_view(role),
                str_opt_view(tool_name),
            );
        }
        push_selected(&mut r, &windows[w], role, tool_name);
        w = w + 1;
    }
    assert(windows@.take(w as int) =~= windows@);
    r
}

/// Selection distributes over concatenation.
pub proof fn lemma_selected_concat(
    a: Seq<MessageRecord>,
    b: Seq<MessageRecord>,
    role: Option<Seq<char>>,
    tool_name: Option<Seq<char>>,
)
    ensures
        selected(a + b, role, tool_name) == selected(a, role, tool_name) + selected(b, role, tool_name),
    decreases b.len(),
{
    if b.len() == 0 {
        assert(a + b =~= a);
        assert(selected(a, role, tool_name) + selected(b, role, tool_name) =~= selected(a, role, tool_name));
    } else {
        assert((a + b).drop_last() =~= a + b.drop_last());
        lemma_selected_concat(a, b.drop_last(), role, tool_name);
        assert(selected(a + b, role, tool_name) =~= selected(a, role, tool_name) + selected(b, role, tool_name));
    }
}

impl HistoryStore {
    /// The store of `session_id` under `base_dir`.
    pub fn new(base_dir: &Path, session_id: &str) -> (r: Self)
        ensures
            r.session_id@ == session_id@,
    {
        HistoryStore { base_dir: owned_path(base_dir), session_id: string_of(&chars_of(session_id)) }
    }

    /// Metadata of a session with no archived windows.
    pub fn default_metadata(&self) -> (m: SessionMeta)
        ensures
            m.session_id@ == self.session_id@,
            m.windows@.len() == 0,
    {
        SessionMeta { session_id: self.session_id.clone(), windows: Vec::new() }
    }

    /// The archived window ids, in ascending order.
    pub fn list_windows(&self, meta: &SessionMeta) -> (ids: Vec<String>)
        ensures
            vstd::relations::sorted_by(string_views(ids@), text_order()),
            string_views(ids@).to_multiset() == meta.windows@.map_values(|w: WindowMeta| w.id@).to_multiset(),
    {
        let mut ids: Vec<String> = Vec::new();
        let mut i: usize = 0;
        while i < meta.windows.len()
            invariant
                i <= meta.windows@.len(),
                string_views(ids@) == meta.windows@.take(i as int).map_values(|w: WindowMeta| w.id@),
            decreases meta.windows@.len() - i,
        {
            let id = meta.windows[i].id.clone();
            assert(id@ == meta.windows@[i as int].id@);
            let ghost before = ids@;
            ids.push(id);
            assert(string_views(ids@) =~= string_views(before).push(meta.windows@[i as int].id@));
            assert(meta.windows@.take(i + 1) =~= meta.windows@.take(i as int).push(meta.windows@[i as int]));
            i = i + 1;
            assert(string_views(ids@) =~= meta.windows@.take(i as int).map_values(|w: WindowMeta| w.id@));
        }
        assert(meta.windows@.take(i as int) =~= meta.windows@);
        sort_strings(ids)
    }

    /// The listed messages of `windows` (the records of each window read),
    /// with `role` and `tool_name` filters, newest first if asked, at most
    /// `limit`.
    pub fn list_items(
        &self,
        windows: &Vec<Vec<MessageRecord>>,
        role: Option<&str>,
        tool_name: Option<&str>,
        limit: usize,
        recent_first: bool,
    ) -> (items: Vec<ItemSummary>)
        requires
            previews_cut(windows@, str_opt_view(role), str_opt_view(tool_name)),
        ensures
            items@.len() == listed_records(windows@, str_opt_view(role), str_opt_view(tool_name), limit as nat, recent_first).len(),
            forall|k: int|
                0 <= k < items@.len() ==> summarizes(
                    #[trigger] items@[k],
                    listed_records(windows@, str_opt_view(role), str_opt_view(tool_name), limit as nat, recent_first)[k],
                ),
    {
        let recs = select_all(windows, role, tool_name);
        let ghost s = recs@;
        let ghost ordered = if recent_first {
            s.reverse()
        } else {
            s
        };
        let n = recs.len();
        let count = if n <= limit {
            n
        } else {
            limit
        };
        let mut items: Vec<ItemSummary> = Vec::new();
        let mut k: usize = 0;
        while k < count
            invariant
                k <= count <= n,
                n == s.len(),
                s == recs@,
                ordered == (if recent_first {
                    s.reverse()
                } else {
                    s
                }),
                items@.len() == k,
                forall|j: int| 0 <= j < k ==> summarizes(#[trigger] items@[j], ordered[j]),
                forall|j: int| 0 <= j < s.len() ==> cut_ok(#[trigger] s[j].content@, PREVIEW_CHARS as nat),
            decreases count - k,
        {
            let idx = if recent_first {
                n - 1 - k
            } else {
                k
            };
            assert(ordered[k as int] == recs@[idx as int]);
            items.push(summary_of(&recs[idx]));
            k = k + 1;
        }
        items
    }

    /// The content of item `item_id` among the records of one window, from
    /// character `offset_chars` (default 0) for at most `limit_chars`
    /// characters (default all), with the content's length in characters.
    pub fn read_item(
        &self,
        records: &Vec<MessageRecord>,
        item_id: usize,
        offset_chars: Option<usize>,
        limit_chars: Option<usize>,
    ) -> (r: Option<(String, usize)>)
        requires
            item_read_fits(records@, item_id, offset_chars, limit_chars),
        ensures
            match first_with_index(records@, item_id) {
                None => r is None,
                Some(rec) => r matches Some(p) && p.1 == rec.content@.len() && p.0@ == item_slice(
                    rec.content@,
                    offset_chars,
                    limit_chars,
                ),
            },
    {
        let mut i: usize = 0;
        while i < records.len()
            invariant
                i <= records@.len(),
                item_read_fits(records@, item_id, offset_chars, limit_chars),
                forall|k: int| 0 <= k < i ==> #[trigger] records@[k].index != item_id,
            decreases records@.len() - i,
        {
            if records[i].index == item_id {
                proof {
                    lemma_first_with_index(records@, item_id, i as int);
                }
                let c = chars_of(records[i].content.as_str());
                let total = c.len();
                let start = match offset_chars {
                    Some(o) => if o < total {
                        o
                    } else {
                        total
                    },
                    None => 0,
                };
                let end = match limit_chars {
                    Some(l) => if start + l < total {
                        start + l
                    } else {
                        total
                    },
                    None => total,
                };
                let part = copy_range(&c, start, end);
                return Some((string_of(&part), total));
            }
            i = i + 1;
        }
        proof {
            lemma_first_with_index_none(records@, item_id);
        }
        None
    }

    /// The messages of `windows` (the records of each window read) whose
    /// content contains `query` ignoring case, with the `role` filter, up to
    /// `limit` messages.
    pub fn search_contents(
        &self,
        windows: &Vec<Vec<MessageRecord>>,
        query: &str,
        role: Option<&str>,
        limit: usize,
    ) -> (results: Vec<SearchResult>)
        ensures
            results@.len() == found_records(windows@, lowercase(query@), str_opt_view(role), limit as nat).len(),
            forall|k: int|
                0 <= k < results@.len() ==> shows_match(
                    #[trigger] results@[k],
                    found_records(windows@, lowercase(query@), str_opt_view(role), limit as nat)[k],
                    lowercase(query@),
                ),
    {
        let query_lower = to_lower(query);
        let ql = chars_of(query_lower.as_str());
        let recs = select_all(windows, role, None);
        let ghost all = recs@;
        let mut results: Vec<SearchResult> = Vec::new();
        let ghost mut found: Seq<MessageRecord> = Seq::empty();
        let mut i: usize = 0;
        assert(all.take(0) =~= Seq::<MessageRecord>::empty());
        while i < recs.len()
            invariant
                i <= recs@.len(),
                all == recs@,
                all == selected(all_records(windows@), str_opt_view(role), None),
                ql@ == lowercase(query@),
                query_lower@ == lowercase(query@),
                found == matching(all.take(i as int), lowercase(query@)),
                found.len() <= limit,
                found_records(windows@, lowercase(query@), str_opt_view(role), limit as nat) == capped_from(all, lowercase(query@), limit as nat, i as int, found),
                results@.len() == found.len(),
                forall|k: int| 0 <= k < results@.len() ==> shows_match(#[trigger] results@[k], found[k], lowercase(query@)),
            decreases recs@.len() - i,
        {
            if results.len() >= limit {
                return results;
            }
            let r = &recs[i];
            assert(all.take(i + 1).drop_last() =~= all.take(i as int));
            let lcontent = chars_of(to_lower(r.content.as_str()).as_str());
            if contains_chars(&lcontent, &ql) {
                proof {
                    crate::text::lemma_first_match(lcontent@, ql@, 0);
                    let w = choose|w: int| #[trigger] crate::text::matches_at(lcontent@, ql@, w);
                    if w < 0 {
                        assert(false);
                    }
                }
                let preview = extract_match_preview(r.content.as_str(), query_lower.as_str(), MATCH_CONTEXT_CHARS);
                results.push(SearchResult {
                    window: r.window,
                    index: r.index,
                    role: r.role.clone(),
                    name: clone_opt(&r.name),
                    match_preview: preview,
                });
                proof {
                    found = found.push(all[i as int]);
                }
            }
            i = i + 1;
        }
        results
    }
}

/// The records of `s` whose lowercase content contains `q`.
pub open spec fn matching(s: Seq<MessageRecord>, q: Seq<char>) -> Seq<MessageRecord>
    decreases s.len(),
{
    if s.len() == 0 {
        Seq::empty()
    } else if contains_seq(lowercase(s.last().content@), q) {
        matching(s.drop_last(), q).push(s.last())
    } else {
        matching(s.drop_last(), q)
    }
}

/// The search outcome from position `i` on, with `found` collected so far:
/// collecting stops once `limit` results are found.
pub open spec fn capped_from(s: Seq<MessageRecord>, q: Seq<char>, limit: nat, i: int, found: Seq<MessageRecord>) -> Seq<MessageRecord>
    decreases s.len() - i,
{
    if found.len() >= limit || i < 0 || i >= s.len() {
        found
    } else if contains_seq(lowercase(s[i].content@), q) {
        capped_from(s, q, limit, i + 1, found.push(s[i]))
    } else {
        capped_from(s, q, limit, i + 1, found)
    }
}

/// The records found by a search: matching ones among the selected, in
/// order, stopping once `limit` are found.
pub open spec fn found_records(windows: Seq<Vec<MessageRecord>>, q: Seq<char>, role: Option<Seq<char>>, limit: nat) -> Seq<MessageRecord> {
    capped_from(selected(all_records(windows), role, None), q, limit, 0, Seq::empty())
}

/// The records that contain the lowercase query `q` ignoring case.
pub open spec fn has_query(q: Seq<char>) -> spec_fn(MessageRecord) -> bool {
    |r: MessageRecord| contains_seq(lowercase(r.content@), q)
}

proof fn lemma_filter_prefix(s: Seq<MessageRecord>, p: spec_fn(MessageRecord) -> bool, j: int, n: int)
    requires
        0 <= j <= n <= s.len(),
    ensures
        s.take(j).filter(p).len() <= s.take(n).filter(p).len(),
        s.take(n).filter(p).take(s.take(j).filter(p).len() as int) == s.take(j).filter(p),
    decreases n - j,
{
    reveal(Seq::filter);
    let fj = s.take(j).filter(p);
    if j == n {
        assert(fj.take(fj.len() as int) =~= fj);
    } else {
        lemma_filter_prefix(s, p, j, n - 1);
        assert(s.take(n).drop_last() =~= s.take(n - 1));
        let fp = s.take(n - 1).filter(p);
        let fnn = s.take(n).filter(p);
        assert(fnn.take(fj.len() as int) =~= fp.take(fj.len() as int));
    }
}

proof fn lemma_capped_filter(s: Seq<MessageRecord>, q: Seq<char>, limit: nat, i: int)
    requires
        0 <= i <= s.len(),
        s.take(i).filter(has_query(q)).len() <= limit,
    ensures
        ({
            let all = s.filter(has_query(q));
            capped_from(s, q, limit, i, s.take(i).filter(has_query(q))) == if all.len() <= limit {
                all
            } else {
                all.take(limit as int)
            }
        }),
    decreases s.len() - i,
{
    reveal(Seq::filter);
    let p = has_query(q);
    let n = s.len() as int;
    let all = s.filter(p);
    let found = s.take(i).filter(p);
    assert(s.take(n) =~= s);
    lemma_filter_prefix(s, p, i, n);
    if found.len() >= limit {
        assert(found.len() == limit);
    } else if i < n {
        assert(s.take(i + 1).drop_last() =~= s.take(i));
        assert(s.take(i + 1).last() == s[i]);
        lemma_filter_prefix(s, p, i, i + 1);
        lemma_capped_filter(s, q, limit, i + 1);
    }
}

/// A history search returns, in order, the selected messages that contain
/// the query ignoring case, up to `limit` of them: a message without the
/// query never ends the search.
pub proof fn search_finds_the_first_matches(windows: Seq<Vec<MessageRecord>>, q: Seq<char>, role: Option<Seq<char>>, limit: nat)
    ensures
        ({
            let all = selected(all_records(windows), role, None).filter(has_query(q));
            found_records(windows, q, role, limit) == if all.len() <= limit {
                all
            } else {
                all.take(limit as int)
            }
        }),
{
    reveal(Seq::filter);
    let s = selected(all_records(windows), role, None);
    assert(s.take(0) =~= Seq::<MessageRecord>::empty());
    assert(s.take(0).filter(has_query(q)) =~= Seq::<MessageRecord>::empty());
    lemma_capped_filter(s, q, limit, 0);
}

/// Listing and searching select exactly the records that pass the role and
/// tool-name filters, in order.
pub proof fn selection_is_the_filter(recs: Seq<MessageRecord>, role: Option<Seq<char>>, tool_name: Option<Seq<char>>)
    ensures
        selected(recs, role, tool_name) == recs.filter(|r: MessageRecord| record_selected(r, role, tool_name)),
    decreases recs.len(),
{
    reveal(Seq::filter);
    if recs.len() > 0 {
        selection_is_the_filter(recs.drop_last(), role, tool_name);
    }
}

/// Listing shows `min(limit, n)` of the `n` selected records: the first
/// ones in order, or with `recent_first` the last ones, newest first.
pub proof fn listing_shows_newest_first(
    windows: Seq<Vec<MessageRecord>>,
    role: Option<Seq<char>>,
    tool_name: Option<Seq<char>>,
    limit: nat,
    recent_first: bool,
)
    ensures
        ({
            let s = selected(all_records(windows), role, tool_name);
            let l = listed_records(windows, role, tool_name, limit, recent_first);
            &&& l.len() == if s.len() <= limit { s.len() } else { limit }
            &&& forall|k: int| 0 <= k < l.len() ==> #[trigger] l[k] == if recent_first {
                s[s.len() - 1 - k]
            } else {
                s[k]
            }
        }),
{
}

/// Every selected record passes the filters.
pub proof fn selected_pass_filters(recs: Seq<MessageRecord>, role: Option<Seq<char>>, tool_name: Option<Seq<char>>)
    ensures
        forall|k: int|
            0 <= k < selected(recs, role, tool_name).len() ==> record_selected(
                #[trigger] selected(recs, role, tool_name)[k],
                role,
                tool_name,
            ),
    decreases recs.len(),
{
    if recs.len() > 0 {
        selected_pass_filters(recs.drop_last(), role, tool_name);
        let prev = selected(recs.drop_last(), role, tool_name);
        let cur = selected(recs, role, tool_name);
        assert forall|k: int| 0 <= k < cur.len() implies record_selected(#[trigger] cur[k], role, tool_name) by {
            if k < prev.len() {
                assert(cur[k] == prev[k]);
            }
        }
    }
}

/// A listing holds at most `limit` messages, each passing the filters.
pub proof fn listing_respects_limit_and_filters(
    windows: Seq<Vec<MessageRecord>>,
    role: Option<Seq<char>>,
    tool_name: Option<Seq<char>>,
    limit: nat,
    recent_first: bool,
)
    ensures
        listed_records(windows, role, tool_name, limit, recent_first).len() <= limit,
        forall|k: int|
            0 <= k < listed_records(windows, role, tool_name, limit, recent_first).len()
                ==> record_selected(
                #[trigger] listed_records(windows, role, tool_name, limit, recent_first)[k],
                role,
                tool_name,
            ),
{
    let s = selected(all_records(windows), role, tool_name);
    selected_pass_filters(all_records(windows), role, tool_name);
    let l = listed_records(windows, role, tool_name, limit, recent_first);
    assert forall|k: int| 0 <= k < l.len() implies record_selected(#[trigger] l[k], role, tool_name) by {
        if recent_first {
            assert(l[k] == s[s.len() - 1 - k]);
        } else {
            assert(l[k] == s[k]);
        }
    }
}

/// Collecting search hits from position `i` on keeps every hit a match and
/// stops at `limit` hits (at one hit when `limit` is zero).
pub proof fn capped_from_bounds(s: Seq<MessageRecord>, q: Seq<char>, limit: nat, i: int, found: Seq<MessageRecord>)
    requires
        found.len() <= limit,
        forall|k: int| 0 <= k < found.len() ==> contains_seq(lowercase(#[trigger] found[k].content@), q),
        forall|k: int| 0 <= k < found.len() ==> s.contains(#[trigger] found[k]),
    ensures
        capped_from(s, q, limit, i, found).len() <= limit,
        forall|k: int|
            0 <= k < capped_from(s, q, limit, i, found).len() ==> contains_seq(
                lowercase(#[trigger] capped_from(s, q, limit, i, found)[k].content@),
                q,
            ) && s.contains(capped_from(s, q, limit, i, found)[k]),
    decreases s.len() - i,
{
    if 0 <= i < s.len() && found.len() < limit {
        if contains_seq(lowercase(s[i].content@), q) {
            let f = found.push(s[i]);
            assert forall|k: int| 0 <= k < f.len() implies contains_seq(lowercase(#[trigger] f[k].content@), q) && s.contains(f[k]) by {
                if k < found.len() {
                    assert(f[k] == found[k]);
                }
            }
            capped_from_bounds(s, q, limit, i + 1, f);
        } else {
            capped_from_bounds(s, q, limit, i + 1, found);
        }
    }
}

/// A search returns at most `limit` messages;
/// each contains the query ignoring case and passes the role filter.
pub proof fn search_respects_limit_and_query(windows: Seq<Vec<MessageRecord>>, q: Seq<char>, role: Option<Seq<char>>, limit: nat)
    ensures
        found_records(windows, q, role, limit).len() <= limit,
        forall|k: int|
            0 <= k < found_records(windows, q, role, limit).len() ==> contains_seq(
                lowercase(#[trigger] found_records(windows, q, role, limit)[k].content@),
                q,
            ) && record_selected(found_records(windows, q, role, limit)[k], role, None),
{
    let s = selected(all_records(windows), role, None);
    capped_from_bounds(s, q, limit, 0, Seq::empty());
    assert(found_records(windows, q, role, limit) == capped_from(s, q, limit, 0, Seq::empty()));
    selected_pass_filters(all_records(windows), role, None);
    let f = found_records(windows, q, role, limit);
    assert forall|k: int| 0 <= k < f.len() implies record_selected(#[trigger] f[k], role, None) by {
        assert(contains_seq(lowercase(f[k].content@), q));
        assert(s.contains(f[k]));
        let j = choose|j: int| 0 <= j < s.len() && s[j] == f[k];
        assert(record_selected(s[j], role, None));
    }
}

/// `res` reports record `r` for the lowercase query `q`.
pub open spec fn shows_match(res: SearchResult, r: MessageRecord, q: Seq<char>) -> bool {
    &&& res.window == r.window
    &&& res.index == r.index
    &&& res.role@ == r.role@
    &&& opt_view(res.name) == opt_view(r.name)
    &&& res.match_preview@ == match_preview_text(r.content@, q, MATCH_CONTEXT_CHARS as nat)
}

/// Reading back an archived message: in a window whose records carry the
/// indices `0, 1, ...` in order, item `k` is the record at position `k`, and
/// reading it without offset or limit gives its whole content.
pub proof fn archived_item_reads_back(recs: Seq<MessageRecord>, k: int)
    requires
        0 <= k < recs.len(),
        forall|j: int| 0 <= j < recs.len() ==> #[trigger] recs[j].index == j,
    ensures
        first_with_index(recs, k as usize) == Some(recs[k]),
        item_slice(recs[k].content@, None, None) == recs[k].content@,
{
    assert(recs[k].index == k);
    assert forall|j: int| 0 <= j < k implies #[trigger] recs[j].index != k as usize by {}
    lemma_first_with_index(recs, k as usize, k);
    assert(recs[k].content@.subrange(0, recs[k].content@.len() as int) =~= recs[k].content@);
}

/// The first record with index `item_id`.
pub open spec fn first_with_index(recs: Seq<MessageRecord>, item_id: usize) -> Option<MessageRecord>
    decreases recs.len(),
{
    if recs.len() == 0 {
        None
    } else if recs[0].index == item_id {
        Some(recs[0])
    } else {
        first_with_index(recs.drop_first(), item_id)
    }
}

pub proof fn lemma_first_with_index(recs: Seq<MessageRecord>, item_id: usize, i: int)
    requires
        0 <= i < recs.len(),
        recs[i].index == item_id,
        forall|k: int| 0 <= k < i ==> #[trigger] recs[k].index != item_id,
    ensures
        first_with_index(recs, item_id) == Some(recs[i]),
    decreases i,
{
    if i > 0 {
        assert forall|k: int| 0 <= k < i - 1 implies #[trigger] recs.drop_first()[k].index != item_id by {
            assert(recs.drop_first()[k] == recs[k + 1]);
        }
        lemma_first_with_index(recs.drop_first(), item_id, i - 1);
    }
}

/// Whether reading item `item_id` of `records` from `offset_chars` for
/// `limit_chars` characters has an end that can be counted in a `usize`.
pub fn item_read_in_range(
    records: &Vec<MessageRecord>,
    item_id: usize,
    offset_chars: Option<usize>,
    limit_chars: Option<usize>,
) -> (b: bool)
    ensures
        b == item_read_fits(records@, item_id, offset_chars, limit_chars),
{
    let mut i: usize = 0;
    while i < records.len()
        invariant
            i <= records@.len(),
            forall|k: int| 0 <= k < i ==> #[trigger] records@[k].index != item_id,
        decreases records@.len() - i,
    {
        if records[i].index == item_id {
            proof {
                lemma_first_with_index(records@, item_id, i as int);
            }
            let total = chars_of(records[i].content.as_str()).len();
            let start = match offset_chars {
                Some(o) => if o < total {
                    o
                } else {
                    total
                },
                None => 0,
            };
            return match limit_chars {
                Some(l) => l <= usize::MAX - start,
                None => true,
            };
        }
        i = i + 1;
    }
    proof {
        lemma_first_with_index_none(records@, item_id);
    }
    true
}

pub proof fn lemma_first_with_index_none(recs: Seq<MessageRecord>, item_id: usize)
    requires
        forall|k: int| 0 <= k < recs.len() ==> #[trigger] recs[k].index != item_id,
    ensures
        first_with_index(recs, item_id) is None,
    decreases recs.len(),
{
    if recs.len() > 0 {
        assert forall|k: int| 0 <= k < recs.len() - 1 implies #[trigger] recs.drop_first()[k].index != item_id by {
            assert(recs.drop_first()[k] == recs[k + 1]);
        }
        lemma_first_with_index_none(recs.drop_first(), item_id);
    }
}

/// The characters of `content` from `offset` (default 0, at most the end)
/// for at most `limit` (default all).
pub open spec fn item_slice(content: Seq<char>, offset: Option<usize>, limit: Option<usize>) -> Seq<char> {
    let total = content.len();
    let start = match offset {
        Some(o) => if o < total {
            o as nat
        } else {
            total
        },
        None => 0,
    };
    let end: nat = match limit {
        Some(l) => if start + l < total {
            (start + l) as nat
        } else {
            total
        },
        None => total,
    };
    content.subrange(start as int, end as int)
}

/// The character range of a read item fits in `usize`.
pub open spec fn item_read_fits(recs: Seq<MessageRecord>, item_id: usize, offset: Option<usize>, limit: Option<usize>) -> bool {
    match first_with_index(recs, item_id) {
        Some(rec) => {
            let total = rec.content@.len();
            let start = match offset {
                Some(o) => if o < total {
                    o as nat
                } else {
                    total
                },
                None => 0,
            };
            match limit {
                Some(l) => start + l <= usize::MAX,
                None => true,
            }
        },
        None => true,
    }
}

// ── Metadata ────────────────────────────────────────────────────────────────

/// The number `n` zero-padded to three digits (`{:03}`).
pub open spec fn padded3(n: nat) -> Seq<char> {
    if dec(n).len() >= 3 {
        dec(n)
    } else {
        Seq::new((3 - dec(n).len()) as nat, |i: int| '0') + dec(n)
    }
}

fn padded3_chars(n: usize) -> (r: Vec<char>)
    ensures
        r@ == padded3(n as nat),
{
    let d = dec_chars(n as u64);
    let mut out: Vec<char> = Vec::new();
    if d.len() < 3 {
        let pad = 3 - d.len();
        let mut k: usize = 0;
        while k < pad
            invariant
                k <= pad,
                out@ == Seq::new(k as nat, |i: int| '0'),
            decreases pad - k,
        {
            out.push('0');
            k = k + 1;
            assert(out@ =~= Seq::new(k as nat, |i: int| '0'));
        }
    }
    let mut j: usize = 0;
    let ghost o = out@;
    while j < d.len()
        invariant
            j <= d@.len(),
            out@ == o + d@.take(j as int),
        decreases d@.len() - j,
    {
        out.push(d[j]);
        j = j + 1;
        assert(out@ =~= o + d@.take(j as int));
    }
    assert(d@.take(j as int) =~= d@);
    out
}

/// The id of window `window_id`: zero-padded to three digits.
pub fn window_id_string(window_id: usize) -> (s: String)
    ensures
        s@ == padded3(window_id as nat),
{
    string_of(&padded3_chars(window_id))
}

/// The archive file name of window `window_id`, e.g. `001.jsonl`.
pub fn window_file_name(window_id: usize) -> (s: String)
    ensures
        s@ == padded3(window_id as nat) + ".jsonl"@,
{
    let mut s = window_id_string(window_id);
    push_str(&mut s, ".jsonl");
    s
}

/// The window numbers among `ids`: those that parse as numbers, in order.
pub fn window_numbers(ids: &Vec<String>) -> (r: Vec<usize>)
    ensures
        r@ == parsed_ids(string_views(ids@)),
{
    let mut r: Vec<usize> = Vec::new();
    let mut i: usize = 0;
    assert(string_views(ids@).take(0) =~= Seq::<Seq<char>>::empty());
    while i < ids.len()
        invariant
            i <= ids@.len(),
            r@ == parsed_ids(string_views(ids@).take(i as int)),
        decreases ids@.len() - i,
    {
        assert(string_views(ids@).take(i + 1).drop_last() =~= string_views(ids@).take(i as int));
        match parse_usize(ids[i].as_str()) {
            Some(n) => r.push(n),
            None => {},
        }
        i = i + 1;
    }
    assert(string_views(ids@).take(i as int) =~= string_views(ids@));
    r
}

/// The numbers of the ids that parse, in order.
pub open spec fn parsed_ids(ids: Seq<Seq<char>>) -> Seq<usize>
    decreases ids.len(),
{
    if ids.len() == 0 {
        Seq::empty()
    } else {
        match parsed_usize(ids.last()) {
            Some(n) => parsed_ids(ids.drop_last()).push(n),
            None => parsed_ids(ids.drop_last()),
        }
    }
}

/// Records window `window_id` with `message_count` messages archived at
/// `now`: an existing entry with its id is updated, else one is added.
pub fn upsert_window(meta: &mut SessionMeta, window_id: usize, message_count: usize, now: &str)
    ensures
        final(meta).session_id == old(meta).session_id,
        ({
            let id = padded3(window_id as nat);
            let ids = old(meta).windows@.map_values(|w: WindowMeta| w.id@);
            if ids.contains(id) {
                let i = choose|i: int| 0 <= i < ids.len() && ids[i] == id && forall|j: int| 0 <= j < i ==> ids[j] != id;
                &&& final(meta).windows@.len() == old(meta).windows@.len()
                &&& final(meta).windows@[i].id@ == id
                &&& final(meta).windows@[i].message_count == message_count
                &&& final(meta).windows@[i].started_at@ == now@
                &&& forall|j: int| 0 <= j < old(meta).windows@.len() && j != i ==> final(meta).windows@[j] == old(meta).windows@[j]
            } else {
                &&& final(meta).windows@.len() == old(meta).windows@.len() + 1
                &&& final(meta).windows@.drop_last() == old(meta).windows@
                &&& final(meta).windows@.last().id@ == id
                &&& final(meta).windows@.last().message_count == message_count
                &&& final(meta).windows@.last().started_at@ == now@
            }
        }),
{
    let id = window_id_string(window_id);
    let ghost ids = meta.windows@.map_values(|w: WindowMeta| w.id@);
    let mut i: usize = 0;
    while i < meta.windows.len()
        invariant
            i <= meta.windows@.len(),
            meta.windows@ == old(meta).windows@,
            meta.session_id == old(meta).session_id,
            ids == old(meta).windows@.map_values(|w: WindowMeta| w.id@),
            id@ == padded3(window_id as nat),
            forall|j: int| 0 <= j < i ==> ids[j] != id@,
        decreases meta.windows@.len() - i,
    {
        if meta.windows[i].id == id {
            let ghost w = meta.windows@[i as int];
            let updated = WindowMeta { id: id.clone(), started_at: string_of(&chars_of(now)), message_count };
            let mut windows: Vec<WindowMeta> = Vec::new();
            std::mem::swap(&mut windows, &mut meta.windows);
            windows.set(i, updated);
            meta.windows = windows;
            proof {
                assert(ids[i as int] == id@);
                assert(ids.contains(id@));
                let c = choose|c: int| 0 <= c < ids.len() && ids[c] == id@ && forall|j: int| 0 <= j < c ==> ids[j] != id@;
                assert(0 <= i < ids.len() && ids[i as int] == id@ && forall|j: int| 0 <= j < i ==> ids[j] != id@);
                if c < i {
                    assert(ids[c] != id@);
                } else if c > i {
                    assert(ids[i as int] != id@);
                }
            }
            return;
        }
        i = i + 1;
    }
    let ghost before = meta.windows@;
    meta.windows.push(WindowMeta { id, started_at: string_of(&chars_of(now)), message_count });
    proof {
        assert(meta.windows@.drop_last() =~= before);
        if ids.contains(padded3(window_id as nat)) {
            let c = choose|c: int| 0 <= c < ids.len() && ids[c] == padded3(window_id as nat);
            assert(ids[c] != padded3(window_id as nat));
        }
    }
}

/// Whether a thread hint of `content` is small enough to inject.
pub fn thread_hint_fits(content: &str) -> (b: bool)
    ensures
        b == (crate::text::byte_len(content@) <= THREAD_HINT_MAX_BYTES),
{
    content.as_bytes().len() <= THREAD_HINT_MAX_BYTES
}

} // verus!

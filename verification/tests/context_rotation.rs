use phi_kernel_tools::context_rotation::history::{
    cut_fits, item_read_in_range, truncate_str, message_record, thread_hint_fits, upsert_window, HistoryStore, MessageRecord, SessionMeta,
    THREAD_HINT_MAX_BYTES,
};
use phi_kernel_tools::context_rotation::message::Message;
use phi_kernel_tools::context_rotation::notes::{match_lines, validate_path, NotesStore};
use phi_kernel_tools::context_rotation::history_tools::HistoryReadItemTool;
use std::path::Path;
use std::sync::Arc;

// ── notes: path safety, sizes, line ranges ──

fn store() -> NotesStore {
    NotesStore::new(Path::new("/tmp/notes_base"), "test_session", "main")
}

#[test]
fn reject_absolute_path() {
    assert!(store().check_write("/etc/passwd", "x").is_err());
}

#[test]
fn reject_dotdot() {
    assert!(store().check_write("../escape", "x").is_err());
}

#[test]
fn reject_tilde() {
    assert!(store().check_write("~/escape", "x").is_err());
}

#[test]
fn reject_empty_path() {
    assert!(store().check_write("", "x").is_err());
}

#[test]
fn reject_null_byte() {
    assert!(store().check_write("file\0name", "x").is_err());
}

#[test]
fn accept_valid_path() {
    assert!(store().check_write("progress.md", "ok").is_ok());
}

#[test]
fn accept_nested_path() {
    assert!(store().check_write("sub/dir/file.md", "ok").is_ok());
}

#[test]
fn validate_path_messages() {
    assert_eq!(validate_path("").unwrap_err(), "path cannot be empty");
    assert_eq!(validate_path("/x").unwrap_err(), "absolute paths are not allowed");
    assert!(validate_path("a/b.md").is_ok());
}

#[test]
fn write_rejects_oversized() {
    assert!(store().check_write("big.md", &"x".repeat(1_000_001)).is_err());
}

#[test]
fn write_accepts_exactly_1mb() {
    assert!(store().check_write("max.md", &"x".repeat(1_000_000)).is_ok());
}

#[test]
fn append_rejects_oversized() {
    assert!(store().check_append(999_999, "xx").is_err());
    assert!(store().check_append(999_999, "x").is_ok());
}

#[test]
fn read_file_line_range() {
    let s = store();
    let c = "a\nb\nc\nd\ne";
    assert_eq!(s.line_range(c, Some(2), Some(4)), "b\nc\nd");
    assert_eq!(s.line_range(c, Some(1), Some(1)), "a");
    assert_eq!(s.line_range(c, Some(5), None), "e");
    assert_eq!(s.line_range(c, None, Some(3)), "a\nb\nc");
    assert_eq!(s.line_range(c, None, None), c);
}

#[test]
fn read_file_start_beyond_content() {
    assert_eq!(store().line_range("a\nb", Some(10), None), "");
}

#[test]
fn list_files_respects_limit() {
    let files = vec!["a.md".to_string(), "b.md".to_string(), "c.md".to_string()];
    assert_eq!(store().list_files(files, 2).len(), 2);
}

#[test]
fn notes_list_files_returns_all() {
    let files = vec!["b.md".to_string(), "sub/c.md".to_string(), "a.md".to_string()];
    let listed = store().list_files(files, 100);
    assert_eq!(listed, vec!["a.md", "b.md", "sub/c.md"]);
}

fn search(files: &[(&str, &str)], query: &str, max_files: usize, max_matches: usize) -> Vec<(String, Vec<(usize, String)>)> {
    let names: Vec<String> = files.iter().map(|(n, _)| n.to_string()).collect();
    let contents: Vec<Option<String>> = files.iter().map(|(_, c)| Some(c.to_string())).collect();
    store()
        .search_files(query, &names, &contents, max_files, max_matches)
        .into_iter()
        .map(|r| (r.path, r.matches.into_iter().map(|m| (m.line_number, m.line_content)).collect()))
        .collect()
}

#[test]
fn notes_search_finds_match() {
    let results = search(&[("progress.md", "found the needle\nother line")], "needle", 100, 10);
    assert_eq!(results.len(), 1);
    assert_eq!(results[0].0, "progress.md");
    assert_eq!(results[0].1[0].0, 1);
    assert!(results[0].1[0].1.contains("needle"));
}

#[test]
fn notes_search_case_insensitive() {
    assert_eq!(search(&[("f.md", "Hello World")], "hello", 100, 10).len(), 1);
}

#[test]
fn search_respects_max_files() {
    assert_eq!(search(&[("a.md", "needle"), ("b.md", "needle")], "needle", 1, 10).len(), 1);
}

#[test]
fn notes_search_no_match() {
    assert!(search(&[("a.md", "nothing here")], "needle", 100, 10).is_empty());
}

#[test]
fn notes_search_skips_unreadable_files() {
    let names = vec!["a.md".to_string(), "b.md".to_string()];
    let contents = vec![None, Some("needle".to_string())];
    let r = store().search_files("needle", &names, &contents, 10, 10);
    assert_eq!(r.len(), 1);
    assert_eq!(r[0].path, "b.md");
}

// ── history: metadata, listing, reading, search ──

fn hstore() -> HistoryStore {
    HistoryStore::new(Path::new("/tmp/history_base"), "test_session")
}

fn make_messages(n: usize) -> Vec<Message> {
    (0..n)
        .map(|i| match i % 3 {
            0 => Message::User { content: format!("user message {}", i) },
            1 => Message::Assistant { content: Some(format!("assistant message {}", i)), tool_calls: None },
            _ => Message::Tool { content: format!("tool output {}", i), name: None },
        })
        .collect()
}

fn window(id: usize, msgs: &[Message]) -> Vec<MessageRecord> {
    msgs.iter().enumerate().map(|(i, m)| message_record(id, i, m, "2025-01-01T00:00:00Z")).collect()
}

#[test]
fn load_metadata_returns_default_when_missing() {
    let meta = HistoryStore::new(Path::new("/tmp"), "new_session").default_metadata();
    assert_eq!(meta.session_id, "new_session");
    assert!(meta.windows.is_empty());
}

#[test]
fn archive_updates_metadata() {
    let mut meta = hstore().default_metadata();
    upsert_window(&mut meta, 1, 3, "t1");
    upsert_window(&mut meta, 2, 5, "t2");
    assert_eq!(meta.session_id, "test_session");
    assert_eq!(meta.windows.len(), 2);
    assert_eq!(meta.windows[0].id, "001");
    assert_eq!(meta.windows[0].message_count, 3);
    assert_eq!(meta.windows[1].id, "002");
    assert_eq!(meta.windows[1].message_count, 5);
}

#[test]
fn archive_overwrites_existing_window() {
    let mut meta = hstore().default_metadata();
    upsert_window(&mut meta, 1, 3, "t1");
    upsert_window(&mut meta, 1, 7, "t2");
    assert_eq!(meta.windows.len(), 1);
    assert_eq!(meta.windows[0].message_count, 7);
    assert_eq!(meta.windows[0].started_at, "t2");
}

#[test]
fn list_windows_returns_sorted_ids() {
    let mut meta: SessionMeta = hstore().default_metadata();
    upsert_window(&mut meta, 2, 1, "t");
    upsert_window(&mut meta, 1, 1, "t");
    upsert_window(&mut meta, 3, 1, "t");
    assert_eq!(hstore().list_windows(&meta), vec!["001", "002", "003"]);
}

#[test]
fn read_thread_hint_skips_oversized() {
    assert!(!thread_hint_fits(&"x".repeat(5000)));
}

#[test]
fn read_thread_hint_accepts_exactly_4kb() {
    assert!(thread_hint_fits(&"x".repeat(THREAD_HINT_MAX_BYTES)));
}

#[test]
fn message_records_carry_role_and_name() {
    let msgs = vec![
        Message::User { content: "hello".into() },
        Message::Assistant { content: Some("hi there".into()), tool_calls: None },
        Message::Tool { content: "output".into(), name: Some("shell".into()) },
    ];
    let recs = window(1, &msgs);
    assert_eq!(recs.len(), 3);
    assert_eq!(recs[0].window, 1);
    assert_eq!(recs[0].index, 0);
    assert_eq!(recs[0].role, "user");
    assert_eq!(recs[0].content, "hello");
    assert_eq!(recs[2].role, "tool");
    assert_eq!(recs[2].name.as_deref(), Some("shell"));
}

#[test]
fn list_items_returns_all_messages() {
    let w = vec![window(1, &make_messages(5))];
    let items = hstore().list_items(&w, None, None, 100, false);
    assert_eq!(items.len(), 5);
    assert_eq!(items[0].role, "user");
    assert_eq!(items[1].role, "assistant");
    assert_eq!(items[2].role, "tool");
}

#[test]
fn history_list_items_filters_by_role() {
    let w = vec![window(1, &make_messages(6))];
    let users = hstore().list_items(&w, Some("user"), None, 100, false);
    assert!(users.iter().all(|i| i.role == "user"));
    assert_eq!(users.len(), 2);
}

#[test]
fn history_list_items_respects_limit() {
    let w = vec![window(1, &make_messages(10))];
    assert_eq!(hstore().list_items(&w, None, None, 3, false).len(), 3);
}

#[test]
fn history_list_items_recent_first() {
    let w = vec![window(1, &make_messages(3))];
    let items = hstore().list_items(&w, None, None, 100, true);
    assert_eq!(items[0].index, 2);
    assert_eq!(items[2].index, 0);
}

#[test]
fn history_read_item_returns_content() {
    let recs = window(1, &[Message::User { content: "hello world".into() }]);
    let (content, total_len) = hstore().read_item(&recs, 0, None, None).unwrap();
    assert_eq!(content, "hello world");
    assert_eq!(total_len, 11);
}

#[test]
fn read_item_with_offset_and_limit() {
    let recs = window(1, &[Message::User { content: "hello world".into() }]);
    let (content, total_len) = hstore().read_item(&recs, 0, Some(6), Some(5)).unwrap();
    assert_eq!(content, "world");
    assert_eq!(total_len, 11);
}

#[test]
fn read_item_returns_none_for_missing() {
    let recs: Vec<MessageRecord> = vec![];
    assert!(hstore().read_item(&recs, 0, None, None).is_none());
}

#[test]
fn search_contents_finds_match() {
    let w = vec![window(
        1,
        &[
            Message::User { content: "fix the login bug".into() },
            Message::Assistant { content: Some("I'll investigate".into()), tool_calls: None },
        ],
    )];
    let results = hstore().search_contents(&w, "login", None, 10);
    assert_eq!(results.len(), 1);
    assert_eq!(results[0].window, 1);
    assert_eq!(results[0].index, 0);
    assert!(results[0].match_preview.contains("login"));
}

#[test]
fn search_contents_case_insensitive() {
    let w = vec![window(1, &[Message::User { content: "Hello World".into() }])];
    assert_eq!(hstore().search_contents(&w, "hello", None, 10).len(), 1);
}

#[test]
fn search_contents_filters_by_role() {
    let w = vec![window(
        1,
        &[
            Message::User { content: "error in code".into() },
            Message::Assistant { content: Some("no error here".into()), tool_calls: None },
        ],
    )];
    let results = hstore().search_contents(&w, "error", Some("user"), 10);
    assert_eq!(results.len(), 1);
    assert_eq!(results[0].role, "user");
}

#[test]
fn search_contents_respects_limit() {
    let w = vec![window(
        1,
        &[
            Message::User { content: "test message".into() },
            Message::Assistant { content: Some("test again".into()), tool_calls: None },
            Message::User { content: "test third".into() },
        ],
    )];
    assert_eq!(hstore().search_contents(&w, "test", None, 2).len(), 2);
}

#[test]
fn search_contents_across_windows() {
    let w = vec![
        window(1, &[Message::User { content: "needle".into() }]),
        window(2, &[Message::Assistant { content: Some("needle too".into()), tool_calls: None }]),
    ];
    assert_eq!(hstore().search_contents(&w, "needle", None, 10).len(), 2);
}

#[test]
fn search_with_zero_limit_returns_nothing() {
    let w = vec![window(
        1,
        &[Message::User { content: "test one".into() }, Message::User { content: "test two".into() }],
    )];
    assert_eq!(hstore().search_contents(&w, "TEST", None, 0).len(), 0);
    assert_eq!(hstore().search_contents(&w, "TEST", None, 1).len(), 1);
}

#[test]
fn note_matches_stop_at_the_maximum() {
    let q: Vec<char> = "x".chars().collect();
    assert_eq!(match_lines("x\nx\nx", &q, 0).len(), 0);
    assert_eq!(match_lines("x\nx\nx", &q, 2).len(), 2);
}

#[test]
fn note_matches_carry_line_numbers() {
    let q: Vec<char> = "needle".chars().collect();
    let m = match_lines("a\nhas needle\nb\nNEEDLE too", &q, 10);
    assert_eq!(m.len(), 2);
    assert_eq!(m[0].line_number, 2);
    assert_eq!(m[0].line_content, "has needle");
    assert_eq!(m[1].line_number, 4);
    assert_eq!(match_lines("needle\nneedle\nneedle", &q, 2).len(), 2);
}

#[test]
fn guards_for_sizes_and_ranges() {
    let notes = store();
    assert!(notes.append_size_fits(10, "abc"));
    assert!(!notes.append_size_fits(usize::MAX - 1, "abc"));
    assert_eq!(notes.line_range("a\nb\nc\nd\ne", Some(4), Some(2)), "");
    assert_eq!(notes.line_range("a\nb\nc\nd\ne", Some(2), Some(4)), "b\nc\nd");

    let rec = |i: usize, c: &str| MessageRecord {
        window: 1,
        index: i,
        role: "user".to_string(),
        name: None,
        content: c.to_string(),
        ts: String::new(),
    };
    let recs = vec![rec(0, "hello"), rec(1, "world")];
    assert!(item_read_in_range(&recs, 1, Some(2), Some(10)));
    assert!(!item_read_in_range(&recs, 1, Some(2), Some(usize::MAX)));
    assert!(item_read_in_range(&recs, 1, Some(0), Some(usize::MAX)));
    assert!(item_read_in_range(&recs, 7, Some(2), Some(usize::MAX)));

    let tool = HistoryReadItemTool::new(Arc::new(HistoryStore::new(Path::new("/tmp/history_base"), "s")));
    assert!(tool.item_reply_fits(5, &Some(("abc".to_string(), 3))));
    assert!(!tool.item_reply_fits(usize::MAX - 1, &Some(("abc".to_string(), 3))));
    assert!(tool.item_reply_fits(usize::MAX, &None));
}

#[test]
fn previews_are_cut_by_bytes() {
    assert_eq!(truncate_str("éa", 2), "é...");
    assert_eq!(truncate_str("abcdef", 3), "abc...");
    assert_eq!(truncate_str("abc", 3), "abc");
    assert!(cut_fits("éa", 2));
    assert!(!cut_fits("éa", 1));
    assert!(cut_fits("é", 5));
}

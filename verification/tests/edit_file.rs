use phi_kernel_tools::file::edit_file::{
    apply_edits, apply_replace, check_overlaps, detect_line_ending, edits_would_stall,
    find_all_positions, find_and_replace, find_nfc_matches, find_rstrip_matches,
    find_trim_matches, normalize_line_endings, unicode_normalize, Edit, EditFileTool,
};
use std::path::PathBuf;

fn edit(old: &str, new: &str) -> Edit {
    Edit { old_text: old.to_string(), new_text: new.to_string() }
}

// ── find_all_positions ──

#[test]
fn test_find_all_positions_single() {
    let pos = find_all_positions("hello world", "world");
    assert_eq!(pos, vec![6]);
}

#[test]
fn test_find_all_positions_multiple() {
    let pos = find_all_positions("foo bar foo baz foo", "foo");
    assert_eq!(pos, vec![0, 8, 16]);
}

#[test]
fn test_find_all_positions_none() {
    let pos = find_all_positions("hello", "xyz");
    assert!(pos.is_empty());
}

#[test]
fn test_find_all_positions_empty_needle() {
    let pos = find_all_positions("hello", "");
    assert!(pos.is_empty());
}

#[test]
fn find_all_positions_reports_byte_offsets_past_multibyte_chars() {
    // "é" takes two bytes, so "x" after it starts at byte 2.
    assert_eq!(find_all_positions("éx", "x"), vec![2]);
}

#[test]
fn find_all_positions_skips_overlapping_occurrences() {
    assert_eq!(find_all_positions("aaaa", "aa"), vec![0, 2]);
    assert_eq!(find_all_positions("aaa", "aa"), vec![0]);
}

#[test]
fn find_all_positions_with_multibyte_needle() {
    assert_eq!(find_all_positions("ééx", "é"), vec![0, 2]);
}

// ── detect_line_ending ──

#[test]
fn test_detect_line_ending_lf() {
    assert_eq!(detect_line_ending("hello\nworld\n"), "\n");
}

#[test]
fn test_detect_line_ending_crlf() {
    assert_eq!(detect_line_ending("hello\r\nworld\r\n"), "\r\n");
}

#[test]
fn test_detect_line_ending_mixed_prefers_crlf() {
    assert_eq!(detect_line_ending("hello\nworld\r\n"), "\r\n");
}

#[test]
fn detect_line_ending_without_newline_is_lf() {
    assert_eq!(detect_line_ending("no newline"), "\n");
}

// ── normalize_line_endings ──

#[test]
fn test_normalize_to_lf() {
    assert_eq!(normalize_line_endings("hello\r\nworld\r\n", "\n"), "hello\nworld\n");
}

#[test]
fn test_normalize_to_crlf() {
    assert_eq!(normalize_line_endings("hello\nworld\n", "\r\n"), "hello\r\nworld\r\n");
}

#[test]
fn test_normalize_no_change() {
    assert_eq!(normalize_line_endings("hello\nworld\n", "\n"), "hello\nworld\n");
}

#[test]
fn normalize_round_trip_restores_crlf_text() {
    let crlf = "a\r\nb\r\nc";
    let lf = normalize_line_endings(crlf, "\n");
    assert_eq!(lf, "a\nb\nc");
    assert_eq!(normalize_line_endings(&lf, "\r\n"), crlf);
}

// ── apply_replace ──

#[test]
fn test_apply_replace_basic() {
    let result = apply_replace("hello world", 6, "world", "earth");
    assert_eq!(result, "hello earth");
}

#[test]
fn test_apply_replace_beginning() {
    let result = apply_replace("fn old() {}", 3, "old", "new");
    assert_eq!(result, "fn new() {}");
}

// ── check_overlaps ──

#[test]
fn test_check_overlaps_no_overlap() {
    let content = "line1\nline2\nline3\n";
    let edits = vec![edit("line1", "LINE1"), edit("line3", "LINE3")];
    assert!(check_overlaps(content, &edits).is_ok());
}

#[test]
fn test_check_overlaps_detected() {
    let content = "hello world";
    let edits = vec![edit("hello world", "hi earth"), edit("world", "earth")];
    let err = check_overlaps(content, &edits).unwrap_err();
    assert!(err.contains("overlap"));
}

#[test]
fn check_overlaps_names_both_edits() {
    let edits = vec![edit("abc", "x"), edit("bcd", "y")];
    let err = check_overlaps("abcd", &edits).unwrap_err();
    assert_eq!(
        err,
        "Edits 0 and 1 overlap. Edit 0 ends at byte 3 but edit 1 starts at byte 1. \
         Merge these edits into a single edit."
    );
}

#[test]
fn check_overlaps_ignores_edits_not_found() {
    let edits = vec![edit("zzz", "x"), edit("abc", "y")];
    assert!(check_overlaps("abcd", &edits).is_ok());
}

// ── find_and_replace ──

#[test]
fn test_find_and_replace_exact() {
    let result = find_and_replace("hello world", "hello world", &edit("world", "earth"), 0).unwrap();
    assert_eq!(result, "hello earth");
}

#[test]
fn test_find_and_replace_not_unique() {
    let err = find_and_replace("foo bar foo", "foo bar foo", &edit("foo", "baz"), 0).unwrap_err();
    assert!(err.contains("not unique"));
}

#[test]
fn test_find_and_replace_not_found() {
    let err = find_and_replace("hello world", "hello world", &edit("xyz", "abc"), 0).unwrap_err();
    assert!(err.contains("not found"));
}

#[test]
fn test_find_and_replace_ambiguity_after_prior_edits() {
    let err = find_and_replace("foo foo", "foo bar", &edit("foo", "baz"), 0).unwrap_err();
    assert!(err.contains("after previous edits"));
}

#[test]
fn test_find_and_replace_rstrip_single() {
    let result =
        find_and_replace("hello world  x", "hello world  x", &edit("world \n", "earth"), 0).unwrap();
    assert_eq!(result, "hello earthx");
}

#[test]
fn test_find_and_replace_rstrip_multiple() {
    let err = find_and_replace("world  x world  y", "world  x world  y", &edit("world \n", "earth"), 0)
        .unwrap_err();
    assert!(err.contains("trailing whitespace stripped"));
}

#[test]
fn test_find_and_replace_trim_single() {
    let result =
        find_and_replace("hello  world  x", "hello  world  x", &edit("   world  ", "earth"), 0).unwrap();
    assert_eq!(result, "helloearthx");
}

#[test]
fn test_find_and_replace_trim_multiple() {
    let err = find_and_replace(
        "  world  x  world  y",
        "  world  x  world  y",
        &edit("   world  ", "earth"),
        0,
    )
    .unwrap_err();
    assert!(err.contains("whitespace trimmed"));
}

#[test]
fn test_find_nfc_matches() {
    let m = find_nfc_matches("héllo wörld", "wörld");
    assert_eq!(m.len(), 1);
    assert_eq!(m[0].1, "wörld");
}

#[test]
fn unicode_normalize_is_identity() {
    assert_eq!(unicode_normalize("héllo"), "héllo");
}

#[test]
fn test_find_rstrip_matches() {
    let content = "hello   \nworld\n";
    let matches = find_rstrip_matches(content, "hello");
    assert_eq!(matches.len(), 1);
    assert_eq!(matches[0].1, "hello   ");
}

#[test]
fn test_find_trim_matches() {
    let content = "  hello  \nworld\n";
    let matches = find_trim_matches(content, "hello");
    assert_eq!(matches.len(), 1);
    assert_eq!(matches[0].1, "  hello  ");
}

#[test]
fn test_level2_rstrip_fallback() {
    let content = "hello   \nworld\n";
    let result = find_and_replace(content, content, &edit("hello   ", "hi"), 0).unwrap();
    assert_eq!(result, "hi\nworld\n");
}

// ── apply_edits: the whole edit request on text ──

#[test]
fn apply_edits_applies_in_order() {
    let out = apply_edits(
        "fn old() {}\nfn other() {}\n",
        &[edit("fn old() {}", "fn new() {}"), edit("fn other() {}", "fn another() {}")],
    )
    .unwrap();
    assert_eq!(out, "fn new() {}\nfn another() {}\n");
}

#[test]
fn apply_edits_preserves_crlf() {
    let out = apply_edits("line1\r\nline2\r\nline3\r\n", &[edit("line2", "LINE2")]).unwrap();
    assert_eq!(out, "line1\r\nLINE2\r\nline3\r\n");
}

#[test]
fn apply_edits_rejects_overlap() {
    let err = apply_edits("hello world\n", &[edit("hello world", "hi"), edit("world", "earth")])
        .unwrap_err();
    assert!(err.contains("overlap"));
}

#[test]
fn apply_edits_reports_missing_text_with_its_index() {
    let err = apply_edits("abc\n", &[edit("abc", "x"), edit("zzz", "y")]).unwrap_err();
    assert!(err.starts_with("[Error]: Edit 1 failed: "), "{err}");
    assert!(err.contains("not found"), "{err}");
}

#[test]
fn whitespace_only_old_text_is_flagged() {
    assert!(edits_would_stall("abc", &[edit("   ", "x")]));
    assert!(!edits_would_stall("abc", &[edit("b", "x")]));
}

#[test]
fn edit_tool_names_itself() {
    let tool = EditFileTool::new(PathBuf::from("/tmp"));
    assert_eq!(tool.name(), "edit_file");
    assert!(tool.description().contains("text replacements"));
}

#[test]
fn edit_tool_checks_request_shape() {
    let tool = EditFileTool::new(PathBuf::from("/tmp"));
    assert!(tool.check_request("", Some(1)).unwrap().contains("No file path"));
    assert!(tool.check_request("a.txt", None).unwrap().contains("No edits provided"));
    assert!(tool.check_request("a.txt", Some(0)).unwrap().contains("empty"));
    assert!(tool.check_request("a.txt", Some(2)).is_none());
    assert!(tool.success_message(1, "a.txt").contains("Successfully applied 1 edit"));
}

#[test]
fn crlf_edit_leaves_no_bare_lf() {
    let out = apply_edits("a\r\nb\r\nc\r\n", &[edit("b", "x\ny")]).unwrap();
    assert_eq!(out, "a\r\nx\r\ny\r\nc\r\n");
    let bytes: Vec<char> = out.chars().collect();
    for i in 0..bytes.len() {
        if bytes[i] == '\n' {
            assert!(i > 0 && bytes[i - 1] == '\r');
        }
    }
}

#[test]
fn crlf_normalization_is_idempotent() {
    let once = normalize_line_endings("a\nb\r\nc\r\r\n", "\r\n");
    assert_eq!(normalize_line_endings(&once, "\r\n"), once);
}

#[test]
fn overlapping_repeats_count_as_one_occurrence() {
    // "aa" occurs once in "aaa" when the search resumes after each match.
    assert_eq!(apply_edits("aaa", &[edit("aa", "X")]).unwrap(), "Xa");
}

use phi_kernel_tools::file::list_files::{sort_entries, FileEntry};
use phi_kernel_tools::file::list_files::{glob_match, human_size, ListFilesTool};
use phi_kernel_tools::local_shell::{format_result, truncate_output, LocalShellTool};
use std::path::PathBuf;

#[test]
fn test_human_size() {
    assert_eq!(human_size(0), "0 B");
    assert_eq!(human_size(500), "500 B");
    assert_eq!(human_size(1024), "1.0 KB");
    assert_eq!(human_size(1536), "1.5 KB");
    assert_eq!(human_size(1048576), "1.0 MB");
}

#[test]
fn human_size_edges() {
    assert_eq!(human_size(1023), "1023 B");
    assert_eq!(human_size(1024 * 1024 * 1024), "1.0 GB");
    assert_eq!(human_size(1024 * 1024 * 1024 * 5 / 2), "2.5 GB");
    // GB is the largest unit, however large the size.
    assert_eq!(human_size(1024u64 * 1024 * 1024 * 2048), "2048.0 GB");
}

#[test]
fn glob_match_cases() {
    assert!(glob_match("*.rs", "main.rs"));
    assert!(!glob_match("*.rs", "README.md"));
    assert!(glob_match("a?c", "abc"));
    assert!(!glob_match("a?c", "ac"));
    assert!(glob_match("*", ""));
    assert!(glob_match("", ""));
    assert!(!glob_match("", "x"));
}

#[test]
fn list_tool_names_itself() {
    let tool = ListFilesTool::new(PathBuf::from("/tmp"));
    assert_eq!(tool.name(), "list_files");
    assert!(!tool.description().is_empty());
}

#[test]
fn test_format_result_success() {
    let result = format_result("echo hello", "hello", "", Some(0), false);
    assert_eq!(result, "hello");
}

#[test]
fn test_format_result_stderr_only() {
    let result = format_result("cmd", "", "error output", Some(0), false);
    assert_eq!(result, "stderr:\nerror output");
}

#[test]
fn test_format_result_stdout_and_stderr() {
    let result = format_result("cmd", "out", "err", Some(0), false);
    assert_eq!(result, "stdout:\nout\n\nstderr:\nerr");
}

#[test]
fn test_format_result_terminated() {
    let result = format_result("cmd", "", "sigterm", None, false);
    assert!(result.contains("Command Terminated"));
}

#[test]
fn test_format_result_no_output() {
    let result = format_result("true", "", "", Some(0), false);
    assert!(result.contains("no output"));
}

#[test]
fn test_format_result_failure() {
    let result = format_result("false", "", "error", Some(1), false);
    assert!(result.contains("Command Failed"));
    assert!(result.contains("exit code: 1"));
}

#[test]
fn test_format_result_timeout() {
    let result = format_result("sleep 100", "", "", None, true);
    assert!(result.contains("Command Timed Out"));
}

#[test]
fn test_name() {
    let tool = LocalShellTool::new(30000);
    assert_eq!(tool.name(), "execute_command");
}

#[test]
fn shell_tool_description_mentions_shell() {
    let tool = LocalShellTool::new(30000);
    assert!(tool.description().contains("shell"));
}

#[test]
fn test_truncate_output_unchanged_when_under_budget() {
    assert_eq!(truncate_output("short", Some(100)), "short");
    assert_eq!(truncate_output("short", None), "short");
}

#[test]
fn test_truncate_output_keeps_head_and_tail() {
    let s: String = (0..1000).map(|i| format!("L{i:03}\n")).collect();
    let out = truncate_output(&s, Some(200));
    let n = out.chars().count();
    assert!(n <= 200, "output exceeds budget: {n}");
    assert!(out.starts_with("L000"), "head missing:\n{out}");
    assert!(out.trim_end().ends_with("L999"), "tail missing:\n{out}");
    assert!(out.contains("output truncated"), "marker missing:\n{out}");
}

#[test]
fn truncate_output_stays_within_small_budgets() {
    let s = "x".repeat(500);
    for max in [0usize, 1, 5, 22, 23, 24, 50, 99] {
        let out = truncate_output(&s, Some(max));
        assert!(out.chars().count() <= max, "budget {max}: {}", out.chars().count());
    }
}

#[test]
fn budget_below_the_notice_gets_part_of_the_notice() {
    let s = "x".repeat(500);
    assert_eq!(truncate_output(&s, Some(0)), "");
    assert_eq!(truncate_output(&s, Some(4)), "\n...");
    assert_eq!(truncate_output(&s, Some(22)), "\n...[output truncated]");
}

#[test]
fn star_does_not_cross_directories() {
    assert!(glob_match("*", "main.rs"));
    assert!(!glob_match("*", "src/main.rs"));
}

#[test]
fn over_budget_output_is_cut_to_exactly_the_budget() {
    let s = "abcdefghij".repeat(20);
    let out = truncate_output(&s, Some(53));
    assert_eq!(out.chars().count(), 53);
    assert!(out.starts_with("abcdefghij"));
    assert!(out.ends_with(&s[s.len() - 20..]));
}

#[test]
fn sorting_keeps_each_entry_with_its_size() {
    let e = |n: &str, d: bool, s: u64| FileEntry { name: n.to_string(), is_dir: d, size: s };
    let sorted = sort_entries(vec![e("b.rs", false, 20), e("src", true, 0), e("a.rs", false, 10)]);
    let got: Vec<(String, bool, u64)> = sorted.into_iter().map(|f| (f.name, f.is_dir, f.size)).collect();
    assert_eq!(
        got,
        vec![("src".to_string(), true, 0), ("a.rs".to_string(), false, 10), ("b.rs".to_string(), false, 20)]
    );
}

use phi_kernel_tools::file::read_file::{line_count, render_file, ReadFileTool, DEFAULT_LIMIT};
use phi_kernel_tools::file::write_file::WriteFileTool;
use std::path::PathBuf;

#[test]
fn render_file_numbers_all_lines() {
    let text = render_file("test.txt", "line1\nline2\nline3\n", 0, DEFAULT_LIMIT, None);
    assert_eq!(
        text,
        "File: test.txt (lines 1-3 of 3)\n     1|line1\n     2|line2\n     3|line3"
    );
}

#[test]
fn render_file_with_offset_and_limit() {
    let content: String = (1..=10).map(|i| format!("line{}\n", i)).collect();
    let text = render_file("nums.txt", &content, 3, 2, None);
    assert!(text.contains("line4"));
    assert!(text.contains("line5"));
    assert!(!text.contains("line3"));
    assert!(!text.contains("line6"));
    assert!(text.contains("lines 4-5 of 10"));
}

#[test]
fn render_empty_file() {
    assert_eq!(render_file("empty.txt", "", 0, 10, None), "File: empty.txt (lines 0-0 of 0)\n(file is empty)");
}

#[test]
fn render_offset_beyond_end() {
    let text = render_file("short.txt", "only one line\n", 10, DEFAULT_LIMIT, None);
    assert!(text.contains("File: short.txt"));
    assert!(!text.contains("only one line"));
}

#[test]
fn render_file_self_truncates_to_budget() {
    let content: String = (1..=500)
        .map(|i| format!("line {i:03} with enough padding to exceed the char budget\n"))
        .collect();
    let text = render_file("big.txt", &content, 0, DEFAULT_LIMIT, Some(400));
    assert!(text.chars().count() <= 400, "output exceeds budget: {}", text.chars().count());
    assert!(text.contains("(truncated, use offset="));
    assert!(text.contains("line 001"));
    assert!(!text.contains("line 500"));
}

#[test]
fn render_file_resume_offset_continues() {
    let content: String = (1..=200).map(|i| format!("L{i}\n")).collect();
    let first = render_file("big.txt", &content, 0, DEFAULT_LIMIT, Some(200));
    let offset: usize = first
        .split("offset=")
        .nth(1)
        .and_then(|s| s.split_whitespace().next())
        .and_then(|s| s.parse().ok())
        .expect("marker should carry a numeric offset");
    let second = render_file("big.txt", &content, offset, DEFAULT_LIMIT, Some(200));
    assert!(second.contains(&format!("L{}", offset + 1)));
    assert!(second.contains(&format!("{:>6}|L{}", offset + 1, offset + 1)));
}

#[test]
fn line_count_matches_lines() {
    assert_eq!(line_count(""), 0);
    assert_eq!(line_count("a\nb\n"), 2);
    assert_eq!(line_count("a\r\nb"), 2);
}

#[test]
fn read_tool_names_itself() {
    let tool = ReadFileTool::new(PathBuf::from("/tmp"));
    assert_eq!(tool.name(), "read_file");
}

#[test]
fn write_tool_checks() {
    let tool = WriteFileTool::new(PathBuf::from("/tmp"));
    assert_eq!(tool.name(), "write_file");
    assert_eq!(tool.check_request("", "x").unwrap(), "[Error]: No file path provided.");
    assert!(tool.check_request("a.txt", &"x".repeat(1_048_577)).unwrap().contains("exceeds the maximum allowed size"));
    assert!(tool.check_request("a.txt", "x").is_none());
    assert_eq!(
        tool.check_target("d", true, true, false).unwrap(),
        "[Error]: Path is a directory, not a file: d"
    );
    assert_eq!(
        tool.check_target("f", true, false, false).unwrap(),
        "[Error]: File already exists: f. Use overwrite=true to replace it."
    );
    assert!(tool.check_target("f", true, false, true).is_none());
    assert!(tool.check_target("f", false, false, false).is_none());
    assert_eq!(tool.written_message("a.txt", "x\ny\n", false), "Created file: a.txt (4 bytes, 2 lines)");
    assert_eq!(tool.written_message("a.txt", "", true), "Updated file: a.txt (0 bytes, 0 lines)");
}

#[test]
fn render_file_with_the_largest_limit_reads_to_the_end() {
    assert_eq!(
        render_file("f.txt", "a\nb\n", 1, usize::MAX, None),
        "File: f.txt (lines 2-2 of 2)\n     2|b"
    );
}

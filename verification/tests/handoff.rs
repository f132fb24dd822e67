use phi_kernel_tools::context_rotation::handoff::first_string_of;
use phi_kernel_tools::context_rotation::handoff::{ledger_line_from_args, CallArgs};
use phi_kernel_tools::context_rotation::handoff::{
    extract_ledger, extract_ledger_checked, ledger_entry, one_line, truncate_chars,
};
use phi_kernel_tools::context_rotation::message::{Message, ToolCall};

fn assistant(content: &str, calls: Vec<ToolCall>) -> Message {
    Message::Assistant {
        content: if content.is_empty() { None } else { Some(content.to_string()) },
        tool_calls: if calls.is_empty() { None } else { Some(calls) },
    }
}

fn call(name: &str, args: &str) -> ToolCall {
    ToolCall { id: "t1".into(), name: name.into(), arguments: args.to_string() }
}

#[test]
fn extracts_work_actions_in_order() {
    let msgs = vec![assistant(
        "我先看结构。",
        vec![
            call("repo_map", "{}"),
            call("read_file", r#"{"path":"README.md"}"#),
            call("read_file", r#"{"path":"src/main.rs","offset":10,"limit":50}"#),
            call("execute_command", r#"{"command":"cargo test --lib"}"#),
            call("edit_file", r#"{"path":"src/lib.rs"}"#),
        ],
    )];
    let ledger = extract_ledger(&msgs).unwrap();
    assert!(ledger.contains("<activity_ledger>"));
    assert!(ledger.contains("- mapped repo structure"));
    assert!(ledger.contains("- read README.md"));
    assert!(ledger.contains("- read src/main.rs(L10-60)"));
    assert!(ledger.contains("- ran `cargo test --lib`"));
    assert!(ledger.contains("- edited src/lib.rs"));
    assert!(ledger.contains("Where you left off: 我先看结构。"));
}

#[test]
fn excludes_context_management_churn() {
    let msgs = vec![assistant(
        "",
        vec![
            call("history.list_windows", "{}"),
            call("notes.list_files", "{}"),
            call("notes.read_file", r#"{"path":"thread_hint.md"}"#),
        ],
    )];
    assert!(extract_ledger(&msgs).is_none());
}

#[test]
fn notes_writes_are_recorded() {
    let msgs = vec![assistant(
        "",
        vec![call("notes.write_file", r#"{"path":"thread_hint.md","content":"..."}"#)],
    )];
    let ledger = extract_ledger(&msgs).unwrap();
    assert!(ledger.contains("- note thread_hint.md"));
}

#[test]
fn dedups_repeated_reads() {
    let msgs = vec![assistant(
        "",
        vec![
            call("read_file", r#"{"path":"README.md"}"#),
            call("read_file", r#"{"path":"README.md"}"#),
            call("read_file", r#"{"path":"src/lib.rs"}"#),
        ],
    )];
    let ledger = extract_ledger(&msgs).unwrap();
    assert_eq!(ledger.matches("- read README.md").count(), 1);
    assert!(ledger.contains("- read src/lib.rs"));
}

#[test]
fn keeps_most_recent_entries_when_overflowing() {
    let mut calls = Vec::new();
    for i in 0..40 {
        calls.push(call("read_file", &format!("{{\"path\":\"file_{i:02}.rs\"}}")));
    }
    let msgs = vec![assistant("", calls)];
    let ledger = extract_ledger(&msgs).unwrap();
    assert!(ledger.contains("earlier actions omitted"));
    assert!(!ledger.contains("file_00.rs"));
    assert!(ledger.contains("file_39.rs"));
}

#[test]
fn long_command_and_narration_are_truncated() {
    let long_cmd = "x".repeat(300);
    let long_text = "思".repeat(300);
    let msgs = vec![assistant(
        &long_text,
        vec![call("execute_command", &format!("{{\"command\":\"{long_cmd}\"}}"))],
    )];
    let ledger = extract_ledger(&msgs).unwrap();
    assert!(ledger.contains("..."));
    assert!(ledger.chars().count() < 1000);
}

#[test]
fn unknown_tool_falls_back_to_name_and_first_arg() {
    let msgs = vec![assistant("", vec![call("future_tool", r#"{"target":"something","n":3}"#)])];
    let ledger = extract_ledger(&msgs).unwrap();
    assert!(ledger.contains("- future_tool something"));
}

#[test]
fn spawn_agent_uses_task_name() {
    let msgs = vec![assistant(
        "",
        vec![call("spawn_agent", r#"{"task_name":"analyzer","task":"read the code"}"#)],
    )];
    let ledger = extract_ledger(&msgs).unwrap();
    assert!(ledger.contains("- spawned sub-agent analyzer"));
}

#[test]
fn empty_window_yields_none() {
    let msgs = vec![
        Message::System { content: "sys".into() },
        Message::User { content: "hi".into() },
        assistant("", vec![]),
    ];
    assert!(extract_ledger(&msgs).is_none());
}

#[test]
fn ledger_never_exceeds_its_character_cap() {
    let mut calls = Vec::new();
    for i in 0..40 {
        let p = format!("{i}/{}", "d/".repeat(40));
        calls.push(call("read_file", &format!("{{\"path\":\"{p}\"}}")));
    }
    let msgs = vec![assistant(&"n".repeat(500), calls)];
    let ledger = extract_ledger_checked(&msgs).unwrap().unwrap();
    assert!(ledger.chars().count() <= 1200);
    assert!(ledger.ends_with("..."));
}

#[test]
fn ledger_entry_forms() {
    assert_eq!(ledger_entry("write_file", r#"{"path":"a.txt"}"#).as_deref(), Some("wrote a.txt"));
    assert_eq!(ledger_entry("history.search_contents", "{}"), None);
    assert_eq!(ledger_entry("read_file", "not json"), None);
}

#[test]
fn one_line_and_truncate_chars() {
    assert_eq!(one_line("  a \n b\tc  "), "a b c");
    assert_eq!(truncate_chars("abcdef", 4), "a...");
    assert_eq!(truncate_chars("abc", 4), "abc");
}

#[test]
fn first_string_skips_values_that_are_not_strings() {
    let values = vec![None, Some("b".to_string()), Some("c".to_string())];
    assert_eq!(first_string_of(&values), Some("b".to_string()));
    assert_eq!(first_string_of(&vec![None, None]), None);
    assert_eq!(first_string_of(&Vec::new()), None);
}

#[test]
fn unknown_tool_entry_names_its_first_string_argument() {
    // Object keys come out in sorted order, and numbers are skipped.
    assert_eq!(
        ledger_entry("custom_tool", r#"{"b": 3, "c": "second", "a": "first"}"#),
        Some("custom_tool first".to_string())
    );
    assert_eq!(ledger_entry("custom_tool", r#"{"n": 1}"#), Some("custom_tool".to_string()));
}

#[test]
fn ledger_line_from_looked_up_arguments() {
    let a = CallArgs {
        path: Some("src/lib.rs".to_string()),
        offset: Some(10),
        limit: Some(20),
        command: None,
        pattern: None,
        task_name: None,
        name: None,
        first_string: Some("src/lib.rs".to_string()),
    };
    assert_eq!(ledger_line_from_args("read_file", &a), Some("read src/lib.rs(L10-30)".to_string()));
    assert_eq!(ledger_line_from_args("edit_file", &a), Some("edited src/lib.rs".to_string()));
    assert_eq!(ledger_line_from_args("notes.read_file", &a), None);
    assert_eq!(ledger_line_from_args("other", &a), Some("other src/lib.rs".to_string()));
}

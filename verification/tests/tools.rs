//! The built-in tools, and what they share.

use keke::bash::{Bash, BashArgs, BashOutput};
use keke::grep::{Grep, GrepArgs, GrepOutput, Search, MAX_HITS};
use keke::list_dir::{DirEntry, ListDir, ListDirArgs};
use keke::paths::AbsPath;
use keke::plugin_api::{first_denial, ContextFragment, EventQueue};
use keke::prompt::tool_guidance;
use keke::protocol::{ContentBlock, Json};
use keke::support::{cap, line_diff, right_align, MAX_OUTPUT_BYTES};
use keke::tool::{
    call_outcome, outcome_of, ListToolsContext, Served, ToolError, ToolEvent, ToolId, ToolKind,
    ToolProgress, ToolStream,
};
use keke::write_file::WriteFile;

fn root() -> AbsPath {
    AbsPath::new("/w").expect("absolute")
}

fn said(blocks: &[ContentBlock]) -> &str {
    match blocks {
        [ContentBlock::Text { text }] => text.as_str(),
        other => panic!("one block of text, got {other:?}"),
    }
}

#[test]
fn line_diff_carries_the_hunk_text_not_just_counts() {
    let before = "one\ntwo\nthree\n";
    let after = "one\nTWO\nthree\n";

    let diff = line_diff(before, after);

    assert_eq!(diff.added, 1);
    assert_eq!(diff.removed, 1);
    assert!(diff.hunk.contains("- 2 two"), "hunk was:\n{}", diff.hunk);
    assert!(diff.hunk.contains("+ 2 TWO"), "hunk was:\n{}", diff.hunk);
}

#[test]
fn separate_hunks_get_a_gap_marker_like_codexs_diff_view() {
    let before: String = (1..=20).map(|n| format!("line{n}\n")).collect();
    let mut lines: Vec<String> = (1..=20).map(|n| format!("line{n}\n")).collect();
    lines[4] = "CHANGED five\n".to_string();
    lines[14] = "CHANGED fifteen\n".to_string();
    let after: String = lines.concat();

    let diff = line_diff(&before, &after);

    assert!(diff.hunk.contains('⋮'), "hunk was:\n{}", diff.hunk);
    assert!(
        !diff.hunk.contains("line8"),
        "context far from either change must not be dragged in: {}",
        diff.hunk
    );
}

#[test]
fn the_same_text_has_no_diff() {
    let diff = line_diff("a\n", "a\n");
    assert_eq!((diff.added, diff.removed), (0, 0));
    assert_eq!(diff.hunk, "");
}

#[test]
fn output_is_cut_between_characters() {
    let long = "é".repeat(MAX_OUTPUT_BYTES);
    let (kept, cut) = cap(long, "rest dropped");
    assert!(cut);
    assert!(kept.ends_with("\n… rest dropped"));
    assert_eq!(kept.chars().filter(|c| *c == 'é').count(), MAX_OUTPUT_BYTES / 2);
    assert_eq!(cap("short".to_string(), "x"), ("short".to_string(), false));
    assert_eq!(right_align("7", 3), "  7");
}

#[test]
fn a_command_has_a_budget() {
    let asked = |timeout_ms| BashArgs { command: "true".to_string(), timeout_ms };
    assert_eq!(Bash::budget(&asked(None), None), 120_000);
    assert_eq!(Bash::budget(&asked(Some(5)), None), 5);
    assert_eq!(Bash::budget(&asked(Some(9_999_999)), None), 600_000);
    assert_eq!(Bash::budget(&asked(Some(50)), Some(20)), 20);
    assert_eq!(Bash::poll(true, 0, 10), Some(ToolError::Cancelled));
    assert_eq!(Bash::poll(false, 10, 10), Some(ToolError::Timeout { millis: 10 }));
    assert_eq!(Bash::poll(false, 9, 10), None);
}

#[test]
fn a_command_reports_both_streams_and_its_code() {
    let output: BashOutput = Bash::finish(Some(3), &b"out\n".to_vec(), &b"err\xff\n".to_vec());
    assert_eq!(output.exit_code, 3);
    assert!(output.output.contains("out"), "{}", output.output);
    assert!(output.output.contains("err\u{fffd}"), "{}", output.output);
    assert!(said(&output.render()).ends_with("\n[exit 3]"));
    let killed = Bash::finish(None, &Vec::new(), &Vec::new());
    assert_eq!(killed.exit_code, -1);
    assert_eq!(said(&killed.render()), "(no output)\n[exit -1]");
}

#[test]
fn a_search_names_file_line_and_text() {
    let mut search = Search::new();
    let lines = vec!["fn a() {}  ".to_string(), "nothing".to_string(), "fn b() {}".to_string()];
    assert!(search.scan("src/a.rs", &lines, "fn "));
    assert_eq!(search.hits, vec!["src/a.rs:1:fn a() {}", "src/a.rs:3:fn b() {}"]);
    let output = GrepOutput { pattern: "fn ".to_string(), hits: search.hits, truncated: false };
    assert_eq!(said(&output.render()), "src/a.rs:1:fn a() {}\nsrc/a.rs:3:fn b() {}");
    let none = GrepOutput { pattern: "zz".to_string(), hits: Vec::new(), truncated: false };
    assert_eq!(said(&none.render()), "no matches for `zz`");
}

#[test]
fn a_search_stops_at_its_limit() {
    let mut search = Search::new();
    let lines: Vec<String> = (0..300).map(|_| "x".to_string()).collect();
    assert!(!search.scan("a", &lines, "x"));
    assert_eq!(search.hits.len(), MAX_HITS);
    assert!(search.truncated);
}

#[test]
fn a_search_skips_what_is_no_file_or_too_large() {
    assert_eq!(Search::wants(false, true, Some(10)), Ok(true));
    assert_eq!(Search::wants(false, true, None), Ok(true));
    assert_eq!(Search::wants(false, false, Some(10)), Ok(false));
    assert_eq!(Search::wants(false, true, Some(u64::MAX)), Ok(false));
    assert_eq!(Search::wants(true, true, Some(10)), Err(ToolError::Cancelled));
    assert_eq!(Search::label(&root(), "/w/src/a.rs"), "src/a.rs");
    let args = GrepArgs {
        pattern: "x".to_string(),
        path: Some("../out".to_string()),
        glob: None,
    };
    assert!(matches!(Grep::search_root(&root(), &args), Err(ToolError::Denied { .. })));
}

#[test]
fn a_tool_mentions_a_sibling_only_where_there_is_one() {
    let alone = ListToolsContext { siblings: Vec::new(), attributes: Vec::new() };
    let beside = ListToolsContext {
        siblings: vec![ToolId::new("read_file")],
        attributes: Vec::new(),
    };
    assert!(!Grep.description(&alone).text.contains("read_file"));
    assert!(Grep.description(&beside).text.contains("read_file"));
    assert_eq!(Grep.capabilities().kind, ToolKind::Search);
    assert!(Grep.capabilities().concurrency_safe);
}

#[test]
fn a_listing_is_sorted_and_marks_directories() {
    let found = vec![
        DirEntry { name: "src".to_string(), is_dir: true },
        DirEntry { name: "Cargo.toml".to_string(), is_dir: false },
    ];
    let output = ListDir::listing(&root(), &root(), &found);
    assert_eq!(output.entries, vec!["Cargo.toml", "src/"]);
    assert!(said(&output.render()).starts_with(".:\n"));
    assert!(ListDir::target(&root(), &ListDirArgs { path: Some("/etc".to_string()) }).is_err());
}

#[test]
fn a_written_file_says_what_changed() {
    let path = AbsPath::new("/w/a.txt").expect("absolute");
    let output =
        WriteFile::written(&root(), &path, "one\nTWO\n", true, Some("one\ntwo\n".to_string()));
    assert_eq!(said(&output.render()), "updated a.txt (8 bytes, +1 -1)");
    let fresh = WriteFile::written(&root(), &path, "hé\n", false, None);
    assert_eq!(said(&fresh.render()), "created a.txt (4 bytes)");
    assert!(fresh.created);
}

#[test]
fn guidance_sorts_behind_identity_and_persona() {
    let fragment: ContextFragment = tool_guidance();
    assert_eq!(fragment.order, 100);
    assert!(fragment.text.contains("*** Begin Patch"));
}

#[test]
fn a_permissive_guard_cannot_undo_a_restrictive_one() {
    let verdicts = |name: &str| {
        vec![
            if name == "bash" { Some("shell is disabled".to_string()) } else { None },
            None,
        ]
    };
    assert_eq!(first_denial(&verdicts("bash")).as_deref(), Some("shell is disabled"));
    assert!(first_denial(&verdicts("read_file")).is_none());
}

#[test]
fn events_are_drained_in_order_and_once() {
    let mut queue = EventQueue::new();
    queue.record(1u32);
    queue.record(2u32);
    assert_eq!(queue.drain_events(), vec![1, 2]);
    assert!(queue.drain_events().is_empty());
}

#[test]
fn a_stream_ends_with_its_outcome() {
    let stream = ToolStream::with_progress(
        vec![ToolProgress::message("half"), ToolProgress::message("more")],
        Ok(7u32),
    );
    assert_eq!(stream.into_terminal(), Ok(7));
    let events: Vec<ToolEvent<u32>> = vec![ToolEvent::Progress(ToolProgress::message("half"))];
    assert!(outcome_of(events).is_err());
}

#[test]
fn a_call_answers_whatever_came_of_it() {
    let tool = ToolId::new("echo");
    let served = |served| call_outcome(&tool, served);
    assert_eq!(
        served(Served::NotDecoded("missing field".to_string())).expect_err("arguments"),
        ToolError::InvalidArgs { tool: "echo".to_string(), message: "missing field".to_string() }
    );
    assert_eq!(
        served(Served::Failed(ToolError::Cancelled)).expect_err("failed"),
        ToolError::Cancelled
    );
    assert_eq!(
        served(Served::NotEncoded("cycle".to_string())).expect_err("encoding"),
        ToolError::Execution {
            code: "tool_output_not_serializable".to_string(),
            message: "cycle".to_string(),
        }
    );
    let done = served(Served::Done {
        value: Json::text("hi"),
        model_output: vec![ContentBlock::text("hi")],
    })
    .expect("done");
    assert_eq!(done.tool_id, ToolId::new("echo"));
    assert_eq!(said(&done.model_output), "hi");
}

#[test]
fn stream_without_terminal_is_a_protocol_violation() {
    let empty: ToolStream<u8> = ToolStream::with_progress(Vec::new(), Err(ToolError::Cancelled));
    // A terminal is always appended, so the invariant holds even without progress.
    assert!(matches!(empty.into_terminal(), Err(ToolError::Cancelled)));
}

#[test]
fn failures_of_the_tools_are_told_apart() {
    let code = |error: ToolError| match error {
        ToolError::Execution { code, message } => format!("{code}: {message}"),
        other => panic!("an execution failure, got {other:?}"),
    };
    assert_eq!(code(Bash::spawn_failed("sh", "gone")), "spawn_failed: sh: gone");
    assert_eq!(code(Bash::wait_failed("gone")), "wait_failed: gone");
    assert_eq!(code(Grep::bad_glob("[", "unclosed")), "bad_glob: [: unclosed");
    assert_eq!(code(Grep::search_failed("panicked")), "search_failed: panicked");
    assert_eq!(code(ListDir::list_failed("panicked")), "list_failed: panicked");
}

#[test]
fn a_search_stops_beyond_its_limit() {
    let lines: Vec<String> = (0..150).map(|line| format!("x{line}")).collect();
    let mut search = Search::new();
    assert!(search.scan("a", &lines, "x"));
    assert!(!search.scan("b", &lines, "x"));
    assert!(!search.scan("c", &lines, "x"), "once stopped it stays stopped");
    let args = GrepArgs { pattern: "x".to_string(), path: None, glob: None };
    let output = Grep::output(args, search);
    assert!(output.truncated);
    assert_eq!(output.hits.len(), 200);
    assert_eq!(output.hits[150], "b:1:x0");
    assert_eq!(output.hits[199], "b:50:x49");
}

//! Reading patches, and applying them.

use keke::apply_patch::{
    apply_hunks, bad_patch, parse, plan, plan_all, seek, split_lines, Act, ApplyPatch,
    ApplyPatchOutput, ChangeKind, Hunk, Observed, Op, ReadOutcome, Section, Step, BEGIN, END,
};
use keke::paths::AbsPath;
use keke::prompt::APPLY_PATCH_FORMAT;
use keke::protocol::ContentBlock;
use keke::tool::{ToolError, ToolKind};

fn code(error: &ToolError) -> &str {
    match error {
        ToolError::Execution { code, .. } => code.as_str(),
        other => panic!("expected a coded failure, got {other:?}"),
    }
}

fn message(error: &ToolError) -> &str {
    match error {
        ToolError::Execution { message, .. } => message.as_str(),
        ToolError::Denied { message } => message.as_str(),
        other => panic!("expected a message, got {other:?}"),
    }
}

fn hunks_of(patch: &str) -> Vec<Hunk> {
    let mut sections = parse(patch).expect("parses");
    match sections.remove(0) {
        Section::Update { hunks, .. } => hunks,
        other => panic!("expected an update, got {other:?}"),
    }
}

fn strings(parts: &[&str]) -> Vec<String> {
    parts.iter().map(|part| part.to_string()).collect()
}

fn root() -> AbsPath {
    AbsPath::new("/w").expect("absolute")
}

fn unseen() -> Observed {
    Observed { exists: false, contents: ReadOutcome::NotFound, target_exists: false }
}

fn holding(contents: &str) -> Observed {
    Observed {
        exists: true,
        contents: ReadOutcome::Contents(contents.to_string()),
        target_exists: false,
    }
}

#[test]
fn the_example_patch_in_the_prompt_parses() {
    let doc = APPLY_PATCH_FORMAT;
    let start = doc.rfind(BEGIN).expect("the prompt shows a full example");
    let end = doc.rfind(END).expect("the example is closed") + END.len();

    let sections = parse(&doc[start..end]).expect("the documented example parses");

    assert!(matches!(
        sections.as_slice(),
        [
            Section::Add { .. },
            Section::Update { move_to: Some(_), .. },
            Section::Delete { .. },
        ]
    ));
}

#[test]
fn a_patch_must_be_wrapped_in_its_envelope() {
    let error = parse("*** Update File: a.txt\n@@\n-a\n+b\n").expect_err("no envelope");
    assert_eq!(code(&error), "bad_patch");
}

#[test]
fn an_add_section_takes_every_following_plus_line() {
    let sections = parse("*** Begin Patch\n*** Add File: a.txt\n+one\n+two\n*** End Patch\n")
        .expect("parses");
    assert_eq!(
        sections,
        vec![Section::Add { path: "a.txt".to_string(), contents: "one\ntwo\n".to_string() }]
    );
}

#[test]
fn a_context_line_belongs_to_both_sides_of_a_hunk() {
    let hunks = hunks_of(
        "*** Begin Patch\n*** Update File: a.txt\n@@\n keep\n-drop\n+take\n*** End Patch\n",
    );
    assert_eq!(hunks[0].before(), vec!["keep".to_string(), "drop".to_string()]);
    assert_eq!(
        hunks[0].after(&hunks[0].before()),
        vec!["keep".to_string(), "take".to_string()]
    );
}

#[test]
fn a_hunk_header_is_kept_for_locating_the_region() {
    let hunks = hunks_of(
        "*** Begin Patch\n*** Update File: a.txt\n@@ fn second\n-a\n+b\n*** End Patch\n",
    );
    assert_eq!(hunks[0].header.as_deref(), Some("fn second"));
}

#[test]
fn an_end_of_file_marker_anchors_the_hunk_at_the_end() {
    let hunks = hunks_of(
        "*** Begin Patch\n*** Update File: a.txt\n@@\n-a\n+b\n*** End of File\n*** End Patch\n",
    );
    assert!(hunks[0].at_eof);
}

#[test]
fn a_header_disambiguates_two_identical_bodies() {
    let previous = "fn first\n    body\nfn second\n    body\n";
    let hunks = hunks_of(
        "*** Begin Patch\n*** Update File: a.rs\n@@ fn second\n-    body\n+    changed\n*** End Patch\n",
    );
    let updated = apply_hunks(previous, &hunks, "a.rs").expect("applies");
    assert_eq!(updated, "fn first\n    body\nfn second\n    changed\n");
}

#[test]
fn a_context_line_keeps_the_files_indentation_not_the_patchs() {
    let previous = "    alpha\n    beta\n";
    let hunks = hunks_of(
        "*** Begin Patch\n*** Update File: a.txt\n@@\n alpha\n-beta\n+gamma\n*** End Patch\n",
    );
    let updated = apply_hunks(previous, &hunks, "a.txt").expect("applies");
    assert_eq!(updated, "    alpha\ngamma\n");
}

#[test]
fn an_exact_match_wins_over_a_whitespace_insensitive_one() {
    let previous = "  x\nx\n";
    let hunks = hunks_of("*** Begin Patch\n*** Update File: a.txt\n@@\n-x\n+y\n*** End Patch\n");
    let updated = apply_hunks(previous, &hunks, "a.txt").expect("applies");
    assert_eq!(updated, "  x\ny\n");
}

#[test]
fn a_file_without_a_trailing_newline_keeps_none() {
    let hunks = hunks_of("*** Begin Patch\n*** Update File: a.txt\n@@\n-a\n+b\n*** End Patch\n");
    assert_eq!(apply_hunks("a", &hunks, "a.txt").expect("applies"), "b");
}

#[test]
fn unmatched_context_names_the_line_it_looked_for() {
    let hunks =
        hunks_of("*** Begin Patch\n*** Update File: a.txt\n@@\n-missing\n+b\n*** End Patch\n");
    let error = apply_hunks("something else\n", &hunks, "a.txt").expect_err("no match");
    assert_eq!(code(&error), "no_match");
    assert!(message(&error).contains("missing"), "{}", message(&error));
}

#[test]
fn a_patch_without_sections_is_refused() {
    let error = parse("*** Begin Patch\n*** End Patch\n").expect_err("nothing in it");
    assert_eq!(message(&error), "patch contains no file sections");
}

#[test]
fn a_patch_has_to_end() {
    let error = parse("*** Begin Patch\n*** Delete File: a.txt\n").expect_err("no end");
    assert_eq!(message(&error), "patch must end with `*** End Patch`");
}

#[test]
fn an_update_has_to_have_a_hunk() {
    let error = parse("*** Begin Patch\n*** Update File: a.txt\n*** End Patch\n")
        .expect_err("no hunks");
    assert_eq!(message(&error), "`*** Update File: a.txt` has no hunks");
}

#[test]
fn a_hunk_line_has_to_be_marked() {
    let error = parse("*** Begin Patch\n*** Update File: a.txt\n@@\nbare\n*** End Patch\n")
        .expect_err("no marker");
    assert_eq!(
        message(&error),
        "hunk line must start with ' ', '-' or '+', found `bare`"
    );
}

#[test]
fn an_empty_hunk_is_refused() {
    let error = parse("*** Begin Patch\n*** Update File: a.txt\n@@ fn a\n*** End Patch\n")
        .expect_err("empty");
    assert_eq!(message(&error), "hunk is empty");
}

#[test]
fn a_header_may_be_narrowed_by_another() {
    let hunks = hunks_of(
        "*** Begin Patch\n*** Update File: a.py\n@@ class B\n@@     def f():\n-        1\n+        2\n*** End Patch\n",
    );
    assert_eq!(hunks.len(), 2);
    assert_eq!(hunks[0].header.as_deref(), Some("class B"));
    assert!(hunks[0].ops.is_empty());
    assert_eq!(hunks[1].header.as_deref(), Some("def f():"));
    let previous =
        "class A\n    def f():\n        1\nclass B\n    def f():\n        1\n";
    assert_eq!(
        apply_hunks(previous, &hunks, "a.py").expect("applies"),
        "class A\n    def f():\n        1\nclass B\n    def f():\n        2\n"
    );
}

#[test]
fn carriage_returns_and_blank_lines_around_a_patch_do_not_count() {
    let sections = parse("\r\n\n*** Begin Patch\r\n*** Delete File: a.txt\r\n*** End Patch\r\n\n")
        .expect("parses");
    assert_eq!(sections, vec![Section::Delete { path: "a.txt".to_string() }]);
}

#[test]
fn what_is_written_reads_back() {
    let patch = "*** Begin Patch\n*** Add File: new.txt\n+one\n+\n+three\n*** Update File: old.txt\n*** Move to: moved.txt\n@@ fn f\n a\n-b\n+c\n \n@@\n+d\n*** End of File\n*** Delete File: gone.txt\n*** End Patch\n";
    assert_eq!(
        parse(patch).expect("parses"),
        vec![
            Section::Add {
                path: "new.txt".to_string(),
                contents: "one\n\nthree\n".to_string(),
            },
            Section::Update {
                path: "old.txt".to_string(),
                move_to: Some("moved.txt".to_string()),
                hunks: vec![
                    Hunk {
                        header: Some("fn f".to_string()),
                        ops: vec![
                            Op::Context("a".to_string()),
                            Op::Remove("b".to_string()),
                            Op::Add("c".to_string()),
                            Op::Context(String::new()),
                        ],
                        at_eof: false,
                    },
                    Hunk {
                        header: None,
                        ops: vec![Op::Add("d".to_string())],
                        at_eof: true,
                    },
                ],
            },
            Section::Delete { path: "gone.txt".to_string() },
        ]
    );
}

#[test]
fn lines_are_sought_exactly_first_and_loosely_last() {
    let lines = strings(&["  x", "x ", "x"]);
    let wanted = strings(&["x"]);
    assert_eq!(seek(&lines, &wanted, 0, false), Some(2));
    let loose = strings(&["  x", "y"]);
    assert_eq!(seek(&loose, &wanted, 0, false), Some(0));
    assert_eq!(seek(&loose, &strings(&["z"]), 0, false), None);
}

#[test]
fn a_file_splits_into_its_lines() {
    assert_eq!(split_lines(""), Vec::<String>::new());
    assert_eq!(split_lines("a\n"), strings(&["a"]));
    assert_eq!(split_lines("a\n\nb"), strings(&["a", "", "b"]));
}

#[test]
fn one_section_that_cannot_apply_refuses_all() {
    let sections = vec![
        Section::Add { path: "a.txt".to_string(), contents: "a\n".to_string() },
        Section::Delete { path: "missing.txt".to_string() },
    ];
    let error = plan_all(&root(), &sections, &vec![unseen(), unseen()]).expect_err("refused");
    assert_eq!(code(&error), "file_not_found");
    assert_eq!(message(&error), "missing.txt: no such file");
}

#[test]
fn a_path_outside_the_workspace_is_denied() {
    let section = Section::Delete { path: "../secret".to_string() };
    let error = plan(&root(), &section, &holding("x")).expect_err("denied");
    assert!(matches!(error, ToolError::Denied { .. }), "{error:?}");
}

#[test]
fn a_new_file_may_not_exist_yet() {
    let section = Section::Add { path: "a.txt".to_string(), contents: "a\n".to_string() };
    let error = plan(&root(), &section, &holding("old")).expect_err("taken");
    assert_eq!(code(&error), "bad_patch");
    assert_eq!(message(&error), "a.txt: already exists");
}

#[test]
fn a_moved_file_is_written_anew_and_taken_away() {
    let sections = parse(
        "*** Begin Patch\n*** Update File: a.txt\n*** Move to: b.txt\n@@\n-a\n+b\n*** End Patch\n",
    )
    .expect("parses");
    let step: Step = plan(&root(), &sections[0], &holding("a\n")).expect("planned");
    assert_eq!(step.change.kind, ChangeKind::Updated);
    assert_eq!(step.change.moved_to.as_deref(), Some("b.txt"));
    let (acts, change) = step.commit();
    assert_eq!(
        acts,
        vec![
            Act::Remove(AbsPath::new("/w/a.txt").expect("absolute")),
            Act::Write(AbsPath::new("/w/b.txt").expect("absolute"), "b\n".to_string()),
        ]
    );
    assert_eq!(
        message(&change.write_failed("disk full")),
        "a.txt: disk full"
    );
}

#[test]
fn a_patch_is_reported_file_by_file() {
    let sections = parse("*** Begin Patch\n*** Add File: a.txt\n+one\n+two\n*** End Patch\n")
        .expect("parses");
    let steps = plan_all(&root(), &sections, &vec![unseen()]).expect("planned");
    let changes = steps.into_iter().map(|step| step.commit().1).collect();
    let output = ApplyPatchOutput { changes };
    let blocks = output.render();
    let [ContentBlock::Text { text }] = blocks.as_slice() else {
        panic!("one block of text, got {blocks:?}");
    };
    assert_eq!(text, "added a.txt (+2 -0)");
}

#[test]
fn the_patch_tool_edits() {
    let tool = ApplyPatch;
    assert_eq!(tool.id().as_str(), "apply_patch");
    assert_eq!(tool.capabilities().kind, ToolKind::Edit);
    assert!(!tool.capabilities().concurrency_safe);
    assert!(tool.description().text.contains("Nothing is written unless every section applies."));
}

#[test]
fn a_bad_patch_has_a_code_of_its_own() {
    assert_eq!(code(&bad_patch("x".to_string())), "bad_patch");
}

#[test]
fn an_end_of_file_hunk_that_only_adds_appends() {
    let hunk = Hunk { header: None, ops: vec![Op::Add("b".to_string())], at_eof: true };
    assert_eq!(apply_hunks("a\n", &vec![hunk], "f"), Ok("a\nb\n".to_string()));
    let hunk = Hunk { header: None, ops: vec![Op::Add("b".to_string())], at_eof: false };
    assert_eq!(apply_hunks("a\n", &vec![hunk], "f"), Ok("b\na\n".to_string()));
}

#[test]
fn a_hunk_is_never_found_before_the_search_starts() {
    let lines = |words: &[&str]| words.iter().map(|word| word.to_string()).collect::<Vec<_>>();
    let file = lines(&["a", "b"]);
    assert_eq!(seek(&file, &lines(&["a", "b"]), 1, true), None);
    assert_eq!(seek(&file, &lines(&["a", "b"]), 0, true), Some(0));
    let file = lines(&["a", "x", "a", "y"]);
    assert_eq!(seek(&file, &lines(&["a"]), 1, true), Some(2), "not at the end, but behind");
    assert_eq!(seek(&file, &lines(&["y"]), 0, true), Some(3));
    assert_eq!(seek(&file, &lines(&[]), 1, true), Some(4));
    assert_eq!(seek(&file, &lines(&[]), 1, false), Some(1));
}

#[test]
fn a_blank_line_behind_an_end_of_file_marker_is_slop() {
    let patch = "*** Begin Patch\n*** Update File: a\n@@\n-x\n+y\n*** End of File\n\n*** Delete File: b\n*** End Patch";
    let hunk = |remove: &str, add: &str| Hunk {
        header: None,
        ops: vec![Op::Remove(remove.to_string()), Op::Add(add.to_string())],
        at_eof: true,
    };
    assert_eq!(
        parse(patch),
        Ok(vec![
            Section::Update {
                path: "a".to_string(),
                move_to: None,
                hunks: vec![hunk("x", "y")],
            },
            Section::Delete { path: "b".to_string() },
        ])
    );
    let patch = "*** Begin Patch\n*** Update File: a\n@@\n-x\n+y\n*** End of File\n  \n\n@@\n-y\n+z\n*** End of File\n\n*** End Patch";
    assert_eq!(
        parse(patch),
        Ok(vec![Section::Update {
            path: "a".to_string(),
            move_to: None,
            hunks: vec![hunk("x", "y"), hunk("y", "z")],
        }])
    );
    let patch = "*** Begin Patch\n*** Update File: a\n@@\n-x\n*** End of File\n\nstray\n*** End Patch";
    assert_eq!(code(&parse(patch).expect_err("stray")), "bad_patch");
    let patch = "*** Begin Patch\n*** Update File: a\n\n@@\n-x\n*** End Patch";
    assert_eq!(code(&parse(patch).expect_err("no hunk yet")), "bad_patch");
}

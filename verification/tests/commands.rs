//! The commands a person types, and the transcript's way with paths.

use keke::paths::AbsPath;
use keke::protocol::{Json, ReasoningEffort};
use keke::slash::{
    effort, effort_name, ladder, next_effort, parse, policy_name, Builtin, PluginCommand,
    SlashAction, SlashCommand, SlashCommands,
};
use keke::transcript::{headline, one_line, relative_to_cwd, verb, Transcript};

fn contributed(plugin: &str, name: &str) -> PluginCommand {
    SlashCommand::prompt(plugin, name, "does a thing", &format!("/tmp/{plugin}/{name}.md"))
}

#[test]
fn a_sole_claimant_keeps_the_bare_name() {
    let commands = SlashCommands::new(vec![contributed("inspector", "review")]);
    assert!(commands.find("review").is_some());
}

#[test]
fn two_plugins_claiming_one_name_are_both_qualified() {
    let commands = SlashCommands::new(vec![
        contributed("inspector", "review"),
        contributed("auditor", "review"),
    ]);
    assert!(commands.find("review").is_none());
    assert!(commands.find("inspector:review").is_some());
    assert!(commands.find("auditor:review").is_some());
}

#[test]
fn a_plugin_cannot_take_a_builtin_name() {
    let commands = SlashCommands::new(vec![contributed("sneaky", "quit")]);
    assert_eq!(
        commands.find("quit").map(|entry| &entry.action),
        Some(&SlashAction::Builtin(Builtin::Quit))
    );
    assert!(commands.find("sneaky:quit").is_some());
}

#[test]
fn matching_completes_on_the_prefix() {
    let commands = SlashCommands::new(Vec::new());
    let names: Vec<&str> =
        commands.matching("q").iter().map(|entry| entry.name.as_str()).collect();
    assert_eq!(names, vec!["quit"]);
}

#[test]
fn entries_are_sorted_by_name() {
    let commands = SlashCommands::new(vec![contributed("p", "zeta"), contributed("p", "alpha")]);
    let names: Vec<&str> =
        commands.entries().iter().map(|entry| entry.name.as_str()).collect();
    let mut sorted = names.clone();
    sorted.sort();
    assert_eq!(names, sorted);
    assert_eq!(names.first(), Some(&"alpha"));
}

#[test]
fn an_unknown_effort_is_refused_rather_than_defaulted() {
    assert!(effort("hgih").is_err());
    assert_eq!(effort(""), Ok(None));
    assert_eq!(effort("xhigh"), Ok(Some(Some(ReasoningEffort::XHigh))));
    assert_eq!(effort("default"), Ok(Some(None)));
}

#[test]
fn cycling_the_effort_returns_to_the_default() {
    let none = Vec::new();
    let mut level = None;
    for _ in 0..ladder().len() {
        level = next_effort(level, &none);
    }
    assert_eq!(level, Some(ReasoningEffort::Ultra));
    assert_eq!(next_effort(level, &none), None);
}

#[test]
fn cycling_walks_the_ladder_the_model_published() {
    let offered = vec![ReasoningEffort::Low, ReasoningEffort::High];
    assert_eq!(next_effort(None, &offered), Some(ReasoningEffort::Low));
    assert_eq!(
        next_effort(Some(ReasoningEffort::Low), &offered),
        Some(ReasoningEffort::High)
    );
    assert_eq!(next_effort(Some(ReasoningEffort::High), &offered), None);
}

#[test]
fn a_level_this_model_does_not_offer_cycles_back_to_unset() {
    let offered = vec![ReasoningEffort::Low, ReasoningEffort::High];
    assert_eq!(next_effort(Some(ReasoningEffort::Max), &offered), None);
}

#[test]
fn a_path_is_not_a_command() {
    let pair = |a: &str, b: &str| Some((a.to_string(), b.to_string()));
    assert_eq!(parse("/usr/bin/env is missing"), None);
    assert_eq!(parse("/effort high"), pair("effort", "high"));
    assert_eq!(parse("/help"), pair("help", ""));
    assert_eq!(parse("hello"), None);
}

#[test]
fn a_name_may_hold_letters_of_any_script() {
    assert_eq!(parse("/größe x"), Some(("größe".to_string(), "x".to_string())));
    assert_eq!(parse("/a.b"), None);
}

#[test]
fn levels_and_policies_are_written_as_they_are_typed() {
    assert_eq!(effort_name(None), "default");
    assert_eq!(effort_name(Some(ReasoningEffort::Medium)), "medium");
    assert_eq!(policy_name(keke::protocol::ApprovalPolicy::OnFailure), "on-failure");
}

fn prefix(parts: &[&str]) -> Vec<String> {
    parts.iter().map(|part| part.to_string()).collect()
}

#[test]
fn strips_the_prefix_for_a_path_under_cwd() {
    let cwd_prefix = prefix(&["crates", "keke-tools"]);
    assert_eq!(
        relative_to_cwd("crates/keke-tools/src/write_file.rs", &cwd_prefix),
        "src/write_file.rs"
    );
}

#[test]
fn climbs_out_for_a_path_outside_cwd() {
    let cwd_prefix = prefix(&["crates", "keke-tools"]);
    assert_eq!(
        relative_to_cwd("crates/keke-core/src/lib.rs", &cwd_prefix),
        "../keke-core/src/lib.rs"
    );
}

#[test]
fn leaves_paths_alone_when_launched_from_the_workspace_root() {
    assert_eq!(
        relative_to_cwd("crates/keke-core/src/lib.rs", &Vec::new()),
        "crates/keke-core/src/lib.rs"
    );
}

#[test]
fn headline_reroots_the_path_argument() {
    let cwd_prefix = prefix(&["crates", "keke-tools"]);
    let arguments = Json::Object(vec![(
        "path".to_string(),
        Json::Text("crates/keke-tools/src/write_file.rs".to_string()),
    )]);
    assert_eq!(headline(&arguments, &cwd_prefix), "src/write_file.rs");
}

#[test]
fn a_transcript_reroots_against_where_it_was_launched() {
    let root = AbsPath::new("/w").expect("absolute");
    let cwd = AbsPath::new("/w/crates/a").expect("absolute");
    let mut transcript = Transcript::with_cwd(&cwd, Some(&root));
    transcript.start_tool(&keke::protocol::ToolCall {
        id: "c".to_string(),
        name: "read_file".to_string(),
        arguments: Json::Object(vec![(
            "path".to_string(),
            Json::Text("crates/a/lib.rs".to_string()),
        )]),
    });
    let Some(keke::transcript::Cell::Tool(tool)) = transcript.last() else {
        panic!("a tool cell");
    };
    assert_eq!(tool.summary, "lib.rs");
}

#[test]
fn a_line_is_cut_to_its_limit() {
    assert_eq!(one_line("a  b\n c", 10), "a b c");
    assert_eq!(one_line("abcdef", 4), "abc…");
}

#[test]
fn verbs_say_what_a_tool_does() {
    assert_eq!(verb("read_file").0, "Read");
}

//! State tests. Every one drives the interface the way a key or an update would and asserts on
//! what a person would see.

use keke::app::keys::{Key, KeyPress, Mouse, MouseKind};
use keke::app::{App, Effect, Override, SessionMode, Turn, Update};
use keke::draw::picker::McpServer;
use keke::draw::subagents::Subagent;
use keke::draw::transcript::render;
use keke::file_search::{Ask, AtContext, FileMatch, FileSearchState, Snapshot};
use keke::history::PromptHistory;
use keke::login::Notice;
use keke::picker::ProviderChoice;
use keke::plan::{plan_file, plan_slug, PlanFocus};
use keke::paths::AbsPath;
use keke::protocol::{
    ApprovalPolicy, ContentBlock, Json, Message, PermissionAnswer, ReasoningEffort, Role,
    StopReason, ToolCall, ToolResult, ToolStatus, Usage,
};
use keke::provider::ModelInfo;
use keke::scroll::Scrollback;
use keke::slash::{PluginCommand, SlashCommand, SlashCommands};
use keke::style::Rect;
use keke::transcript::{summarize_arguments, CallState, Cell, Transcript};

fn call(id: &str, name: &str) -> ToolCall {
    reading(id, name, "src/lib.rs")
}

fn reading(id: &str, name: &str, path: &str) -> ToolCall {
    ToolCall {
        id: id.to_string(),
        name: name.to_string(),
        arguments: Json::Object(vec![("path".to_string(), Json::Text(path.to_string()))]),
    }
}

fn ok(id: &str, said: &str) -> ToolResult {
    ToolResult {
        id: id.to_string(),
        status: ToolStatus::Succeeded,
        content: vec![ContentBlock::text(said)],
        value: None,
    }
}

fn key(key: Key) -> KeyPress {
    KeyPress { key, control: false, alt: false, shift: false, released: false }
}

fn control(ch: char) -> KeyPress {
    KeyPress { control: true, ..key(Key::Char(ch)) }
}

fn shift(code: Key) -> KeyPress {
    KeyPress { shift: true, ..key(code) }
}

fn mouse(kind: MouseKind, column: u16, row: u16) -> Mouse {
    Mouse { kind, column, row }
}

fn wheel(up: bool) -> Mouse {
    mouse(if up { MouseKind::ScrollUp } else { MouseKind::ScrollDown }, 0, 0)
}

fn type_text(app: &mut App, text: &str) {
    for ch in text.chars() {
        app.handle_key(key(Key::Char(ch)));
    }
}

fn app_with_commands(plugins: Vec<PluginCommand>) -> App {
    App::new().with_commands(SlashCommands::new(plugins))
}

fn copy_command(app: &mut App) {
    type_text(app, "/copy");
    app.handle_key(key(Key::Enter));
}

fn usage(input_tokens: u64, output_tokens: u64) -> Usage {
    Usage { input_tokens, output_tokens, ..Usage::default() }
}

fn total(usage: Usage) -> u64 {
    usage.input_tokens + usage.output_tokens
}

fn permission(id: &str) -> Update {
    Update::PermissionRequested {
        id: id.to_string(),
        call: call("c1", "bash"),
        reason: "runs a command".to_string(),
    }
}

fn prompts(effects: &[Effect]) -> Vec<String> {
    effects
        .iter()
        .filter_map(|effect| match effect {
            Effect::Prompt(prompt) => Some(prompt.clone()),
            _ => None,
        })
        .collect()
}

fn answers(effects: &[Effect]) -> Vec<(String, PermissionAnswer, Option<String>)> {
    effects
        .iter()
        .filter_map(|effect| match effect {
            Effect::Answer { id, answer, note } => Some((id.clone(), *answer, note.clone())),
            _ => None,
        })
        .collect()
}

fn cancels(effects: &[Effect]) -> usize {
    effects.iter().filter(|effect| matches!(effect, Effect::Cancel)).count()
}

fn modes(effects: &[Effect]) -> Vec<SessionMode> {
    effects
        .iter()
        .filter_map(|effect| match effect {
            Effect::SetMode(mode) => Some(*mode),
            _ => None,
        })
        .collect()
}

fn models(effects: &[Effect]) -> Vec<String> {
    effects
        .iter()
        .filter_map(|effect| match effect {
            Effect::SetModel(model) => Some(model.clone()),
            _ => None,
        })
        .collect()
}

fn efforts(effects: &[Effect]) -> Vec<Option<ReasoningEffort>> {
    effects
        .iter()
        .filter_map(|effect| match effect {
            Effect::SetEffort(effort) => Some(*effort),
            _ => None,
        })
        .collect()
}

fn rendered(app: &App) -> Vec<String> {
    render(app.transcript.cells(), 80, app.expanded())
        .lines
        .iter()
        .map(|line| line.spans.iter().map(|span| span.content.as_str()).collect::<String>())
        .collect()
}

fn finished_reads(app: &mut App, count: usize) {
    for index in 0..count {
        let id = format!("c{index}");
        app.apply(Update::ToolCallStarted(reading(
            &id,
            "read_file",
            &format!("src/f{index}.rs"),
        )));
        app.apply(Update::ToolCallEnded(ok(&id, "12 lines")));
    }
}

#[test]
fn typing_and_pressing_enter_sends_the_prompt() {
    let mut app = App::new();
    type_text(&mut app, "hello");
    app.handle_key(key(Key::Enter));

    assert_eq!(app.transcript.last(), Some(&Cell::User("hello".to_string())));
    assert!(app.input.is_empty(), "a sent prompt must not stay in the box");
    assert_eq!(prompts(&app.take_effects()), vec!["hello".to_string()]);

    app.apply(Update::TurnStarted);
    app.apply(Update::TextDelta("hi".to_string()));
    app.apply(Update::TurnEnded(StopReason::EndTurn));
    assert_eq!(app.turn(), Turn::Idle);
    assert!(app.transcript.cells().contains(&Cell::Assistant("hi".to_string())));
}

#[test]
fn an_empty_prompt_is_not_sent() {
    let mut app = App::new();
    app.handle_key(key(Key::Enter));
    assert!(app.take_effects().is_empty());
    assert!(app.transcript.is_empty());
}

#[test]
fn shift_enter_writes_a_newline_instead_of_sending() {
    let mut app = App::new();
    type_text(&mut app, "one");
    app.handle_key(shift(Key::Enter));
    type_text(&mut app, "two");

    assert_eq!(app.input.text(), "one\ntwo");
    assert!(app.take_effects().is_empty());
}

#[test]
fn one_turn_of_prose_is_one_cell() {
    let mut app = App::new();
    app.apply(Update::TurnStarted);
    app.apply(Update::TextDelta("hel".to_string()));
    app.apply(Update::TextDelta("lo".to_string()));
    app.apply(Update::TurnEnded(StopReason::EndTurn));
    app.apply(Update::TurnStarted);
    app.apply(Update::TextDelta("again".to_string()));

    let prose: Vec<_> = app
        .transcript
        .cells()
        .iter()
        .filter_map(|cell| match cell {
            Cell::Assistant(text) => Some(text.as_str()),
            _ => None,
        })
        .collect();
    assert_eq!(prose, vec!["hello", "again"]);
}

#[test]
fn a_tool_result_revises_the_cell_the_call_opened() {
    let mut app = App::new();
    app.apply(Update::ToolCallStarted(call("c1", "read_file")));
    app.apply(Update::ToolCallEnded(ok("c1", "42 lines")));

    let tools: Vec<_> = app
        .transcript
        .cells()
        .iter()
        .filter_map(|cell| match cell {
            Cell::Tool(tool) => Some(tool),
            _ => None,
        })
        .collect();
    assert_eq!(tools.len(), 1, "the result must not add a second cell");
    assert_eq!(tools[0].state, CallState::Finished(ToolStatus::Succeeded));
    assert_eq!(tools[0].detail.as_deref(), Some("42 lines"));
}

#[test]
fn a_result_for_an_unknown_call_is_reported_rather_than_dropped() {
    let mut app = App::new();
    app.apply(Update::ToolCallEnded(ok("ghost", "done")));
    assert!(matches!(app.transcript.last(), Some(Cell::Error(_))));
    assert_eq!(
        app.transcript.last(),
        Some(&Cell::Error("result for unknown call ghost".to_string()))
    );
}

#[test]
fn a_permission_prompt_takes_the_letter_keys() {
    let mut app = App::new();
    app.apply(permission("p1"));
    assert_eq!(app.turn(), Turn::AwaitingPermission);

    app.handle_key(key(Key::Char('y')));
    assert!(app.input.is_empty());
    assert_eq!(
        answers(&app.take_effects()),
        vec![("p1".to_string(), PermissionAnswer::Allow, None)]
    );
    assert_eq!(app.turn(), Turn::Running);
    assert!(app.open_permission_id().is_none());
}

#[test]
fn each_letter_gives_an_answer_of_its_own() {
    for (letter, answer) in [
        ('y', PermissionAnswer::Allow),
        ('a', PermissionAnswer::AllowAlways),
        ('n', PermissionAnswer::Deny),
        ('d', PermissionAnswer::Deny),
    ] {
        let mut app = App::new();
        app.apply(permission("p1"));
        app.handle_key(key(Key::Char('x')));
        assert!(answers(&app.take_effects()).is_empty());
        app.handle_key(key(Key::Char(letter)));
        assert_eq!(answers(&app.take_effects()), vec![("p1".to_string(), answer, None)]);
    }
}

#[test]
fn an_answered_prompt_keeps_the_decision_on_screen() {
    let mut app = App::new();
    app.apply(permission("p1"));
    app.answer_permission(PermissionAnswer::Deny);

    let Some(Cell::Permission(prompt)) = app.transcript.last() else {
        panic!("the prompt must stay in the scrollback");
    };
    assert_eq!(prompt.answer, Some(PermissionAnswer::Deny));
}

#[test]
fn ctrl_c_cancels_a_turn_before_it_quits() {
    let mut app = App::new();
    app.apply(Update::TurnStarted);
    app.apply(Update::ToolCallStarted(call("c1", "bash")));

    app.handle_key(control('c'));
    assert_eq!(cancels(&app.take_effects()), 1);
    assert!(!app.should_quit(), "the first Ctrl-C must not exit mid-turn");
    assert_eq!(app.turn(), Turn::Idle);

    app.handle_key(control('c'));
    assert!(app.should_quit());
}

#[test]
fn esc_cancels_a_turn_while_busy() {
    let mut app = App::new();
    app.apply(Update::TurnStarted);
    app.apply(Update::ToolCallStarted(call("c1", "bash")));

    app.handle_key(key(Key::Esc));
    assert_eq!(cancels(&app.take_effects()), 1);
    assert_eq!(app.turn(), Turn::Idle);
    assert!(!app.should_quit());
}

#[test]
fn a_cancelled_turn_stops_every_running_spinner() {
    let mut app = App::new();
    app.apply(Update::TurnStarted);
    app.apply(Update::ToolCallStarted(call("c1", "bash")));
    app.apply(Update::ToolCallStarted(call("c2", "grep")));
    app.handle_key(control('c'));

    let running = app
        .transcript
        .cells()
        .iter()
        .filter(|cell| matches!(cell, Cell::Tool(tool) if tool.state == CallState::Running))
        .count();
    assert_eq!(running, 0);
}

#[test]
fn copying_takes_the_last_reply_and_hands_it_over_once() {
    let mut app = app_with_commands(Vec::new());
    app.apply(Update::TextDelta("first answer".to_string()));
    app.apply(Update::TurnEnded(StopReason::EndTurn));
    app.apply(Update::TextDelta("second answer".to_string()));

    copy_command(&mut app);
    assert_eq!(app.take_pending_copy().as_deref(), Some("second answer"));
    assert_eq!(app.take_pending_copy(), None);
}

#[test]
fn copying_says_so_in_the_status_bar_and_not_in_the_conversation() {
    let mut app = app_with_commands(Vec::new());
    app.apply(Update::TextDelta("an answer".to_string()));
    let before = app.transcript.len();

    copy_command(&mut app);
    assert_eq!(app.flash(), Some("copied 1 lines"));
    assert_eq!(app.transcript.len(), before);
}

#[test]
fn copying_nothing_flashes_rather_than_copying_an_empty_clipboard() {
    let mut app = app_with_commands(Vec::new());
    copy_command(&mut app);
    assert_eq!(app.take_pending_copy(), None);
    assert_eq!(app.flash(), Some("nothing to copy yet"));
}

#[test]
fn a_flash_expires() {
    let mut app = app_with_commands(Vec::new());
    app.tick(1_000);
    copy_command(&mut app);
    app.tick(5_999);
    assert!(app.flash().is_some());
    assert!(app.is_timing());
    app.tick(6_000);
    assert_eq!(app.flash(), None);
    assert!(!app.is_timing(), "an expired flash must not keep the interface redrawing");
}

#[test]
fn a_long_prompt_keeps_its_cursor_on_screen() {
    let mut app = App::new();
    for at in 0..20 {
        let text = format!("{}line {at}", app.input.text() + "\n");
        app.input.set_text(&text);
    }
    let rows = keke::draw::input::rows(&app.input, 80);
    assert_eq!(rows, keke::draw::input::MAX_ROWS + 2);

    let (row, _) = app.input.cursor();
    let visible = usize::from(rows - 2);
    assert!(row >= visible, "the cursor is past the bottom of the box");
}

#[test]
fn the_arrows_recall_history_when_nothing_is_typed_and_the_mouse_is_captured() {
    let mut app = App::new().with_prompt_history(PromptHistory::new(vec!["old".to_string()]));
    assert!(app.mouse_capture());

    app.handle_key(key(Key::Up));
    assert_eq!(app.input.text(), "old");
}

#[test]
fn the_arrows_scroll_the_conversation_when_the_mouse_is_released() {
    let mut app = App::new();
    app.toggle_mouse_capture();
    app.scroll.measure(100, 10);

    app.handle_key(key(Key::Up));
    assert_eq!(app.scroll.pinned_top(), Some(89));
    assert!(app.input.is_empty(), "the prompt box was left alone");
    app.handle_key(key(Key::Down));
    assert!(app.scroll.is_following());
}

#[test]
fn clicking_the_count_below_follows_the_conversation_again() {
    let mut app = App::new();
    app.scroll.measure(100, 10);
    app.scroll.scroll_up(20);
    app.set_follow_button(Some((10, 9, 16)));

    app.handle_mouse(mouse(MouseKind::Press, 2, 9));
    assert!(!app.scroll.is_following());

    app.handle_mouse(mouse(MouseKind::Press, 12, 9));
    assert!(app.scroll.is_following());
}

#[test]
fn the_wheel_scrolls_the_conversation() {
    let mut app = App::new();
    app.scroll.measure(100, 10);
    app.handle_mouse(wheel(true));
    assert_eq!(app.scroll.pinned_top(), Some(87));
    app.handle_mouse(wheel(false));
    assert!(app.scroll.is_following());
}

#[test]
fn scrolling_back_counts_what_is_below_and_following_does_not() {
    let mut app = App::new();
    app.scroll.measure(50, 10);
    assert_eq!(app.scroll.below(), 0);

    app.scroll.scroll_up(5);
    assert_eq!(app.scroll.below(), 5);
    app.handle_key(control('l'));
    assert_eq!(app.scroll.below(), 0);
}

#[test]
fn a_failure_does_not_end_the_conversation() {
    let mut app = App::new();
    app.apply(Update::TurnStarted);
    app.apply(Update::Failed("provider said no".to_string()));
    assert_eq!(app.turn(), Turn::Idle);
    assert!(!app.should_quit());
}

#[test]
fn a_prompt_that_never_left_surfaces_as_an_error() {
    let mut app = App::new();
    type_text(&mut app, "hi");
    app.handle_key(key(Key::Enter));
    app.apply(Update::Failed("pipe closed".to_string()));
    assert_eq!(app.transcript.last(), Some(&Cell::Error("pipe closed".to_string())));
}

#[test]
fn scrolling_back_pins_the_view_while_output_arrives() {
    let mut app = App::new();
    for index in 0..50 {
        app.transcript.push(Cell::Assistant(format!("line {index}")));
    }
    app.scroll.measure(100, 10);
    app.scroll.page_up();
    let pinned = app.scroll.pinned_top();
    assert!(pinned.is_some(), "paging up must leave the tail");

    app.apply(Update::TextDelta("new".to_string()));
    app.scroll.measure(120, 10);
    assert_eq!(app.scroll.pinned_top(), pinned);
    assert!(!app.scroll.is_following());
}

#[test]
fn paging_down_to_the_bottom_resumes_following() {
    let mut scroll = Scrollback::default();
    scroll.measure(100, 10);
    scroll.page_up();
    assert!(!scroll.is_following());
    for _ in 0..20 {
        scroll.page_down();
    }
    assert!(scroll.is_following(), "reaching the bottom must go live again");
}

#[test]
fn ctrl_l_jumps_back_to_the_tail() {
    let mut app = App::new();
    app.scroll.measure(100, 10);
    app.handle_key(control('c'));
    app.scroll.page_up();
    app.handle_key(control('l'));
    assert!(app.scroll.is_following());
}

#[test]
fn the_input_box_edits_multibyte_text_by_character() {
    let mut app = App::new();
    type_text(&mut app, "日本語");
    app.handle_key(key(Key::Left));
    app.handle_key(key(Key::Backspace));
    assert_eq!(app.input.text(), "日語");
    app.handle_key(key(Key::Home));
    app.handle_key(key(Key::Delete));
    assert_eq!(app.input.text(), "語");
}

#[test]
fn a_login_notice_is_shown_without_printing_over_the_interface() {
    let mut app = App::new();
    app.apply_notice(Notice::OpenBrowser("https://auth.example/authorize".to_string()));
    let Some(Cell::Notice(text)) = app.transcript.last() else {
        panic!("the URL must reach the transcript");
    };
    assert!(text.contains("https://auth.example/authorize"));
}

#[test]
fn every_notice_reads_its_own_way() {
    let code = Notice::DeviceCode {
        code: "AB-12".to_string(),
        verification_uri: "https://v.test".to_string(),
    };
    assert_eq!(code.message(), "enter code AB-12 at https://v.test");
    assert_eq!(Notice::Message("wait".to_string()).message(), "wait");
    assert_eq!(Notice::SignedIn("vercel".to_string()).message(), "signed in to `vercel`");
    assert_eq!(Notice::mcp_browser("v", "u").message(), "`v`: sign in at u");
    assert_eq!(Notice::mcp_code("v", "c", "u").message(), "`v`: enter code c at u");
}

#[test]
fn a_refusal_is_shown_rather_than_ending_silently() {
    let mut app = App::new();
    app.apply(Update::TurnStarted);
    app.apply(Update::TurnEnded(StopReason::Refusal { message: "policy".to_string() }));
    assert!(matches!(app.transcript.last(), Some(Cell::Error(_))));
}

#[test]
fn tool_arguments_collapse_to_one_line() {
    let summary = summarize_arguments(&Json::Object(vec![
        ("command".to_string(), Json::Text("echo hi\nsleep 1".to_string())),
        (
            "items".to_string(),
            Json::Array(vec![Json::number(1), Json::number(2), Json::number(3)]),
        ),
    ]));
    assert!(!summary.contains('\n'));
    assert!(summary.contains("command=echo hi sleep 1"));
    assert!(summary.contains("items=[3 items]"));
}

#[test]
fn wrapped_text_keeps_its_block_shape() {
    let cells = vec![Cell::User("a b c d e f g h i j".to_string())];
    let lines = render(&cells, 12, &Vec::new()).lines;
    let rendered: Vec<String> = lines
        .iter()
        .map(|line| line.spans.iter().map(|span| span.content.as_str()).collect())
        .collect();
    assert!(rendered[0].starts_with("› "));
    assert!(
        rendered
            .iter()
            .skip(1)
            .take_while(|line| !line.is_empty())
            .all(|line| line.starts_with("  ")),
        "continuation lines must line up under the first: {rendered:?}"
    );
}

#[test]
fn content_blocks_other_than_text_do_not_fake_a_detail_line() {
    let mut app = App::new();
    app.apply(Update::ToolCallStarted(call("c1", "read_file")));
    app.apply(Update::ToolCallEnded(ToolResult {
        id: "c1".to_string(),
        status: ToolStatus::Succeeded,
        content: vec![ContentBlock::text("   ")],
        value: None,
    }));
    let Some(Cell::Tool(tool)) = app.transcript.last() else {
        panic!("the tool cell must be there");
    };
    assert_eq!(tool.detail, None);
}

#[test]
fn typing_a_slash_opens_the_command_menu() {
    let mut app = app_with_commands(Vec::new());
    type_text(&mut app, "/hel");

    let names: Vec<String> =
        app.completions().iter().map(|entry| entry.name.clone()).collect();
    assert_eq!(names, vec!["help"]);

    app.handle_key(key(Key::Tab));
    assert_eq!(app.input.text(), "/help ");
}

#[test]
fn the_menu_closes_once_arguments_are_being_typed() {
    let mut app = app_with_commands(Vec::new());
    type_text(&mut app, "/effort high");
    assert!(app.completions().is_empty());
}

#[test]
fn the_menu_wraps_around_its_ends() {
    let mut app = app_with_commands(Vec::new());
    type_text(&mut app, "/");
    let count = app.completions().len();
    assert!(count > 1);
    app.handle_key(key(Key::Up));
    assert_eq!(app.completion(), count - 1);
    app.handle_key(key(Key::Down));
    assert_eq!(app.completion(), 0);
    app.handle_key(key(Key::Esc));
    assert!(app.input.is_empty());
}

#[test]
fn a_command_runs_instead_of_reaching_the_model() {
    let mut app = app_with_commands(Vec::new());
    type_text(&mut app, "/help");
    app.handle_key(key(Key::Enter));

    assert!(prompts(&app.take_effects()).is_empty(), "a command is not a prompt");
    assert!(matches!(app.transcript.last(), Some(Cell::Notice(text)) if text.contains("/effort")));
}

#[test]
fn an_unknown_command_is_reported_rather_than_sent() {
    let mut app = app_with_commands(Vec::new());
    type_text(&mut app, "/nope");
    app.handle_key(key(Key::Enter));

    assert!(prompts(&app.take_effects()).is_empty());
    assert!(matches!(app.transcript.last(), Some(Cell::Error(text)) if text.contains("/nope")));
}

#[test]
fn a_leading_path_is_still_a_prompt() {
    let mut app = app_with_commands(Vec::new());
    type_text(&mut app, "/usr/bin/env is missing");
    app.handle_key(key(Key::Enter));
    assert_eq!(
        prompts(&app.take_effects()),
        vec!["/usr/bin/env is missing".to_string()]
    );
}

#[test]
fn a_plugin_command_sends_its_file_as_the_prompt() {
    let mut app = app_with_commands(vec![SlashCommand::prompt(
        "inspector",
        "review",
        "review the diff",
        "/p/review.md",
    )]);
    type_text(&mut app, "/review carefully");
    app.handle_key(key(Key::Enter));
    assert_eq!(
        app.take_effects(),
        vec![Effect::ReadCommand {
            path: "/p/review.md".to_string(),
            typed: "/review carefully".to_string(),
            arguments: "carefully".to_string(),
        }]
    );
    app.command_read(
        "/p/review.md",
        "/review carefully",
        "carefully",
        Ok("Review the diff.".to_string()),
    );
    assert_eq!(
        prompts(&app.take_effects()),
        vec!["Review the diff.\n\ncarefully".to_string()]
    );
    assert!(app.transcript.cells().contains(&Cell::User("/review carefully".to_string())));
}

#[test]
fn a_command_file_that_cannot_be_read_is_reported_not_sent() {
    let mut app = App::new();
    app.command_read(
        "/nonexistent/review.md",
        "/review",
        "",
        Err("no such file".to_string()),
    );
    assert!(prompts(&app.take_effects()).is_empty());
    assert_eq!(
        app.transcript.last(),
        Some(&Cell::Error("reading /nonexistent/review.md: no such file".to_string()))
    );
}

#[test]
fn shift_tab_walks_one_ladder_through_plan_and_the_policies() {
    let mut app = app_with_commands(Vec::new());
    assert_eq!(app.approval_policy(), ApprovalPolicy::OnRequest);
    assert_eq!(app.session_mode(), SessionMode::Default);

    app.handle_key(key(Key::BackTab));
    assert_eq!(app.approval_policy(), ApprovalPolicy::OnFailure);
    assert!(app.transcript.is_empty(), "{:?}", app.transcript.cells());

    app.handle_key(shift(Key::Tab));
    assert_eq!(app.approval_policy(), ApprovalPolicy::Never);

    app.handle_key(key(Key::BackTab));
    app.apply(Update::ModeChanged(SessionMode::Plan));
    assert_eq!(app.session_mode(), SessionMode::Plan);
    assert_eq!(app.approval_policy(), ApprovalPolicy::OnRequest);

    app.handle_key(key(Key::BackTab));
    app.apply(Update::ModeChanged(SessionMode::Default));
    assert_eq!(app.session_mode(), SessionMode::Default);
    assert_eq!(app.approval_policy(), ApprovalPolicy::OnRequest);

    let effects = app.take_effects();
    let policies: Vec<ApprovalPolicy> = effects
        .iter()
        .filter_map(|effect| match effect {
            Effect::SetPolicy(policy) => Some(*policy),
            _ => None,
        })
        .collect();
    assert_eq!(
        policies,
        vec![
            ApprovalPolicy::OnFailure,
            ApprovalPolicy::Never,
            ApprovalPolicy::OnRequest,
            ApprovalPolicy::OnRequest,
        ]
    );
    assert_eq!(modes(&effects), vec![SessionMode::Plan, SessionMode::Default]);
    assert!(effects.contains(&Effect::Persist(Override::Policy(ApprovalPolicy::Never))));
}

#[test]
fn asking_for_a_mode_is_not_being_in_it() {
    let mut app = App::new();
    app.request_session_mode(SessionMode::Plan);
    assert_eq!(app.session_mode(), SessionMode::Default);
    app.apply(Update::ModeChanged(SessionMode::Plan));
    assert_eq!(app.session_mode(), SessionMode::Plan);
}

#[test]
fn the_plan_command_asks_for_the_mode_and_can_carry_the_prompt() {
    let mut app = app_with_commands(Vec::new());

    type_text(&mut app, "/plan");
    app.handle_key(key(Key::Enter));
    assert_eq!(modes(&app.take_effects()), vec![SessionMode::Plan]);
    assert!(app.transcript.is_empty());

    type_text(&mut app, "/plan add caching");
    app.handle_key(key(Key::Enter));
    assert_eq!(app.transcript.last(), Some(&Cell::User("add caching".to_string())));
    assert_eq!(prompts(&app.take_effects()), vec!["add caching".to_string()]);
}

fn exit_plan_mode(plan: &str) -> Update {
    Update::PermissionRequested {
        id: "plan-1".to_string(),
        call: ToolCall {
            id: "t1".to_string(),
            name: "exit_plan_mode".to_string(),
            arguments: Json::Object(vec![("plan".to_string(), Json::Text(plan.to_string()))]),
        },
        reason: "the plan is ready".to_string(),
    }
}

#[test]
fn exit_plan_mode_opens_the_plan_for_review() {
    let mut app = App::new();
    app.apply(exit_plan_mode("## Step one\n\nread the parser"));

    let review = app.plan_review().expect("a plan to review");
    assert!(review.text().contains("read the parser"));
    assert!(!review.is_empty());
    assert_eq!(app.turn(), Turn::AwaitingPermission);
    assert_eq!(
        app.take_effects(),
        vec![Effect::SavePlan("## Step one\n\nread the parser".to_string())]
    );
    app.plan_saved("/h/plans/step-one.md".to_string());
    assert_eq!(
        app.plan_review().and_then(|review| review.path()).as_deref(),
        Some("/h/plans/step-one.md")
    );
}

#[test]
fn approving_the_plan_allows_the_call_and_requesting_changes_denies_it() {
    let mut app = App::new();

    app.apply(exit_plan_mode("do the thing"));
    app.handle_key(key(Key::Char('a')));
    assert!(app.plan_review().is_none());
    let effects = app.take_effects();
    assert_eq!(
        answers(&effects),
        vec![("plan-1".to_string(), PermissionAnswer::Allow, None)]
    );
    // Plan mode ends when the agent says it has, not because this surface approved.
    assert!(modes(&effects).is_empty());

    app.apply(exit_plan_mode("do the other thing"));
    app.handle_key(key(Key::Char('s')));
    assert!(app.plan_review().is_none(), "the composer takes over");
    assert_eq!(
        answers(&app.take_effects()).last(),
        Some(&("plan-1".to_string(), PermissionAnswer::Deny, None))
    );
    assert_eq!(app.flash(), Some("plan sent back — type what should change"));

    // ...and the composer really does take the keyboard back.
    type_text(&mut app, "narrower, please");
    assert_eq!(app.input.text(), "narrower, please");
}

#[test]
fn a_plan_can_be_approved_under_another_policy() {
    let mut app = App::new();
    app.apply(exit_plan_mode("do the thing"));
    app.approve_plan();
    assert!(app.plan_review().is_some(), "not answered yet");
    assert!(answers(&app.take_effects()).is_empty());
    assert_eq!(
        app.picker_policies(),
        vec![ApprovalPolicy::OnRequest, ApprovalPolicy::OnFailure, ApprovalPolicy::Never]
    );

    app.handle_key(key(Key::Down));
    app.handle_key(key(Key::Enter));
    assert!(app.plan_review().is_none());
    assert!(app.picker().is_none());
    assert_eq!(app.approval_policy(), ApprovalPolicy::OnFailure);
    let effects = app.take_effects();
    assert_eq!(
        answers(&effects),
        vec![("plan-1".to_string(), PermissionAnswer::Allow, None)]
    );
    assert!(modes(&effects).is_empty(), "plan mode ends when the agent says it has");
}

#[test]
fn quitting_the_plan_denies_it_and_asks_to_leave_plan_mode() {
    let mut app = App::new();
    app.apply(Update::ModeChanged(SessionMode::Plan));
    app.apply(exit_plan_mode("do the thing"));

    app.handle_key(key(Key::Char('q')));
    assert!(app.plan_review().is_none());
    let effects = app.take_effects();
    assert_eq!(
        answers(&effects),
        vec![("plan-1".to_string(), PermissionAnswer::Deny, None)]
    );
    assert_eq!(modes(&effects), vec![SessionMode::Default]);
}

#[test]
fn an_empty_plan_still_opens_a_reviewable_surface() {
    let mut app = App::new();
    app.apply(Update::PermissionRequested {
        id: "plan-1".to_string(),
        call: ToolCall {
            id: "t1".to_string(),
            name: "exit_plan_mode".to_string(),
            arguments: Json::Object(Vec::new()),
        },
        reason: String::new(),
    });

    let review = app.plan_review().expect("a surface even with no plan");
    assert!(review.is_empty());

    app.handle_key(key(Key::Char('y')));
    assert_eq!(app.take_pending_copy(), None, "there is nothing to copy");
    app.handle_key(key(Key::Char('c')));
    assert_eq!(app.flash(), Some("no plan lines to comment on"));

    app.handle_key(key(Key::Char('a')));
    assert_eq!(
        answers(&app.take_effects()),
        vec![("plan-1".to_string(), PermissionAnswer::Allow, None)]
    );
}

#[test]
fn the_plan_review_takes_the_keyboard_from_the_composer() {
    let mut app = App::new();
    app.apply(exit_plan_mode("line one"));

    type_text(&mut app, "hello");
    assert!(app.input.is_empty());

    app.handle_key(key(Key::Char('y')));
    assert_eq!(app.take_pending_copy(), Some("line one".to_string()));
}

#[test]
fn a_comment_on_a_selected_line_reaches_the_text_sent_with_the_approval() {
    let mut app = App::new();
    app.apply(exit_plan_mode("alpha\nbravo\ncharlie"));

    app.handle_key(key(Key::Char('j')));
    app.handle_key(key(Key::Char('c')));
    type_text(&mut app, "rewrite this");
    app.handle_key(key(Key::Enter));

    let review = app.plan_review().expect("still reviewing");
    assert_eq!(review.comments().len(), 1);

    app.handle_key(key(Key::Char('a')));
    let effects = app.take_effects();
    assert_eq!(
        answers(&effects),
        vec![(
            "plan-1".to_string(),
            PermissionAnswer::Allow,
            Some("Proposed plan line 2:\n> bravo\n\nComment:\nrewrite this".to_string())
        )]
    );
    assert!(prompts(&effects).is_empty(), "nothing follows as a prompt");
}

#[test]
fn requesting_changes_sends_the_comments_with_the_revision_notes() {
    let mut app = App::new();
    app.apply(exit_plan_mode("alpha\nbravo"));

    app.handle_key(key(Key::Char('c')));
    type_text(&mut app, "too vague");
    app.handle_key(key(Key::Enter));

    app.handle_key(key(Key::Tab));
    type_text(&mut app, "smaller steps");
    app.handle_key(key(Key::Enter));

    let effects = app.take_effects();
    assert_eq!(
        answers(&effects),
        vec![(
            "plan-1".to_string(),
            PermissionAnswer::Deny,
            Some(
                "Proposed plan line 1:\n> alpha\n\nComment:\ntoo vague\n\n\
                 Additional feedback:\nsmaller steps"
                    .to_string()
            )
        )]
    );
    assert!(prompts(&effects).is_empty(), "nothing follows as a prompt");
}

#[test]
fn a_range_of_lines_is_quoted_whole() {
    let mut app = App::new();
    app.apply(exit_plan_mode("alpha\nbravo\ncharlie"));
    app.handle_key(shift(Key::Down));
    app.handle_key(shift(Key::Down));
    assert_eq!(app.plan_review().map(|review| review.selection()), Some((0, 2)));
    app.handle_key(shift(Key::Up));
    app.handle_key(key(Key::Char('c')));
    type_text(&mut app, "merge");
    app.handle_key(key(Key::Enter));
    assert_eq!(
        app.plan_review().and_then(|review| review.feedback(None)).as_deref(),
        Some("Proposed plan lines 1-2:\n> alpha\n> bravo\n\nComment:\nmerge")
    );
}

#[test]
fn tab_moves_focus_to_the_composer_and_escape_returns_it() {
    let mut app = App::new();
    app.apply(exit_plan_mode("alpha"));
    assert_eq!(app.plan_focus(), PlanFocus::Preview);

    app.handle_key(key(Key::Tab));
    assert_eq!(app.plan_focus(), PlanFocus::Composer);

    app.handle_key(key(Key::Esc));
    assert_eq!(app.plan_focus(), PlanFocus::Preview);
    assert!(app.plan_review().is_some(), "escape left the composer, not the plan");
}

#[test]
fn typing_in_the_composer_does_not_fire_the_previews_actions() {
    let mut app = App::new();
    app.apply(exit_plan_mode("alpha"));

    app.handle_key(key(Key::Tab));
    type_text(&mut app, "say more here");

    assert_eq!(app.input.text(), "say more here");
    assert!(app.plan_review().is_some(), "nothing answered the plan");
    assert!(answers(&app.take_effects()).is_empty());
}

#[test]
fn view_plan_reopens_the_last_plan_as_a_record() {
    let mut app = app_with_commands(Vec::new());
    app.apply(exit_plan_mode("alpha\nbravo"));
    app.handle_key(key(Key::Char('a')));
    assert!(app.plan_review().is_none());

    type_text(&mut app, "/view-plan");
    app.handle_key(key(Key::Enter));
    let review = app.plan_review().expect("the plan came back");
    assert!(review.text().contains("bravo"));
    assert!(review.is_answered());
}

#[test]
fn a_reopened_plan_cannot_be_answered_again() {
    let mut app = app_with_commands(Vec::new());
    app.apply(exit_plan_mode("alpha"));
    app.handle_key(key(Key::Char('s')));
    app.take_effects();

    type_text(&mut app, "/show-plan");
    app.handle_key(key(Key::Enter));
    app.handle_key(key(Key::Char('a')));
    assert!(answers(&app.take_effects()).is_empty(), "nothing new was answered");
    assert!(app.flash().is_some_and(|text| text.contains("already")));

    app.handle_key(key(Key::Char('q')));
    assert!(app.plan_review().is_none());
    assert!(modes(&app.take_effects()).is_empty());
}

#[test]
fn view_plan_with_no_plan_flashes_rather_than_opening_an_empty_overlay() {
    let mut app = app_with_commands(Vec::new());
    type_text(&mut app, "/plan-view");
    app.handle_key(key(Key::Enter));
    assert!(app.plan_review().is_none());
    assert!(app.flash().is_some_and(|text| text.contains("no plan")));
}

#[test]
fn clear_empties_the_screen_and_quit_leaves() {
    let mut app = app_with_commands(Vec::new());
    app.apply(Update::TextDelta("hi".to_string()));

    type_text(&mut app, "/clear");
    app.handle_key(key(Key::Enter));
    assert!(app.transcript.is_empty());
    assert!(app.take_effects().is_empty(), "the agent is not asked to forget");

    type_text(&mut app, "/quit");
    app.handle_key(key(Key::Enter));
    assert!(app.should_quit());
}

#[test]
fn the_effort_command_names_a_level_and_refuses_a_typo() {
    let mut app = app_with_commands(Vec::new());

    type_text(&mut app, "/effort xhigh");
    app.handle_key(key(Key::Enter));
    assert_eq!(app.reasoning_effort(), Some(ReasoningEffort::XHigh));
    assert!(app.transcript.is_empty(), "a clean switch says nothing");

    type_text(&mut app, "/effort hgih");
    app.handle_key(key(Key::Enter));
    assert_eq!(app.reasoning_effort(), Some(ReasoningEffort::XHigh));
    assert!(matches!(app.transcript.last(), Some(Cell::Error(_))));

    type_text(&mut app, "/effort default");
    app.handle_key(key(Key::Enter));
    assert_eq!(app.reasoning_effort(), None);

    assert_eq!(
        efforts(&app.take_effects()),
        vec![Some(ReasoningEffort::XHigh), None]
    );
}

#[test]
fn new_reaches_the_agent_and_resets_usage_too() {
    let mut app = app_with_commands(Vec::new());
    app.apply(Update::TextDelta("some output".to_string()));
    app.apply(Update::TokensUsed(usage(100, 0)));
    assert!(!app.transcript.is_empty());
    assert!(total(app.usage()) > 0);

    type_text(&mut app, "/new");
    app.handle_key(key(Key::Enter));
    assert_eq!(app.take_effects(), vec![Effect::NewSession]);
    app.apply(Update::SessionReset);

    assert!(app.transcript.is_empty(), "{:?}", app.transcript.cells());
    assert_eq!(total(app.usage()), 0);
}

#[test]
fn a_turn_is_timed_and_its_tokens_are_counted() {
    let mut app = App::new();
    assert_eq!(app.elapsed(), None);
    assert!(!app.is_timing());

    app.tick(1_000);
    app.apply(Update::TurnStarted);
    assert!(app.is_timing());
    app.apply(Update::TokensUsed(usage(100, 20)));
    app.apply(Update::TokensUsed(usage(5, 0)));
    app.tick(3_500);
    assert_eq!(app.elapsed(), Some(2_500));
    app.apply(Update::TurnEnded(StopReason::EndTurn));

    assert!(!app.is_timing(), "the clock stops when the turn does");
    app.tick(9_000);
    assert_eq!(app.elapsed(), Some(2_500), "how long it took is still shown");
    assert_eq!(total(app.usage()), 125);
}

#[test]
fn the_context_figure_is_the_latest_step_not_a_running_total() {
    let mut app = App::new();
    app.apply(Update::TokensUsed(usage(100, 20)));
    app.apply(Update::TokensUsed(usage(5, 0)));
    assert_eq!(app.context_input(), 5);
    assert_eq!(total(app.usage()), 125);
}

#[test]
fn a_resumed_history_is_replayed_onto_the_screen() {
    let history = vec![
        Message::user("read it"),
        Message {
            role: Role::Assistant,
            content: vec![ContentBlock::ToolCall(call("c1", "read_file"))],
        },
        Message {
            role: Role::Tool,
            content: vec![ContentBlock::ToolResult(ok("c1", "the file"))],
        },
        Message { role: Role::Assistant, content: vec![ContentBlock::text("here it is")] },
    ];
    let app = App::new().with_history(&history, Usage::default(), 0);

    let cells = app.transcript.cells();
    assert!(matches!(&cells[0], Cell::User(text) if text == "read it"));
    assert!(matches!(
        &cells[1],
        Cell::Tool(tool) if tool.state == CallState::Finished(ToolStatus::Succeeded)
    ));
    assert!(matches!(&cells[2], Cell::Assistant(text) if text == "here it is"));
}

#[test]
fn ctrl_p_recalls_the_last_prompt() {
    let mut app = App::new().with_prompt_history(PromptHistory::new(vec![
        "first".to_string(),
        "second".to_string(),
    ]));

    app.handle_key(control('p'));
    assert_eq!(app.input.text(), "second");
    app.handle_key(control('p'));
    assert_eq!(app.input.text(), "first");
    app.handle_key(control('p'));
    assert_eq!(app.input.text(), "first");
}

#[test]
fn the_down_arrow_gives_the_interrupted_draft_back() {
    let mut app = App::new().with_prompt_history(PromptHistory::new(vec!["old".to_string()]));

    type_text(&mut app, "half typed");
    app.handle_key(key(Key::Up));
    assert_eq!(app.input.text(), "old");
    app.handle_key(key(Key::Down));
    assert_eq!(app.input.text(), "half typed");
}

#[test]
fn the_arrows_move_within_a_multi_line_prompt_first() {
    let mut app = App::new().with_prompt_history(PromptHistory::new(vec!["old".to_string()]));

    type_text(&mut app, "one");
    app.handle_key(KeyPress { alt: true, ..key(Key::Enter) });
    type_text(&mut app, "two");

    app.handle_key(key(Key::Up));
    assert_eq!(app.input.text(), "one\ntwo", "the first Up stays in the box");
    assert_eq!(app.input.cursor().0, 0);
    app.handle_key(key(Key::Up));
    assert_eq!(app.input.text(), "old");
}

#[test]
fn a_submitted_prompt_joins_the_history() {
    let mut app = App::new().with_prompt_history(PromptHistory::default());

    type_text(&mut app, "do the thing");
    app.handle_key(key(Key::Enter));
    assert!(app.input.is_empty());

    app.handle_key(control('p'));
    assert_eq!(app.input.text(), "do the thing");
}

#[test]
fn emacs_keys_move_and_delete_in_the_prompt() {
    let mut app = App::new();

    type_text(&mut app, "git commit -m wip");
    app.handle_key(control('w'));
    assert_eq!(app.input.text(), "git commit -m ");

    app.handle_key(control('a'));
    assert_eq!(app.input.cursor().1, 0);
    app.handle_key(control('e'));
    assert_eq!(app.input.cursor().1, "git commit -m ".chars().count());

    app.handle_key(control('b'));
    app.handle_key(control('k'));
    assert_eq!(app.input.text(), "git commit -m");

    app.handle_key(control('u'));
    assert!(app.input.is_empty());
}

#[test]
fn a_call_is_named_by_what_it_acted_on_not_by_its_argument_names() {
    let mut app = App::new();
    finished_reads(&mut app, 1);

    let header = rendered(&app)
        .into_iter()
        .find(|line| line.contains("Read"))
        .expect("the call must be drawn");
    assert!(header.contains("src/f0.rs"), "{header}");
    assert!(!header.contains("path="), "{header}");
}

#[test]
fn a_run_of_finished_calls_collapses_to_one_countable_line() {
    let mut app = App::new();
    finished_reads(&mut app, 3);

    let lines = rendered(&app);
    assert!(lines.iter().any(|line| line.contains("Read 3 files")), "{lines:?}");
    assert!(
        !lines.iter().any(|line| line.contains("src/f1.rs")),
        "a collapsed run must not still list its calls: {lines:?}"
    );
}

#[test]
fn expanding_a_run_shows_every_call_in_it_and_collapsing_hides_them_again() {
    let mut app = App::new();
    finished_reads(&mut app, 3);
    app.toggle_last_expandable();

    let lines = rendered(&app);
    assert!(lines.iter().any(|line| line.contains("src/f2.rs")), "{lines:?}");
    app.toggle_last_expandable();
    assert!(
        !rendered(&app).iter().any(|line| line.contains("src/f2.rs")),
        "expanding must be reversible"
    );
}

#[test]
fn a_failure_in_a_run_is_visible_without_expanding_it() {
    let mut app = App::new();
    finished_reads(&mut app, 2);
    app.apply(Update::ToolCallStarted(call("bad", "read_file")));
    app.apply(Update::ToolCallEnded(ToolResult {
        id: "bad".to_string(),
        status: ToolStatus::Error,
        content: Vec::new(),
        value: None,
    }));

    let lines = rendered(&app);
    assert!(
        lines.iter().any(|line| line.starts_with('✗')),
        "a collapsed run reports the worst status in it: {lines:?}"
    );
}

#[test]
fn a_reasoning_delta_never_reaches_the_transcript() {
    let mut app = App::new();
    app.apply(Update::ThinkingDelta("weighing options".to_string()));
    assert!(!rendered(&app).iter().any(|line| line.contains("weighing options")));
    assert!(app.is_thinking());

    app.apply(Update::TextDelta("the answer".to_string()));
    assert!(!app.is_thinking(), "prose ends the thinking state");
}

#[test]
fn dragging_across_a_line_copies_what_was_dragged_over() {
    let mut app = App::new();
    app.selection.set_rows(0, vec!["hello world".to_string()]);

    app.handle_mouse(mouse(MouseKind::Press, 0, 0));
    app.handle_mouse(mouse(MouseKind::Drag, 4, 0));
    app.handle_mouse(mouse(MouseKind::Release, 4, 0));

    assert_eq!(app.take_pending_copy().as_deref(), Some("hello"));
}

#[test]
fn dragging_over_several_rows_copies_them_in_reading_order() {
    let mut app = App::new();
    app.selection.set_rows(
        0,
        vec!["first line".to_string(), "second line".to_string(), "third line".to_string()],
    );

    app.handle_mouse(mouse(MouseKind::Press, 6, 0));
    app.handle_mouse(mouse(MouseKind::Drag, 4, 2));
    app.handle_mouse(mouse(MouseKind::Release, 4, 2));

    assert_eq!(app.take_pending_copy().as_deref(), Some("line\nsecond line\nthird"));
    assert_eq!(app.flash(), Some("copied 3 lines"));
}

#[test]
fn dragging_backwards_selects_the_same() {
    let mut app = App::new();
    app.selection.set_rows(0, vec!["first line".to_string(), "second line".to_string()]);
    app.handle_mouse(mouse(MouseKind::Press, 5, 1));
    app.handle_mouse(mouse(MouseKind::Drag, 6, 0));
    app.handle_mouse(mouse(MouseKind::Release, 6, 0));
    assert_eq!(app.take_pending_copy().as_deref(), Some("line\nsecond"));
}

#[test]
fn either_cell_of_a_wide_glyph_is_its_one_character() {
    for column in [2, 3] {
        let mut app = App::new();
        app.selection.set_rows(4, vec!["日本語".to_string()]);
        app.handle_mouse(mouse(MouseKind::Press, 0, 4));
        app.handle_mouse(mouse(MouseKind::Drag, column, 4));
        app.handle_mouse(mouse(MouseKind::Release, column, 4));
        assert_eq!(app.take_pending_copy().as_deref(), Some("日本"));
        assert_eq!(app.flash(), Some("copied the selection"));
    }
}

#[test]
fn a_press_and_release_in_one_place_is_a_click_not_a_selection() {
    let mut app = App::new();
    app.selection.set_rows(0, vec!["hello world".to_string()]);
    app.set_toggles(vec![(0, 7)]);

    app.handle_mouse(mouse(MouseKind::Press, 3, 0));
    app.handle_mouse(mouse(MouseKind::Release, 3, 0));

    assert_eq!(app.take_pending_copy(), None);
    assert!(app.expanded().contains(&7), "the click must reach the row");
}

#[test]
fn the_cursor_is_measured_in_cells_not_characters() {
    let mut app = App::new();

    type_text(&mut app, "你好a");
    assert_eq!(app.input.cursor().1, 3);
    assert_eq!(app.input.cursor_display().1, 5);

    app.handle_key(key(Key::Left));
    assert_eq!(app.input.cursor_display().1, 4);
    app.handle_key(key(Key::Left));
    assert_eq!(app.input.cursor_display().1, 2);
}

#[test]
fn a_pasted_block_keeps_its_line_breaks_instead_of_submitting() {
    let mut app = App::new();

    app.handle_paste("你好\r\n世界\rthere");
    assert_eq!(app.input.text(), "你好\n世界\nthere");
    assert_eq!(app.input.cursor(), (2, 5));
}

#[test]
fn a_paste_lands_where_the_cursor_is() {
    let mut app = App::new();

    type_text(&mut app, "ab");
    app.handle_key(key(Key::Left));
    app.handle_paste("中");
    assert_eq!(app.input.text(), "a中b");
    assert_eq!(app.input.cursor_display().1, 3);
}

fn served(id: &str, name: &str, efforts: &[ReasoningEffort]) -> ModelInfo {
    let mut model = ModelInfo::new(id);
    model.display_name = name.to_string();
    model.context_window = Some(272_000);
    model.reasoning_efforts = efforts.to_vec();
    model
}

fn app_with_models() -> App {
    app_with_commands(Vec::new()).with_models(
        "gpt-5.6-sol".to_string(),
        vec![
            served(
                "gpt-5.6-sol",
                "GPT-5.6-Sol",
                &[ReasoningEffort::Low, ReasoningEffort::Ultra],
            ),
            served("gpt-5.2", "GPT-5.2", &[ReasoningEffort::Low, ReasoningEffort::High]),
        ],
    )
    .with_provider("test-provider".to_string())
}

fn shown_models(app: &App) -> Vec<String> {
    app.picker_models().iter().map(|model| model.id.clone()).collect()
}

#[test]
fn the_model_command_opens_a_picker_over_what_the_provider_serves() {
    let mut app = app_with_models();
    type_text(&mut app, "/model");
    app.handle_key(key(Key::Enter));

    assert!(app.model_picker().is_some());
    assert_eq!(shown_models(&app), vec!["gpt-5.6-sol", "gpt-5.2"]);
    assert_eq!(app.picker_selected(), 0);
    assert!(app.transcript.is_empty());
}

#[test]
fn the_picker_filters_as_you_type_and_switches_on_enter() {
    let mut app = app_with_models();
    type_text(&mut app, "/model");
    app.handle_key(key(Key::Enter));
    for ch in "5.2".chars() {
        app.handle_key(key(Key::Char(ch)));
    }
    assert_eq!(shown_models(&app), vec!["gpt-5.2"]);

    app.handle_key(key(Key::Enter));
    assert!(app.model_picker().is_none());
    assert_eq!(app.model(), "gpt-5.2");
    assert_eq!(models(&app.take_effects()), vec!["gpt-5.2".to_string()]);
}

#[test]
fn escaping_the_picker_switches_nothing() {
    let mut app = app_with_models();
    type_text(&mut app, "/model");
    app.handle_key(key(Key::Enter));
    app.handle_key(key(Key::Down));
    app.handle_key(key(Key::Esc));

    assert!(app.model_picker().is_none());
    assert_eq!(app.model(), "gpt-5.6-sol");
    assert!(models(&app.take_effects()).is_empty());
}

#[test]
fn a_picker_matching_nothing_accepts_nothing() {
    let mut app = app_with_models();
    type_text(&mut app, "/model");
    app.handle_key(key(Key::Enter));
    for ch in "zzz".chars() {
        app.handle_key(key(Key::Char(ch)));
    }
    app.handle_key(key(Key::Enter));

    assert!(app.model_picker().is_some());
    assert!(models(&app.take_effects()).is_empty());
}

#[test]
fn the_model_command_without_a_list_says_so() {
    let mut app =
        app_with_commands(Vec::new()).with_models("some-model".to_string(), Vec::new());
    type_text(&mut app, "/model");
    app.handle_key(key(Key::Enter));

    assert!(app.model_picker().is_none());
    let Some(Cell::Notice(text)) = app.transcript.last() else {
        panic!("expected a notice, got {:?}", app.transcript.last());
    };
    assert!(text.contains("published no model list"), "{text}");
    assert!(text.starts_with("model: some-model\n\n"), "{text}");
}

#[test]
fn the_model_command_switches_and_tells_the_agent() {
    let mut app = app_with_models();
    type_text(&mut app, "/model gpt-5.2");
    app.handle_key(key(Key::Enter));

    assert_eq!(app.model(), "gpt-5.2");
    assert_eq!(
        app.take_effects(),
        vec![
            Effect::SetModel("gpt-5.2".to_string()),
            Effect::Persist(Override::Model("gpt-5.2".to_string())),
        ]
    );
    assert!(app.transcript.is_empty());
}

#[test]
fn a_model_the_provider_does_not_serve_is_refused() {
    let mut app = app_with_models();
    type_text(&mut app, "/model gpt-4o");
    app.handle_key(key(Key::Enter));

    assert_eq!(app.model(), "gpt-5.6-sol", "a refusal must not move the model");
    assert!(models(&app.take_effects()).is_empty());
    assert_eq!(
        app.transcript.last(),
        Some(&Cell::Error(
            "no model \"gpt-4o\" on this provider — /model lists them".to_string()
        ))
    );
}

#[test]
fn a_refused_name_is_quoted_with_what_does_not_print_escaped() {
    let mut app = app_with_models();
    app.set_model_aloud("a\"b\tc");
    assert_eq!(
        app.transcript.last(),
        Some(&Cell::Error(
            "no model \"a\\\"b\\tc\" on this provider — /model lists them".to_string()
        ))
    );
}

#[test]
fn without_a_list_any_model_is_accepted() {
    let mut app = app_with_commands(Vec::new());
    type_text(&mut app, "/model something-keke-never-heard-of");
    app.handle_key(key(Key::Enter));

    assert_eq!(app.model(), "something-keke-never-heard-of");
    assert_eq!(
        models(&app.take_effects()),
        vec!["something-keke-never-heard-of".to_string()]
    );
}

#[test]
fn the_list_of_models_says_what_each_takes() {
    let app = app_with_models();
    assert_eq!(
        app.model_list(),
        "models:\n * GPT-5.6-Sol (gpt-5.6-sol)  ·  272k context  ·  effort: low, ultra\n   GPT-5.2 (gpt-5.2)  ·  272k context  ·  effort: low, high\n\n/model <id> switches; /effort sets how hard it thinks."
    );
}

#[test]
fn cycling_the_effort_stays_on_the_current_model_ladder() {
    let mut app = app_with_models();
    type_text(&mut app, "/effort");
    app.handle_key(key(Key::Enter));
    assert_eq!(app.reasoning_effort(), Some(ReasoningEffort::Low));

    type_text(&mut app, "/effort");
    app.handle_key(key(Key::Enter));
    assert_eq!(app.reasoning_effort(), Some(ReasoningEffort::Ultra));

    type_text(&mut app, "/effort");
    app.handle_key(key(Key::Enter));
    assert_eq!(app.reasoning_effort(), None);
}

#[test]
fn switching_to_a_model_without_the_current_level_drops_it() {
    let mut app = app_with_models();
    type_text(&mut app, "/effort ultra");
    app.handle_key(key(Key::Enter));
    assert_eq!(app.reasoning_effort(), Some(ReasoningEffort::Ultra));

    type_text(&mut app, "/model gpt-5.2");
    app.handle_key(key(Key::Enter));

    assert_eq!(app.reasoning_effort(), None);
    assert!(
        matches!(app.transcript.last(), Some(Cell::Notice(text)) if text.contains("does not take"))
    );
    assert_eq!(
        efforts(&app.take_effects()),
        vec![Some(ReasoningEffort::Ultra), None]
    );
}

fn view(id: &str, status: Option<&str>, input_tokens: u64) -> Subagent {
    Subagent {
        id: id.to_string(),
        task: format!("find {id}\nin the parser"),
        status: status.map(str::to_string),
        input_tokens,
    }
}

#[test]
fn a_collected_subagent_leaves_the_status_rows() {
    let mut app = App::new();

    app.apply(Update::Subagents(vec![view("agent_1", None, 0)]));
    assert_eq!(app.subagents().len(), 1);
    assert!(app.subagent_elapsed("agent_1").is_some());

    app.apply(Update::Subagents(Vec::new()));
    assert!(app.subagents().is_empty());
    assert!(
        app.subagent_elapsed("agent_1").is_none(),
        "the row's clock must go with the row"
    );
}

#[test]
fn a_subagents_clock_goes_on_from_when_it_was_first_seen() {
    let mut app = App::new();
    app.tick(1_000);
    app.apply(Update::Subagents(vec![view("agent_1", None, 0)]));
    app.tick(4_000);
    app.apply(Update::Subagents(vec![view("agent_2", None, 0), view("agent_1", None, 5)]));
    assert_eq!(app.subagent_elapsed("agent_1"), Some(3_000));
    assert_eq!(app.subagent_elapsed("agent_2"), Some(0));
}

#[test]
fn clicking_a_subagent_row_opens_the_task_it_was_given() {
    let mut app = App::new();
    app.apply(Update::Subagents(vec![
        view("agent_1", None, 120),
        view("agent_2", Some("completed"), 300),
    ]));
    app.set_subagent_rows(vec![(7, "agent_1".to_string()), (8, "agent_2".to_string())]);

    assert!(!app.open_subagent_at(9), "no row was drawn there");
    assert!(app.open_subagent().is_none());

    assert!(app.open_subagent_at(8));
    assert_eq!(app.open_subagent().expect("open"), "agent_2");

    assert!(app.open_subagent_at(8));
    assert!(app.open_subagent().is_none());
}

#[test]
fn escape_closes_the_subagent_popup_before_it_interrupts_the_turn() {
    let mut app = App::new();
    app.apply(Update::TurnStarted);
    app.apply(Update::Subagents(vec![view("agent_1", None, 120)]));
    app.set_subagent_rows(vec![(7, "agent_1".to_string())]);
    assert!(app.open_subagent_at(7));

    app.handle_key(key(Key::Esc));
    assert!(app.open_subagent().is_none());
    assert_eq!(cancels(&app.take_effects()), 0, "the turn must survive closing a popup");

    app.handle_key(key(Key::Esc));
    assert_eq!(cancels(&app.take_effects()), 1);
}

#[test]
fn a_finished_subagent_keeps_its_outcome_until_it_is_collected() {
    let mut app = App::new();
    app.apply(Update::Subagents(vec![view("agent_1", None, 120)]));
    app.apply(Update::Subagents(vec![view("agent_1", Some("failed"), 400)]));

    let row = &app.subagents()[0];
    assert_eq!(row.status.as_deref(), Some("failed"));
    assert_eq!(row.input_tokens, 400);
}

#[test]
fn a_new_session_takes_the_subagent_rows_with_it() {
    let mut app = App::new();
    app.apply(Update::Subagents(vec![view("agent_1", None, 120)]));
    app.apply(Update::SessionReset);
    assert!(app.subagents().is_empty());
}

fn token(from: usize, to: usize, query: &str) -> Option<AtContext> {
    Some(AtContext { from, to, query: query.to_string(), dir_mode: false })
}

#[test]
fn hidden_until_a_token_is_typed() {
    let mut state = FileSearchState::new();
    assert!(!state.is_visible());
    assert_eq!(state.update(token(7, 9, "sr")), Ask::Start("sr".to_string()));
    assert!(state.is_open());
}

#[test]
fn leaving_the_token_clears_results() {
    let mut state = FileSearchState::new();
    state.update(token(1, 4, "foo"));
    assert!(state.is_open());
    assert_eq!(state.update(None), Ask::Nothing);
    assert!(!state.is_open());
    assert!(!state.is_visible());
}

fn found(path: &str, is_dir: bool) -> Snapshot {
    Snapshot {
        matches: vec![FileMatch { path: path.to_string(), is_dir }],
        generation: 1,
        done: true,
        fresh: true,
    }
}

#[test]
fn accept_appends_slash_for_a_directory_and_space_for_a_file() {
    let mut state = FileSearchState::new();
    state.update(token(1, 3, "sr"));
    assert!(state.poll(found("src", true)));
    let replacement = state.accept().expect("replacement");
    assert_eq!((replacement.from, replacement.to), (1, 3));
    assert_eq!(replacement.text, "src/");

    assert!(state.poll(found("src.rs", false)));
    assert_eq!(state.accept().expect("replacement").text, "src.rs ");
}

#[test]
fn a_snapshot_of_an_earlier_query_is_dropped() {
    let mut state = FileSearchState::new();
    state.update(token(1, 3, "sr"));
    assert_eq!(
        state.update(token(1, 4, "src")),
        Ask::Refine { query: "src".to_string(), dir_mode: false }
    );
    assert!(!state.poll(found("stale", false)));
    assert!(!state.is_visible());
}

#[test]
fn an_accepted_file_takes_the_place_of_the_token() {
    let mut app = App::new();
    type_text(&mut app, "see @sr now");
    for _ in 0..4 {
        app.handle_key(key(Key::Left));
    }
    assert_eq!(app.at_cursor(), ("see @sr now".to_string(), 7));
    app.file_search.update(token(5, 7, "sr"));
    app.file_search.poll(found("src", true));
    app.handle_key(key(Key::Enter));
    assert_eq!(app.input.text(), "see @src/ now");
    assert_eq!(app.input.cursor(), (0, 9));
    assert!(!app.file_search.is_open());
}

#[test]
fn a_frame_shows_the_end_and_remembers_where_a_click_lands() {
    let mut app = App::new();
    for index in 0..30 {
        app.transcript.push(Cell::User(format!("prompt {index}")));
    }
    finished_reads(&mut app, 2);
    let area = Rect { x: 0, y: 3, width: 40, height: 6 };
    let lines = app.body(area);
    assert_eq!(lines.len(), 6);
    let shown: Vec<String> = lines
        .iter()
        .map(|line| line.spans.iter().map(|span| span.content.as_str()).collect())
        .collect();
    let at = shown
        .iter()
        .position(|line| line.contains("Read 2 files"))
        .expect("the run is at the end");
    assert!(app.toggle_at(3 + at as u16), "the header answers where it was drawn");
    app.handle_mouse(mouse(MouseKind::Press, 0, 3));
    app.handle_mouse(mouse(MouseKind::Drag, 39, 8));
    app.handle_mouse(mouse(MouseKind::Release, 39, 8));
    assert!(app.take_pending_copy().is_some_and(|text| text.contains("Read 2 files")));
}

fn app_with_providers() -> App {
    app_with_models().with_provider_routes(vec![
        ProviderChoice {
            route: "test-provider".to_string(),
            display_name: "Test Provider".to_string(),
        },
        ProviderChoice { route: "xai".to_string(), display_name: "xAI (API key)".to_string() },
    ])
}

#[test]
fn the_provider_command_opens_a_picker_over_the_registered_routes() {
    let mut app = app_with_providers();

    type_text(&mut app, "/provider");
    app.handle_key(key(Key::Enter));

    assert!(app.provider_picker().is_some());
    assert!(app.model_picker().is_none(), "the two lists are not one");
    let routes: Vec<&str> =
        app.picker_providers().iter().map(|route| route.route.as_str()).collect();
    assert_eq!(routes, vec!["test-provider", "xai"]);
    assert_eq!(app.picker_selected(), 0);
    assert!(app.transcript.is_empty());
}

#[test]
fn a_named_provider_switches_without_opening_anything() {
    let mut app = app_with_providers();

    type_text(&mut app, "/provider xai");
    app.handle_key(key(Key::Enter));

    assert!(!app.picker_open());
    assert_eq!(app.provider(), Some("xai"));
}

#[test]
fn switching_provider_unsets_the_model_the_old_one_served() {
    let mut app = app_with_providers();

    type_text(&mut app, "/provider xai");
    app.handle_key(key(Key::Enter));

    assert_eq!(app.model(), "");
    assert!(app.models().is_empty());
}

#[test]
fn a_provider_no_route_is_registered_for_is_refused() {
    let mut app = app_with_providers();

    type_text(&mut app, "/provider xaii");
    app.handle_key(key(Key::Enter));

    assert_eq!(app.provider(), Some("test-provider"), "a refusal must not move the provider");
    assert_eq!(app.model(), "gpt-5.6-sol", "nor unset the model");
    assert!(matches!(app.transcript.last(), Some(Cell::Error(text)) if text.contains("xaii")));
    assert!(app.take_effects().is_empty());
}

#[test]
fn the_chosen_provider_is_written_to_the_user_config() {
    let mut app = app_with_providers();

    type_text(&mut app, "/provider xai");
    app.handle_key(key(Key::Enter));

    // The model is not written back under a route that may not serve it.
    assert_eq!(
        app.take_effects(),
        vec![Effect::Persist(Override::Provider("xai".to_string()))]
    );
}

#[test]
fn the_highlighted_route_is_the_one_switched_to() {
    let mut app = app_with_providers();
    app.open_provider_picker();
    app.handle_key(key(Key::Down));
    app.handle_key(key(Key::Enter));
    assert!(!app.picker_open());
    assert_eq!(app.provider(), Some("xai"));

    app.open_provider_picker();
    assert_eq!(app.picker_selected(), 1, "it opens on the route in force");
    type_text(&mut app, "test");
    app.handle_key(key(Key::Enter));
    assert_eq!(app.provider(), Some("test-provider"));
}

#[test]
fn the_route_in_force_keeps_its_model() {
    let mut app = app_with_providers();
    type_text(&mut app, "/provider test-provider");
    app.handle_key(key(Key::Enter));
    assert_eq!(app.model(), "gpt-5.6-sol");
    assert!(app.take_effects().is_empty());
}

#[test]
fn without_routes_the_provider_command_says_so() {
    let mut app = app_with_models();
    type_text(&mut app, "/provider");
    app.handle_key(key(Key::Enter));
    assert!(!app.picker_open());
    assert!(
        matches!(app.transcript.last(), Some(Cell::Notice(text)) if text.contains("no provider is registered"))
    );
}

fn server(name: &str, remote: bool, signed_in: bool) -> McpServer {
    McpServer {
        name: name.to_string(),
        plugin: "local".to_string(),
        transport: if remote {
            "http https://mcp.test".to_string()
        } else {
            "node server.js".to_string()
        },
        remote,
        signed_in,
        allowed: true,
        activity: None,
    }
}

fn app_with_servers(servers: Vec<McpServer>) -> App {
    app_with_commands(Vec::new()).with_mcp(servers, false)
}

fn last_error(app: &App) -> &str {
    match app.transcript.last() {
        Some(Cell::Error(text)) => text,
        other => panic!("expected an error, got {other:?}"),
    }
}

fn last_notice(app: &App) -> &str {
    match app.transcript.last() {
        Some(Cell::Notice(text)) => text,
        other => panic!("expected a notice, got {other:?}"),
    }
}

fn progress(name: &str, message: &str) -> Notice {
    Notice::McpProgress { name: name.to_string(), message: message.to_string() }
}

#[test]
fn mcp_opens_an_overlay_over_what_is_configured() {
    let mut app =
        app_with_servers(vec![server("files", false, false), server("vercel", true, false)]);

    type_text(&mut app, "/mcp");
    app.handle_key(key(Key::Enter));

    assert!(app.mcp_picker().is_some());
    let names: Vec<&str> =
        app.picker_mcp().into_iter().map(|server| server.name.as_str()).collect();
    assert_eq!(names, ["files", "vercel"]);
    // The row a person came here for is the one that needs a token, not the first in the list.
    assert_eq!(app.picker_selected(), 1);
}

#[test]
fn mcp_with_nothing_configured_says_so_instead_of_opening() {
    let mut app = app_with_servers(Vec::new());

    type_text(&mut app, "/mcp");
    app.handle_key(key(Key::Enter));

    assert!(!app.picker_open());
    let text = last_notice(&app);
    assert!(text.contains("keke mcp add"), "{text}");
}

#[test]
fn enter_on_a_row_reports_on_the_row_and_keeps_the_overlay_open() {
    let mut app = app_with_servers(vec![server("vercel", true, false)]);

    type_text(&mut app, "/mcp");
    app.handle_key(key(Key::Enter));
    let before = app.transcript.len();
    app.handle_key(key(Key::Enter));

    assert!(app.mcp_picker().is_some(), "the overlay stays open");
    assert_eq!(app.transcript.len(), before, "nothing reaches the transcript");
    let activity = app.mcp_activity("vercel").expect("the row says what happened");
    assert!(activity.contains("keke mcp login vercel"), "{activity}");
}

#[test]
fn login_progress_lands_on_the_row_while_the_overlay_is_open() {
    let mut app = app_with_servers(vec![server("vercel", true, false)]);
    app.open_mcp_picker();
    let before = app.transcript.len();

    app.apply_notice(progress("vercel", "sign in at https://auth.example/authorize"));

    assert_eq!(app.transcript.len(), before);
    let activity = app.mcp_activity("vercel").expect("the row says what happened");
    assert!(activity.contains("https://auth.example/authorize"), "{activity}");
}

#[test]
fn login_progress_with_no_overlay_open_still_reaches_the_transcript() {
    let mut app = app_with_servers(vec![server("vercel", true, false)]);

    app.apply_notice(progress("vercel", "sign in at https://auth.example/authorize"));

    let text = last_notice(&app);
    assert!(text.contains("https://auth.example/authorize"), "{text}");
}

#[test]
fn progress_of_a_server_that_is_not_listed_reaches_the_transcript() {
    let mut app = app_with_servers(vec![server("vercel", true, false)]);
    app.open_mcp_picker();
    app.apply_notice(progress("other", "authorizing..."));
    assert_eq!(last_notice(&app), "`other`: authorizing...");
    assert_eq!(app.mcp_activity("vercel"), None);
}

#[test]
fn an_untrusted_server_reports_the_trust_problem_not_the_token_one() {
    let mut held = server("shipped", true, false);
    held.allowed = false;
    let mut app = app_with_servers(vec![held]);

    type_text(&mut app, "/mcp login shipped");
    app.handle_key(key(Key::Enter));

    let text = last_error(&app);
    assert!(text.contains("keke plugin trust local"), "{text}");
}

#[test]
fn a_finished_login_stops_the_list_asking_for_one() {
    let mut app = app_with_servers(vec![server("vercel", true, false)]);

    app.apply_notice(progress("vercel", "authorizing..."));
    app.apply_notice(Notice::SignedIn("vercel".to_string()));

    app.open_mcp_picker();
    assert_eq!(app.mcp_activity("vercel"), None, "a finished login stops being in flight");
    assert!(app.picker_mcp()[0].signed_in, "the stored token must show in the list");
}

#[test]
fn signing_in_without_a_credential_store_says_where_to_do_it() {
    let mut app = app_with_servers(vec![server("vercel", true, false)]);

    type_text(&mut app, "/mcp login vercel");
    app.handle_key(key(Key::Enter));

    let text = last_error(&app);
    assert!(text.contains("keke mcp login vercel"), "{text}");
}

#[test]
fn signing_in_to_a_local_server_is_refused_where_it_was_typed() {
    let mut app = app_with_servers(vec![server("files", false, false)]);

    type_text(&mut app, "/mcp login files");
    app.handle_key(key(Key::Enter));

    let text = last_error(&app);
    assert!(text.contains("nothing to sign in to"), "{text}");
}

#[test]
fn an_unknown_server_name_is_refused_rather_than_started() {
    let mut app = app_with_servers(vec![server("vercel", true, true)]);

    type_text(&mut app, "/mcp login nothing-like-that");
    app.handle_key(key(Key::Enter));

    let text = last_error(&app);
    assert!(text.contains("no MCP server named"), "{text}");
}

#[test]
fn a_login_that_can_end_is_handed_to_the_host() {
    let servers = vec![server("files", false, false), server("vercel", true, false)];
    let mut app = app_with_commands(Vec::new()).with_mcp(servers, true);

    type_text(&mut app, "/mcp login vercel");
    app.handle_key(key(Key::Enter));
    assert_eq!(app.take_effects(), vec![Effect::SignIn("vercel".to_string())]);
    assert_eq!(app.mcp_activity("vercel"), Some("authorizing..."));
    assert_eq!(app.mcp_activity("files"), None);
    assert!(app.transcript.is_empty());

    type_text(&mut app, "/mcp logout vercel");
    app.handle_key(key(Key::Enter));
    assert!(last_error(&app).contains("/mcp login <name>"));
    assert!(app.take_effects().is_empty());
}

fn status_bar(app: &App) -> String {
    app.status_bar().spans.iter().map(|span| span.content.as_str()).collect()
}

#[test]
fn the_status_bar_shows_plan_only_once_the_seam_says_so() {
    let mut app = App::new();
    assert!(!status_bar(&app).contains("plan"));

    app.request_session_mode(SessionMode::Plan);
    assert!(!status_bar(&app).contains("plan"), "asking for a mode is not being in it");

    app.apply(Update::ModeChanged(SessionMode::Plan));
    assert!(status_bar(&app).contains("plan"));
}

#[test]
fn a_mode_change_the_surface_did_not_ask_for_still_changes_the_bar() {
    let mut app = App::new();
    app.apply(Update::ModeChanged(SessionMode::Plan));
    assert!(status_bar(&app).contains("plan"));
    assert!(modes(&app.take_effects()).is_empty(), "the surface asked for nothing here");

    app.apply(Update::ModeChanged(SessionMode::Default));
    assert!(!status_bar(&app).contains("plan"));
}

#[test]
fn the_status_bar_names_the_route_and_the_model() {
    let app = app_with_providers().with_reasoning_effort(Some(ReasoningEffort::High));
    assert_eq!(status_bar(&app), " ready · on-request · test-provider · gpt-5.6-sol · high ");
}

#[test]
fn the_prompt_is_drawn_with_its_cursor_and_its_selection() {
    let mut app = App::new();
    app.input.set_text("one two");
    let inner = Rect { x: 1, y: 10, width: 4, height: 3 };
    let (lines, caret) = app.composer(inner);
    let rows: Vec<&str> = lines.iter().map(|line| line.spans[0].content.as_str()).collect();
    assert_eq!(rows, vec!["one ", "two"]);
    assert_eq!(caret, Some((4, 11)));

    app.handle_mouse(mouse(MouseKind::Press, 0, 10));
    app.handle_mouse(mouse(MouseKind::Drag, 1, 10));
    let (lines, _) = app.composer(inner);
    assert_eq!(lines[0].spans.len(), 2);
    assert!(lines[0].spans[0].style.reversed);
    assert_eq!(lines[0].spans[0].content, "on");
    assert!(!lines[0].spans[1].style.reversed);

    app.apply(permission("p1"));
    assert_eq!(app.composer(inner).1, None, "the keyboard is answering the prompt");
}

#[test]
fn a_plan_is_named_by_its_first_heading() {
    assert_eq!(plan_slug("Intro text\n# Real Title", "plan-1"), "real-title");
    assert_eq!(plan_slug("  ## Fix: the *parser*!\nmore", "plan-1"), "fix-the-parser");
    assert_eq!(plan_slug("\nOnly prose\nand more", "plan-1"), "only-prose");
    assert_eq!(plan_slug("#hashtag first\n#\n####### seven", "plan-1"), "hashtag-first");
    assert_eq!(plan_slug("##\n---", "plan-1"), "plan-1");
    assert_eq!(plan_slug("---\nBuild it", "plan-1"), "build-it");
    assert_eq!(plan_slug("# !!!\nwhy\n# Real", "plan-1"), "real");
    let home = AbsPath::new("/home/k").expect("absolute");
    assert_eq!(
        plan_file(&home, "why\n# Do it\n\n", "plan-1"),
        Some(("/home/k/plans/do-it.md".to_string(), "why\n# Do it\n".to_string()))
    );
    assert_eq!(plan_file(&home, " \n", "plan-1"), None);
}

#[test]
fn a_token_that_was_typed_past_gives_its_keys_back() {
    let mut app = App::new();
    type_text(&mut app, "look at @sr");
    let (line, cursor) = app.at_cursor();
    assert_eq!((line.as_str(), cursor), ("look at @sr", 11));
    let token = AtContext { from: 9, to: 11, query: "sr".to_string(), dir_mode: false };
    assert_eq!(app.sync_file_search(Some(token)), Ask::Start("sr".to_string()));
    let found = Snapshot {
        matches: vec![FileMatch { path: "src".to_string(), is_dir: true }],
        generation: 1,
        done: true,
        fresh: true,
    };
    assert!(app.tick_file_search(found));
    assert!(app.file_search.is_visible());

    type_text(&mut app, " ");
    assert_eq!(app.sync_file_search(None), Ask::Nothing);
    assert!(!app.file_search.is_open());
    app.handle_key(key(Key::Enter));
    assert_eq!(prompts(&app.take_effects()), vec!["look at @sr ".to_string()]);
}

#[test]
fn a_reset_session_starts_from_a_fresh_transcript() {
    let mut app = App::new();
    app.transcript = Transcript::with_cwd(&AbsPath::new("/w/a").expect("absolute"), None);
    app.apply(Update::SessionReset);
    assert_eq!(app.transcript, Transcript::default());
}

#[test]
fn discovery_order_does_not_decide_what_runs() {
    let plugin = |plugin: &str, name: &str| {
        SlashCommand::prompt(plugin, name, "does", &format!("/{plugin}/{name}.md"))
    };
    let all = || vec![plugin("a", "x"), plugin("b", "x"), plugin("b", "y"), plugin("a", "help")];
    let forward = SlashCommands::new(all());
    let backward = SlashCommands::new(all().into_iter().rev().collect());
    for name in ["x", "a:x", "b:x", "y", "help", "a:help", "quit", "none"] {
        let action = |commands: &SlashCommands| {
            commands.find(name).map(|command| format!("{:?}", command.action))
        };
        assert_eq!(action(&forward), action(&backward), "{name}");
    }
    assert!(forward.find("x").is_none());
}

#[test]
fn subagent_rows_answer_where_they_were_drawn() {
    let mut app = App::new();
    app.apply(Update::Subagents((0..8).map(|n| view(&format!("agent_{n}"), None, 0)).collect()));
    let lines = app.subagent_lines(Rect { x: 0, y: 20, width: 60, height: 6 });
    assert_eq!(lines.len(), 6);
    assert!(app.open_subagent_at(22));
    assert_eq!(app.open_subagent().as_deref(), Some("agent_2"));
    app.close_subagent();
    assert!(app.subagent_lines(Rect { x: 0, y: 20, width: 23, height: 6 }).is_empty());
    assert!(!app.open_subagent_at(22), "nothing was drawn to click on");
}

#[test]
fn a_detail_is_the_first_line_of_the_result() {
    let mut app = App::new();
    app.apply(Update::ToolCallStarted(call("c1", "read_file")));
    app.apply(Update::ToolCallEnded(ok("c1", "\n  42   lines\nfn main() {}\n")));
    let Some(Cell::Tool(tool)) = app.transcript.last() else {
        panic!("a call");
    };
    assert_eq!(tool.detail.as_deref(), Some("42 lines"));
}

#[test]
fn clearing_the_screen_opens_nothing_that_comes_later() {
    let mut app = app_with_commands(Vec::new());
    finished_reads(&mut app, 2);
    app.toggle_last_expandable();
    assert_eq!(app.expanded().len(), 1);
    app.input.set_text("/clear");
    app.submit();
    assert!(app.expanded().is_empty());
}

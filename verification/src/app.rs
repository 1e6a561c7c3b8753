//! The state a terminal draws, and the only place it changes.
//!
//! Nothing here touches a terminal, a clock or an agent, so every rule the interface has is
//! assertable without them. What the surface wants done elsewhere (a prompt sent, a setting
//! changed, a file read) is put in an outbox, which whoever runs the interface empties. The time
//! is told to it.

pub mod command;
pub mod frame;
pub mod keys;
pub mod plan;
pub mod routes;

use vstd::prelude::*;
use crate::draw::picker::{server_views, McpServer, ServerView};
use crate::draw::subagents::{Subagent, SubagentView};
use crate::file_search::{FileSearchState, FileSearchView};
use crate::history::{HistoryView, PromptHistory};
use crate::input::{InputBox, InputView};
use crate::picker::{route_views, Picker, PickerView, ProviderChoice, RouteView};
use crate::plan::{PlanReview, ReviewView};
use crate::protocol::{
    message_views, ApprovalPolicy, Message, PermissionAnswer, ReasoningEffort, StopReason,
    StopView, ToolCall, ToolCallView, ToolResult, ToolResultView, Usage,
};
use crate::provider::{model_views, ModelInfo, ModelView};
use crate::scroll::Scrollback;
use crate::selection::{Selection, SelectionView};
use crate::slash::{SlashCommandView, SlashCommands};
use crate::text;
use crate::text::{decimal_of, lines_of, opt, trimmed};
use crate::transcript::{
    cancelled, headlined, last_head, last_running, open_id, Cell, CellView, PermissionCellView,
    Transcript, TranscriptView,
};

verus! {

/// Where the conversation is, from the surface's point of view.
#[derive(Clone, Copy, Debug, PartialEq, Eq, Structural)]
pub enum Turn {
    Idle,
    Running,
    /// Stopped on an approval prompt. Distinct from `Running` because the person, not the
    /// agent, is the one holding the turn up.
    AwaitingPermission,
}

impl Default for Turn {
    fn default() -> (r: Turn)
        ensures
            r == Turn::Idle,
    {
        Turn::Idle
    }
}

impl Turn {
    /// Whether a turn is under way.
    pub fn is_busy(self) -> (r: bool)
        ensures
            r == (self != Turn::Idle),
    {
        !matches!(self, Turn::Idle)
    }
}

/// What the session does with a prompt.
#[derive(Clone, Copy, Debug, PartialEq, Eq, Structural)]
pub enum SessionMode {
    Default,
    /// Plan first.
    Plan,
}

/// What the agent tells the surface.
#[derive(Debug, PartialEq, Eq)]
pub enum Update {
    TurnStarted,
    TextDelta(String),
    ThinkingDelta(String),
    ToolCallStarted(ToolCall),
    ToolCallEnded(ToolResult),
    TokensUsed(Usage),
    PermissionRequested { id: String, call: ToolCall, reason: String },
    TurnEnded(StopReason),
    Failed(String),
    SessionReset,
    ModeChanged(SessionMode),
    Subagents(Vec<Subagent>),
}

/// What an [`Update`] says.
pub enum UpdateView {
    TurnStarted,
    TextDelta(Seq<char>),
    ThinkingDelta(Seq<char>),
    ToolCallStarted(ToolCallView),
    ToolCallEnded(ToolResultView),
    TokensUsed(Usage),
    PermissionRequested { id: Seq<char>, call: ToolCallView, reason: Seq<char> },
    TurnEnded(StopView),
    Failed(Seq<char>),
    SessionReset,
    ModeChanged(SessionMode),
    Subagents(Seq<SubagentView>),
}

/// What some subagents say.
pub open spec fn subagent_views(subagents: Seq<Subagent>) -> Seq<SubagentView> {
    subagents.map_values(|s: Subagent| s@)
}

impl View for Update {
    type V = UpdateView;

    open spec fn view(&self) -> UpdateView {
        match self {
            Update::TurnStarted => UpdateView::TurnStarted,
            Update::TextDelta(t) => UpdateView::TextDelta(t@),
            Update::ThinkingDelta(t) => UpdateView::ThinkingDelta(t@),
            Update::ToolCallStarted(call) => UpdateView::ToolCallStarted(call@),
            Update::ToolCallEnded(result) => UpdateView::ToolCallEnded(result@),
            Update::TokensUsed(usage) => UpdateView::TokensUsed(*usage),
            Update::PermissionRequested { id, call, reason } => UpdateView::PermissionRequested {
                id: id@,
                call: call@,
                reason: reason@,
            },
            Update::TurnEnded(reason) => UpdateView::TurnEnded(reason@),
            Update::Failed(message) => UpdateView::Failed(message@),
            Update::SessionReset => UpdateView::SessionReset,
            Update::ModeChanged(mode) => UpdateView::ModeChanged(*mode),
            Update::Subagents(subagents) => UpdateView::Subagents(subagent_views(subagents@)),
        }
    }
}

/// A setting to be written back to the configuration, so that the switch a person just made
/// outlives this process.
#[derive(Debug, PartialEq, Eq)]
pub enum Override {
    Model(String),
    Effort(Option<ReasoningEffort>),
    Policy(ApprovalPolicy),
    /// The route that serves the next session. The model is left to that route: one that the old
    /// route served may not be there.
    Provider(String),
}

/// What an [`Override`] says.
pub enum OverrideView {
    Model(Seq<char>),
    Effort(Option<ReasoningEffort>),
    Policy(ApprovalPolicy),
    Provider(Seq<char>),
}

impl View for Override {
    type V = OverrideView;

    open spec fn view(&self) -> OverrideView {
        match self {
            Override::Model(model) => OverrideView::Model(model@),
            Override::Effort(effort) => OverrideView::Effort(*effort),
            Override::Policy(policy) => OverrideView::Policy(*policy),
            Override::Provider(route) => OverrideView::Provider(route@),
        }
    }
}

/// What the surface wants done elsewhere.
#[derive(Debug, PartialEq, Eq)]
pub enum Effect {
    /// Send this prompt to the agent. A failure comes back as an update.
    Prompt(String),
    /// Retire the conversation the agent is holding and start a fresh one.
    NewSession,
    /// Stop the turn.
    Cancel,
    /// Answer an approval request, with what the person said.
    Answer { id: String, answer: PermissionAnswer, note: Option<String> },
    SetPolicy(ApprovalPolicy),
    SetEffort(Option<ReasoningEffort>),
    SetModel(String),
    SetMode(SessionMode),
    /// Write a setting back to the configuration.
    Persist(Override),
    /// Read a command's file, and hand what it holds to [`App::command_read`].
    ReadCommand { path: String, typed: String, arguments: String },
    /// Write the plan under review down, and hand where to [`App::plan_saved`].
    SavePlan(String),
    /// Sign in to a server. How it goes comes back as notices.
    SignIn(String),
}

/// What an [`Effect`] says.
pub enum EffectView {
    Prompt(Seq<char>),
    NewSession,
    Cancel,
    Answer { id: Seq<char>, answer: PermissionAnswer, note: Option<Seq<char>> },
    SetPolicy(ApprovalPolicy),
    SetEffort(Option<ReasoningEffort>),
    SetModel(Seq<char>),
    SetMode(SessionMode),
    Persist(OverrideView),
    ReadCommand { path: Seq<char>, typed: Seq<char>, arguments: Seq<char> },
    SavePlan(Seq<char>),
    SignIn(Seq<char>),
}

impl View for Effect {
    type V = EffectView;

    open spec fn view(&self) -> EffectView {
        match self {
            Effect::Prompt(prompt) => EffectView::Prompt(prompt@),
            Effect::NewSession => EffectView::NewSession,
            Effect::Cancel => EffectView::Cancel,
            Effect::Answer { id, answer, note } => EffectView::Answer {
                id: id@,
                answer: *answer,
                note: opt(*note),
            },
            Effect::SetPolicy(policy) => EffectView::SetPolicy(*policy),
            Effect::SetEffort(effort) => EffectView::SetEffort(*effort),
            Effect::SetModel(model) => EffectView::SetModel(model@),
            Effect::SetMode(mode) => EffectView::SetMode(*mode),
            Effect::Persist(change) => EffectView::Persist(change@),
            Effect::ReadCommand { path, typed, arguments } => EffectView::ReadCommand {
                path: path@,
                typed: typed@,
                arguments: arguments@,
            },
            Effect::SavePlan(plan) => EffectView::SavePlan(plan@),
            Effect::SignIn(server) => EffectView::SignIn(server@),
        }
    }
}

/// What some effects say.
pub open spec fn effect_views(effects: Seq<Effect>) -> Seq<EffectView> {
    effects.map_values(|e: Effect| e@)
}

/// The interface.
#[derive(Debug, PartialEq, Eq)]
pub struct App {
    pub transcript: Transcript,
    pub input: InputBox,
    pub scroll: Scrollback,
    pub commands: SlashCommands,
    pub file_search: FileSearchState,
    pub history: PromptHistory,
    pub selection: Selection,
    completion: usize,
    picker: Option<Picker>,
    approval: ApprovalPolicy,
    effort: Option<ReasoningEffort>,
    mode: SessionMode,
    model: String,
    models: Vec<ModelInfo>,
    provider: Option<String>,
    routes: Vec<ProviderChoice>,
    servers: Vec<McpServer>,
    can_sign_in: bool,
    turn: Turn,
    clock: u64,
    started: Option<u64>,
    last_turn: Option<u64>,
    usage: Usage,
    context_input: u64,
    thinking: bool,
    show_thinking: bool,
    mouse_capture: bool,
    follow_button: Option<(u16, u16, u16)>,
    expanded: Vec<usize>,
    toggles: Vec<(u16, usize)>,
    flash: Option<(String, u64)>,
    pending_copy: Option<String>,
    plan: Option<PlanReview>,
    last_plan: Option<PlanReview>,
    subagents: Vec<Subagent>,
    subagent_since: Vec<u64>,
    subagent_rows: Vec<(u16, String)>,
    open_subagent: Option<String>,
    should_quit: bool,
    effects: Vec<Effect>,
}

/// What an [`App`] knows.
pub struct AppView {
    pub transcript: TranscriptView,
    pub input: InputView,
    pub scroll: Scrollback,
    pub commands: Seq<SlashCommandView>,
    pub file_search: FileSearchView,
    pub history: HistoryView,
    pub selection: SelectionView,
    /// Which completion the arrow keys are on. Clamped rather than reset on every keystroke.
    pub completion: int,
    /// The overlay, while one is open.
    pub picker: Option<PickerView>,
    pub approval: ApprovalPolicy,
    /// How hard the model is asked to think. `None` is the vendor's own default, which is a state
    /// of its own and not the lowest rung.
    pub effort: Option<ReasoningEffort>,
    /// What the agent last said the session does with a prompt.
    pub mode: SessionMode,
    /// Which model is answering, and every model this session's provider serves. The list is
    /// empty when the provider could not be asked and had nothing to fall back on.
    pub model: Seq<char>,
    pub models: Seq<ModelView>,
    /// Which route serves, and every route a session could be pointed at.
    pub provider: Option<Seq<char>>,
    pub routes: Seq<RouteView>,
    /// The servers that are configured, and whether this surface has where to keep a token.
    pub servers: Seq<ServerView>,
    pub can_sign_in: bool,
    pub turn: Turn,
    /// The time, in milliseconds.
    pub clock: u64,
    /// When the running turn started, and how long the last one took.
    pub started: Option<u64>,
    pub last_turn: Option<u64>,
    /// Tokens this session has spent, and the input of the last step, which is the size of the
    /// context.
    pub usage: Usage,
    pub context_input: u64,
    /// Whether the last thing the agent did was to reason.
    pub thinking: bool,
    pub show_thinking: bool,
    /// Whether the terminal is asked for mouse events.
    pub mouse_capture: bool,
    /// Where the jump-to-bottom button was drawn: column, row and width.
    pub follow_button: Option<(u16, u16, u16)>,
    /// Which collapsed cells the reader has opened.
    pub expanded: Seq<usize>,
    /// Where this frame drew each expandable header: row and cell.
    pub toggles: Seq<(u16, usize)>,
    /// A word about something just done for the person at the keyboard, and when it was said. It
    /// goes in the status bar and expires: the transcript is the conversation.
    pub flash: Option<(Seq<char>, u64)>,
    /// Text waiting to go to the clipboard.
    pub pending_copy: Option<Seq<char>>,
    /// The plan under review, and the last one that was answered.
    pub plan: Option<ReviewView>,
    pub last_plan: Option<ReviewView>,
    /// The subagents the agent has under way, since when each has been known, where their rows
    /// were drawn, and which one is open.
    pub subagents: Seq<SubagentView>,
    pub subagent_since: Seq<u64>,
    pub subagent_rows: Seq<(u16, Seq<char>)>,
    pub open_subagent: Option<Seq<char>>,
    pub should_quit: bool,
    /// What is to be done elsewhere, in order.
    pub effects: Seq<EffectView>,
}

/// What the overlay knows, while one is open.
pub open spec fn picker_view(picker: Option<Picker>) -> Option<PickerView> {
    match picker {
        Some(picker) => Some(picker@),
        None => None,
    }
}

/// What a review knows, where there is one.
pub open spec fn review_view(review: Option<PlanReview>) -> Option<ReviewView> {
    match review {
        Some(review) => Some(review@),
        None => None,
    }
}

/// A word and when it was said.
pub open spec fn flash_view(flash: Option<(String, u64)>) -> Option<(Seq<char>, u64)> {
    match flash {
        Some((said, at)) => Some((said@, at)),
        None => None,
    }
}

/// Where the rows of some subagents were drawn.
pub open spec fn row_texts(rows: Seq<(u16, String)>) -> Seq<(u16, Seq<char>)> {
    rows.map_values(|r: (u16, String)| (r.0, r.1@))
}

impl View for App {
    type V = AppView;

    closed spec fn view(&self) -> AppView {
        AppView {
            transcript: self.transcript@,
            input: self.input@,
            scroll: self.scroll,
            commands: self.commands@,
            file_search: self.file_search@,
            history: self.history@,
            selection: self.selection@,
            completion: self.completion as int,
            picker: picker_view(self.picker),
            approval: self.approval,
            effort: self.effort,
            mode: self.mode,
            model: self.model@,
            models: model_views(self.models@),
            provider: opt(self.provider),
            routes: route_views(self.routes@),
            servers: server_views(self.servers@),
            can_sign_in: self.can_sign_in,
            turn: self.turn,
            clock: self.clock,
            started: self.started,
            last_turn: self.last_turn,
            usage: self.usage,
            context_input: self.context_input,
            thinking: self.thinking,
            show_thinking: self.show_thinking,
            mouse_capture: self.mouse_capture,
            follow_button: self.follow_button,
            expanded: self.expanded@,
            toggles: self.toggles@,
            flash: flash_view(self.flash),
            pending_copy: opt(self.pending_copy),
            plan: review_view(self.plan),
            last_plan: review_view(self.last_plan),
            subagents: subagent_views(self.subagents@),
            subagent_since: self.subagent_since@,
            subagent_rows: row_texts(self.subagent_rows@),
            open_subagent: opt(self.open_subagent),
            should_quit: self.should_quit,
            effects: effect_views(self.effects@),
        }
    }
}

/// How long a flash stays up, in milliseconds. Long enough to read, short enough that it is gone
/// before it can be mistaken for state.
pub const FLASH_MILLIS: u64 = 5000;

/// How long ago something was.
pub open spec fn since(clock: u64, at: u64) -> u64 {
    if at < clock {
        (clock - at) as u64
    } else {
        0
    }
}

/// The sum of two counts, or the largest there is.
pub open spec fn capped_sum(a: u64, b: u64) -> u64 {
    if a + b > u64::MAX {
        u64::MAX
    } else {
        (a + b) as u64
    }
}

/// What two steps spent together.
pub open spec fn spent(a: Usage, b: Usage) -> Usage {
    Usage {
        input_tokens: capped_sum(a.input_tokens, b.input_tokens),
        output_tokens: capped_sum(a.output_tokens, b.output_tokens),
        cached_input_tokens: capped_sum(a.cached_input_tokens, b.cached_input_tokens),
        reasoning_tokens: capped_sum(a.reasoning_tokens, b.reasoning_tokens),
    }
}

/// Some opened cells with one more opened, or closed where it was open.
pub open spec fn toggled(expanded: Seq<usize>, key: usize) -> Seq<usize> {
    if expanded.contains(key) {
        expanded.remove_value(key)
    } else {
        expanded.push(key)
    }
}

/// The cell whose header was drawn at a row.
pub open spec fn toggle_of(toggles: Seq<(u16, usize)>, row: u16, i: int) -> Option<usize>
    decreases toggles.len() - i,
{
    if i < 0 || i >= toggles.len() {
        None
    } else if toggles[i].0 == row {
        Some(toggles[i].1)
    } else {
        toggle_of(toggles, row, i + 1)
    }
}

/// The subagent whose row was drawn at a row.
pub open spec fn subagent_of(rows: Seq<(u16, Seq<char>)>, row: u16, i: int) -> Option<Seq<char>>
    decreases rows.len() - i,
{
    if i < 0 || i >= rows.len() {
        None
    } else if rows[i].0 == row {
        Some(rows[i].1)
    } else {
        subagent_of(rows, row, i + 1)
    }
}

/// The last reply of the agent.
pub open spec fn last_reply(cells: Seq<CellView>) -> Option<Seq<char>>
    decreases cells.len(),
{
    if cells.len() == 0 {
        None
    } else {
        match cells.last() {
            CellView::Assistant(said) => Some(said),
            _ => last_reply(cells.drop_last()),
        }
    }
}

impl AppView {
    /// Whether each part is well formed.
    pub open spec fn valid(self) -> bool {
        &&& self.input.valid()
        &&& self.history.valid()
        &&& self.plan is Some ==> self.plan->0.valid()
        &&& self.last_plan is Some ==> self.last_plan->0.valid()
        &&& self.expanded.no_duplicates()
        &&& self.subagent_since.len() == self.subagents.len()
    }

    /// With something said in the conversation.
    pub open spec fn said(self, cell: CellView) -> AppView {
        AppView { transcript: self.transcript.pushed(cell), ..self }
    }

    /// With something to be done elsewhere.
    pub open spec fn asked(self, effect: EffectView) -> AppView {
        AppView { effects: self.effects.push(effect), ..self }
    }

    /// With a word in the status bar.
    pub open spec fn flashed(self, said: Seq<char>) -> AppView {
        AppView { flash: Some((said, self.clock)), ..self }
    }

    /// With the turn running. Its clock is not restarted: the number a person reads is how long
    /// they have waited rather than how long since the last token.
    pub open spec fn begun(self) -> AppView {
        AppView {
            turn: Turn::Running,
            started: match self.started {
                Some(at) => Some(at),
                None => Some(self.clock),
            },
            ..self
        }
    }

    /// With the turn over.
    pub open spec fn ended(self) -> AppView {
        AppView {
            turn: Turn::Idle,
            thinking: false,
            started: None,
            last_turn: match self.started {
                Some(at) => Some(since(self.clock, at)),
                None => self.last_turn,
            },
            ..self
        }
    }

    /// Following the conversation.
    pub open spec fn following(self) -> AppView {
        AppView { scroll: Scrollback { pinned: None, ..self.scroll }, ..self }
    }

    /// Nothing on screen, and so nothing opened: an index stays the cell it was.
    pub open spec fn wiped(self) -> AppView {
        AppView {
            transcript: TranscriptView {
                cells: Seq::empty(),
                sealed: false,
                ..self.transcript
            },
            expanded: Seq::empty(),
            ..self
        }.following()
    }

    /// With a prompt on its way to the agent.
    pub open spec fn sent(self, prompt: Seq<char>) -> AppView {
        self.following().begun().asked(EffectView::Prompt(prompt))
    }

    /// With text on its way to the clipboard.
    pub open spec fn copied(self, copy: Seq<char>) -> AppView {
        AppView { pending_copy: Some(copy), ..self }.flashed(
            "copied "@ + decimal_of(lines_of(copy).len()) + " lines"@,
        )
    }

    /// With an open prompt answered. Denial ends nothing by itself: the agent decides what to do
    /// next.
    pub open spec fn answered(
        self,
        answer: PermissionAnswer,
        note: Option<Seq<char>>,
    ) -> AppView {
        match open_id(self.transcript.cells) {
            None => self,
            Some(id) => AppView {
                transcript: self.transcript.with_answer(id, answer),
                turn: Turn::Running,
                ..self
            }.asked(EffectView::Answer { id, answer, note }),
        }
    }

    /// With the turn stopped, or, where there is nothing to stop, the interface left. Quitting
    /// mid-turn would orphan whatever the agent is doing.
    pub open spec fn interrupted(self) -> AppView {
        if self.turn != Turn::Idle {
            AppView {
                transcript: TranscriptView {
                    cells: self.transcript.cells.map_values(|c: CellView| cancelled(c)),
                    ..self.transcript
                },
                ..self
            }.asked(EffectView::Cancel).said(CellView::Notice("cancelled"@)).ended()
        } else {
            AppView { should_quit: true, ..self }
        }
    }

    /// With one update of the agent.
    pub open spec fn updated(self, update: UpdateView) -> AppView {
        match update {
            UpdateView::TurnStarted => {
                let now = self.begun();
                AppView {
                    transcript: TranscriptView { sealed: true, ..now.transcript },
                    thinking: false,
                    ..now
                }
            },
            UpdateView::TextDelta(delta) => {
                let now = self.begun();
                AppView { transcript: now.transcript.with_delta(delta), thinking: false, ..now }
            },
            UpdateView::ThinkingDelta(_) => AppView { thinking: true, ..self.begun() },
            UpdateView::ToolCallStarted(call) => {
                let now = self.begun();
                AppView { transcript: now.transcript.with_call(call), thinking: false, ..now }
            },
            UpdateView::ToolCallEnded(result) => if last_running(
                self.transcript.cells,
                result.id,
            ) is Some {
                AppView { transcript: self.transcript.with_result(result), ..self }
            } else {
                self.said(CellView::Error("result for unknown call "@ + result.id))
            },
            UpdateView::TokensUsed(usage) => AppView {
                usage: spent(self.usage, usage),
                context_input: usage.input_tokens,
                ..self
            },
            UpdateView::PermissionRequested { id, call, reason } => {
                let now = AppView { turn: Turn::AwaitingPermission, ..self }.said(
                    CellView::Permission(
                        PermissionCellView {
                            id,
                            name: call.name,
                            summary: headlined(call.arguments, self.transcript.cwd_prefix),
                            reason,
                            answer: None,
                        },
                    ),
                );
                if call.name == crate::plan::EXIT_PLAN_MODE@ {
                    now.planned(crate::plan::plan_in(call.arguments))
                } else {
                    now
                }
            },
            UpdateView::TurnEnded(reason) => {
                let now = self.ended();
                let sealed = AppView {
                    transcript: TranscriptView { sealed: true, ..now.transcript },
                    ..now
                };
                match reason {
                    StopView::Refusal { message } => sealed.said(
                        CellView::Error("refused: "@ + message),
                    ),
                    _ => sealed,
                }
            },
            UpdateView::Failed(message) => self.ended().said(CellView::Error(message)),
            UpdateView::SessionReset => AppView {
                usage: Usage {
                    input_tokens: 0,
                    output_tokens: 0,
                    cached_input_tokens: 0,
                    reasoning_tokens: 0,
                },
                context_input: 0,
                subagents: Seq::empty(),
                subagent_since: Seq::empty(),
                open_subagent: None,
                transcript: TranscriptView {
                    cells: Seq::empty(),
                    sealed: false,
                    cwd_prefix: Seq::empty(),
                },
                expanded: Seq::empty(),
                ..self.following()
            },
            UpdateView::ModeChanged(mode) => AppView { mode, ..self },
            UpdateView::Subagents(subagents) => AppView {
                subagents,
                subagent_since: subagents.map_values(
                    |s: SubagentView| match subagent_at(self.subagents, s.id, 0) {
                        Some(i) => self.subagent_since[i],
                        None => self.clock,
                    },
                ),
                open_subagent: match self.open_subagent {
                    Some(id) => if is_among(subagents, id) {
                        Some(id)
                    } else {
                        None
                    },
                    None => None,
                },
                ..self
            },
        }
    }

    /// With a plan opened for review, and on its way to be written down.
    pub open spec fn planned(self, plan: Seq<char>) -> AppView {
        AppView { plan: Some(ReviewView::opened(plan)), ..self }.asked(EffectView::SavePlan(plan))
    }
}

/// Where a subagent stands among some, searched from `i` on.
pub open spec fn subagent_at(subagents: Seq<SubagentView>, id: Seq<char>, i: int) -> Option<int>
    decreases subagents.len() - i,
{
    if i < 0 || i >= subagents.len() {
        None
    } else if subagents[i].id == id {
        Some(i)
    } else {
        subagent_at(subagents, id, i + 1)
    }
}

/// Whether a subagent is among some.
pub open spec fn is_among(subagents: Seq<SubagentView>, id: Seq<char>) -> bool {
    subagent_at(subagents, id, 0) is Some
}

impl App {
    /// An interface at the start of a conversation.
    pub fn new() -> (r: App)
        ensures
            r@.valid(),
            r@ == (AppView {
                transcript: TranscriptView {
                    cells: Seq::empty(),
                    sealed: false,
                    cwd_prefix: Seq::empty(),
                },
                input: InputView::blank(),
                scroll: Scrollback { total: 0, height: 0, pinned: None },
                commands: Seq::empty(),
                file_search: FileSearchView::start(),
                history: HistoryView { prompts: Seq::empty(), at: None, draft: Seq::empty() },
                selection: SelectionView {
                    press: None,
                    dragged: false,
                    range: None,
                    rows: Map::empty(),
                },
                completion: 0,
                picker: None,
                approval: ApprovalPolicy::OnRequest,
                effort: None,
                mode: SessionMode::Default,
                model: Seq::empty(),
                models: Seq::empty(),
                provider: None,
                routes: Seq::empty(),
                servers: Seq::empty(),
                can_sign_in: false,
                turn: Turn::Idle,
                clock: 0,
                started: None,
                last_turn: None,
                usage: Usage {
                    input_tokens: 0,
                    output_tokens: 0,
                    cached_input_tokens: 0,
                    reasoning_tokens: 0,
                },
                context_input: 0,
                thinking: false,
                show_thinking: true,
                mouse_capture: true,
                follow_button: None,
                expanded: Seq::empty(),
                toggles: Seq::empty(),
                flash: None,
                pending_copy: None,
                plan: None,
                last_plan: None,
                subagents: Seq::empty(),
                subagent_since: Seq::empty(),
                subagent_rows: Seq::empty(),
                open_subagent: None,
                should_quit: false,
                effects: Seq::empty(),
            }),
    {
        let r = App {
            transcript: Transcript::default(),
            input: InputBox::default(),
            scroll: Scrollback::default(),
            commands: SlashCommands::default(),
            file_search: FileSearchState::new(),
            history: PromptHistory::default(),
            selection: Selection::default(),
            completion: 0,
            picker: None,
            approval: ApprovalPolicy::OnRequest,
            effort: None,
            mode: SessionMode::Default,
            model: String::new(),
            models: Vec::new(),
            provider: None,
            routes: Vec::new(),
            servers: Vec::new(),
            can_sign_in: false,
            turn: Turn::Idle,
            clock: 0,
            started: None,
            last_turn: None,
            usage: Usage::default(),
            context_input: 0,
            thinking: false,
            show_thinking: true,
            mouse_capture: true,
            follow_button: None,
            expanded: Vec::new(),
            toggles: Vec::new(),
            flash: None,
            pending_copy: None,
            plan: None,
            last_plan: None,
            subagents: Vec::new(),
            subagent_since: Vec::new(),
            subagent_rows: Vec::new(),
            open_subagent: None,
            should_quit: false,
            effects: Vec::new(),
        };
        proof {
            assert(r@.model =~= Seq::empty());
            assert(r@.models =~= Seq::empty());
            assert(r@.routes =~= Seq::empty());
            assert(r@.servers =~= Seq::empty());
            assert(r@.expanded =~= Seq::empty());
            assert(r@.toggles =~= Seq::empty());
            assert(r@.subagents =~= Seq::empty());
            assert(r@.subagent_since =~= Seq::empty());
            assert(r@.subagent_rows =~= Seq::empty());
            assert(r@.effects =~= Seq::empty());
        }
        r
    }

    /// The command list a person completes against.
    pub fn with_commands(self, commands: SlashCommands) -> (r: App)
        ensures
            r@ == (AppView { commands: commands@, ..self@ }),
    {
        let mut app = self;
        app.commands = commands;
        app
    }

    /// The prompts that were typed before.
    pub fn with_prompt_history(self, history: PromptHistory) -> (r: App)
        ensures
            r@ == (AppView { history: history@, ..self@ }),
    {
        let mut app = self;
        app.history = history;
        app
    }

    /// The policy the session was started under.
    pub fn with_approval_policy(self, policy: ApprovalPolicy) -> (r: App)
        ensures
            r@ == (AppView { approval: policy, ..self@ }),
    {
        let mut app = self;
        app.approval = policy;
        app
    }

    /// The level the session was configured with.
    pub fn with_reasoning_effort(self, effort: Option<ReasoningEffort>) -> (r: App)
        ensures
            r@ == (AppView { effort, ..self@ }),
    {
        let mut app = self;
        app.effort = effort;
        app
    }

    /// Which model the session was configured with, and what its provider serves. A surface
    /// handed an empty list offers no choice rather than a wrong one.
    pub fn with_models(self, model: String, models: Vec<ModelInfo>) -> (r: App)
        ensures
            r@ == (AppView { model: model@, models: model_views(models@), ..self@ }),
    {
        let mut app = self;
        app.model = model;
        app.models = models;
        app
    }

    /// Seeds the surface from a resumed session: what was said, and what it has already spent.
    pub fn with_history(self, history: &Vec<Message>, usage: Usage, context_input: u64) -> (r: App)
        ensures
            r@ == (AppView {
                transcript: TranscriptView {
                    sealed: true,
                    ..self@.transcript.with_history(message_views(history@))
                },
                usage,
                context_input,
                ..self@
            }),
    {
        let mut app = self;
        app.transcript.replay(history);
        app.usage = usage;
        app.context_input = context_input;
        app
    }

    /// Tells the surface what time it is.
    pub fn tick(&mut self, clock: u64)
        ensures
            final(self)@ == (AppView { clock, ..old(self)@ }),
    {
        self.clock = clock;
    }

    /// Takes what is to be done elsewhere.
    pub fn take_effects(&mut self) -> (r: Vec<Effect>)
        ensures
            effect_views(r@) == old(self)@.effects,
            final(self)@ == (AppView { effects: Seq::empty(), ..old(self)@ }),
    {
        let mut taken: Vec<Effect> = Vec::new();
        taken.append(&mut self.effects);
        assert(taken@ =~= old(self).effects@);
        assert(self@.effects =~= Seq::empty());
        taken
    }

    pub fn approval_policy(&self) -> (r: ApprovalPolicy)
        ensures
            r == self@.approval,
    {
        self.approval
    }

    pub fn session_mode(&self) -> (r: SessionMode)
        ensures
            r == self@.mode,
    {
        self.mode
    }

    pub fn turn(&self) -> (r: Turn)
        ensures
            r == self@.turn,
    {
        self.turn
    }

    /// What this session has spent so far.
    pub fn usage(&self) -> (r: Usage)
        ensures
            r == self@.usage,
    {
        self.usage
    }

    /// How large the context of the last step was.
    pub fn context_input(&self) -> (r: u64)
        ensures
            r == self@.context_input,
    {
        self.context_input
    }

    /// How long the current turn has been running, or how long the last one took, in
    /// milliseconds.
    pub fn elapsed(&self) -> (r: Option<u64>)
        ensures
            r == match self@.started {
                Some(at) => Some(since(self@.clock, at)),
                None => self@.last_turn,
            },
    {
        match self.started {
            Some(at) => Some(age(self.clock, at)),
            None => self.last_turn,
        }
    }

    /// Whether anything on screen changes on its own. A flash counts only while it is live: an
    /// expired one must not keep an idle interface redrawing forever.
    pub fn is_timing(&self) -> (r: bool)
        ensures
            r == (self@.started is Some || live_flash(self@) is Some || self@.file_search.context
                is Some),
    {
        self.started.is_some() || self.flash().is_some() || self.file_search.is_open()
    }

    /// The current flash, if it has not expired.
    pub fn flash(&self) -> (r: Option<&str>)
        ensures
            match live_flash(self@) {
                Some(said) => r is Some && r->0@ == said,
                None => r is None,
            },
    {
        match &self.flash {
            Some((said, at)) => if age(self.clock, *at) < FLASH_MILLIS {
                Some(said.as_str())
            } else {
                None
            },
            None => None,
        }
    }

    /// Whether the last thing the agent did was to reason.
    pub fn is_thinking(&self) -> (r: bool)
        ensures
            r == self@.thinking,
    {
        self.thinking
    }

    pub fn show_thinking(&self) -> (r: bool)
        ensures
            r == self@.show_thinking,
    {
        self.show_thinking
    }

    pub fn should_quit(&self) -> (r: bool)
        ensures
            r == self@.should_quit,
    {
        self.should_quit
    }

    pub fn toggle_thinking(&mut self)
        ensures
            final(self)@ == (AppView { show_thinking: !old(self)@.show_thinking, ..old(self)@ }),
    {
        self.show_thinking = !self.show_thinking;
    }

    pub fn mouse_capture(&self) -> (r: bool)
        ensures
            r == self@.mouse_capture,
    {
        self.mouse_capture
    }

    /// Puts a word in the status bar.
    pub(crate) fn set_flash(&mut self, said: &str)
        ensures
            final(self)@ == old(self)@.flashed(said@),
    {
        self.flash = Some((text::copy(said), self.clock));
    }

    /// Wants something done elsewhere.
    pub(crate) fn ask(&mut self, effect: Effect)
        ensures
            final(self)@ == old(self)@.asked(effect@),
    {
        self.effects.push(effect);
        assert(self@.effects =~= old(self)@.effects.push(effect@));
    }

    /// Says something in the conversation.
    pub(crate) fn say(&mut self, cell: Cell)
        ensures
            final(self)@ == old(self)@.said(cell@),
    {
        self.transcript.push(cell);
    }

    /// Gives the mouse back to the terminal, or takes it again. The escape hatch is for the
    /// terminal whose own selection does something this one cannot.
    pub fn toggle_mouse_capture(&mut self)
        ensures
            final(self)@ == (AppView {
                mouse_capture: !old(self)@.mouse_capture,
                ..old(self)@
            }).flashed(
                if old(self)@.mouse_capture {
                    "mouse released to the terminal — keke stops answering it"@
                } else {
                    "mouse captured — drag selects, click expands a tool call"@
                },
            ),
    {
        self.mouse_capture = !self.mouse_capture;
        if self.mouse_capture {
            self.set_flash("mouse captured — drag selects, click expands a tool call");
        } else {
            self.set_flash("mouse released to the terminal — keke stops answering it");
        }
    }

    /// Told by a frame where the jump-to-bottom button ended up, or that it was not drawn at all.
    pub fn set_follow_button(&mut self, area: Option<(u16, u16, u16)>)
        ensures
            final(self)@ == (AppView { follow_button: area, ..old(self)@ }),
    {
        self.follow_button = area;
    }

    /// The cells the reader has opened.
    pub fn expanded(&self) -> (r: &Vec<usize>)
        ensures
            r@ == self@.expanded,
    {
        &self.expanded
    }

    /// Told by a frame which rows its expandable headers landed on.
    pub fn set_toggles(&mut self, toggles: Vec<(u16, usize)>)
        ensures
            final(self)@ == (AppView { toggles: toggles@, ..old(self)@ }),
    {
        self.toggles = toggles;
    }

    /// Opens or closes the header drawn at `row`, if a click landed on one. The whole row answers,
    /// not just the marker: a one-cell target is a thing people miss.
    pub fn toggle_at(&mut self, row: u16) -> (r: bool)
        requires
            old(self)@.valid(),
        ensures
            r == toggle_of(old(self)@.toggles, row, 0) is Some,
            final(self)@ == match toggle_of(old(self)@.toggles, row, 0) {
                Some(key) => AppView {
                    expanded: toggled(old(self)@.expanded, key),
                    ..old(self)@
                },
                None => old(self)@,
            },
            final(self)@.valid(),
    {
        let mut i: usize = 0;
        while i < self.toggles.len()
            invariant
                i <= self.toggles.len(),
                *self == *old(self),
                old(self)@.valid(),
                toggle_of(self.toggles@, row, 0) == toggle_of(self.toggles@, row, i as int),
            decreases self.toggles.len() - i,
        {
            if self.toggles[i].0 == row {
                let key = self.toggles[i].1;
                self.toggle_expanded(key);
                return true;
            }
            i += 1;
        }
        false
    }

    /// Opens or closes the last thing that can be opened: the keyboard's answer to the click.
    pub fn toggle_last_expandable(&mut self)
        requires
            old(self)@.valid(),
        ensures
            final(self)@ == ({
                let cells = old(self)@.transcript.cells;
                match last_head(cells, cells.len() as int) {
                    Some(key) => AppView {
                        expanded: toggled(old(self)@.expanded, key as usize),
                        ..old(self)@
                    },
                    None => old(self)@.flashed("nothing to expand"@),
                }
            }),
            final(self)@.valid(),
    {
        match self.transcript.last_expandable() {
            Some(key) => {
                self.toggle_expanded(key);
            },
            None => {
                self.set_flash("nothing to expand");
            },
        }
    }

    fn toggle_expanded(&mut self, key: usize)
        requires
            old(self)@.valid(),
        ensures
            final(self)@ == (AppView {
                expanded: toggled(old(self)@.expanded, key),
                ..old(self)@
            }),
            final(self)@.valid(),
    {
        let ghost all = self.expanded@;
        let mut i: usize = 0;
        while i < self.expanded.len()
            invariant
                i <= self.expanded.len(),
                *self == *old(self),
                all == self.expanded@,
                all.no_duplicates(),
                old(self)@.valid(),
                forall|k: int| 0 <= k < i ==> all[k] != key,
            decreases self.expanded.len() - i,
        {
            if self.expanded[i] == key {
                self.expanded.remove(i);
                proof {
                    assert(all.contains(key));
                    assert(all.index_of_first(key) == Some(i as int)) by {
                        all.index_of_first_ensures(key);
                        let k = all.index_of_first(key)->0;
                        assert(all[k] == key && k == i);
                    }
                    assert(self.expanded@ =~= all.remove_value(key));
                    assert(self.expanded@.no_duplicates());
                }
                return ;
            }
            i += 1;
        }
        assert(!all.contains(key));
        self.expanded.push(key);
        assert(self.expanded@.no_duplicates());
    }

    /// Whether a click at these coordinates hit the jump-to-bottom button.
    pub fn hit_follow_button(&self, column: u16, row: u16) -> (r: bool)
        ensures
            r == hits(self@.follow_button, column, row),
    {
        match self.follow_button {
            Some((x, y, width)) => row == y && column >= x && column - x < width,
            None => false,
        }
    }

    /// Puts the last reply on the clipboard. The transcript has no cursor, so there is nothing
    /// else copying could mean.
    pub fn copy_last_reply(&mut self)
        ensures
            final(self)@ == match last_reply(old(self)@.transcript.cells) {
                Some(reply) => if trimmed(reply).len() > 0 {
                    old(self)@.copied(reply)
                } else {
                    old(self)@.flashed("nothing to copy yet"@)
                },
                None => old(self)@.flashed("nothing to copy yet"@),
            },
    {
        let reply = self.reply();
        match reply {
            Some(reply) => {
                if text::trim(reply.as_str()).as_str().unicode_len() > 0 {
                    self.copy(reply);
                } else {
                    self.set_flash("nothing to copy yet");
                }
            },
            None => {
                self.set_flash("nothing to copy yet");
            },
        }
    }

    fn reply(&self) -> (r: Option<String>)
        ensures
            opt(r) == last_reply(self@.transcript.cells),
    {
        let cells = self.transcript.cells();
        let ghost views = self@.transcript.cells;
        let mut n: usize = cells.len();
        assert(views.take(n as int) =~= views);
        while n > 0
            invariant
                n <= cells.len(),
                views == crate::transcript::cell_views(cells@),
                last_reply(views) == last_reply(views.take(n as int)),
                views == self@.transcript.cells,
            decreases n,
        {
            assert(views.take(n as int).last() == cells@[n - 1]@);
            assert(views.take(n as int).drop_last() =~= views.take(n - 1));
            if let Cell::Assistant(said) = &cells[n - 1] {
                return Some(said.clone());
            }
            n -= 1;
        }
        None
    }

    /// Puts `copy` on the clipboard and says so.
    pub(crate) fn copy(&mut self, copy: String)
        ensures
            final(self)@ == old(self)@.copied(copy@),
    {
        let lines = text::lines(copy.as_str());
        assert(text::texts(lines@).len() == lines.len());
        let number = text::decimal(lines.len() as u64);
        let said = text::concat3("copied ", number.as_str(), " lines");
        self.pending_copy = Some(copy);
        self.set_flash(said.as_str());
    }

    /// Puts a dragged selection on the clipboard.
    pub fn copy_selection(&mut self, copy: String)
        ensures
            final(self)@ == old(self)@.selection_copied(copy@),
    {
        let lines = text::lines(copy.as_str());
        assert(text::texts(lines@).len() == lines.len());
        self.pending_copy = Some(copy);
        if lines.len() == 1 {
            self.set_flash("copied the selection");
        } else {
            let number = text::decimal(lines.len() as u64);
            let said = text::concat3("copied ", number.as_str(), " lines");
            self.set_flash(said.as_str());
        }
    }

    /// Taken by whoever owns the terminal that the text has to reach.
    pub fn take_pending_copy(&mut self) -> (r: Option<String>)
        ensures
            opt(r) == old(self)@.pending_copy,
            final(self)@ == (AppView { pending_copy: None, ..old(self)@ }),
    {
        self.pending_copy.take()
    }

    pub fn quit(&mut self)
        ensures
            final(self)@ == (AppView { should_quit: true, ..old(self)@ }),
    {
        self.should_quit = true;
    }

    /// Folds one update into the state.
    pub fn apply(&mut self, update: Update)
        requires
            old(self)@.valid(),
        ensures
            final(self)@ == old(self)@.updated(update@),
            final(self)@.valid(),
    {
        match update {
            Update::TurnStarted => {
                self.begin_turn();
                self.thinking = false;
                self.transcript.seal();
            },
            Update::TextDelta(delta) => {
                self.begin_turn();
                self.thinking = false;
                self.transcript.push_text_delta(delta.as_str());
            },
            Update::ThinkingDelta(_) => {
                self.begin_turn();
                self.thinking = true;
            },
            Update::ToolCallStarted(call) => {
                self.begin_turn();
                self.thinking = false;
                self.transcript.start_tool(&call);
            },
            Update::ToolCallEnded(result) => {
                self.call_ended(&result);
            },
            Update::TokensUsed(usage) => {
                self.usage = add_usage(self.usage, usage);
                self.context_input = usage.input_tokens;
            },
            Update::PermissionRequested { id, call, reason } => {
                self.permission_requested(id.as_str(), &call, reason.as_str());
            },
            Update::TurnEnded(reason) => {
                self.turn_ended(reason);
            },
            Update::Failed(message) => {
                // Deliberately does not quit: the conversation survives a failed turn.
                self.end_turn();
                self.say(Cell::Error(message));
            },
            Update::SessionReset => {
                self.reset();
            },
            Update::ModeChanged(mode) => {
                self.mode = mode;
            },
            Update::Subagents(subagents) => {
                self.subagents_changed(subagents);
            },
        }
    }

    fn call_ended(&mut self, result: &ToolResult)
        ensures
            final(self)@ == old(self)@.updated(UpdateView::ToolCallEnded(result@)),
    {
        if !self.transcript.finish_tool(result) {
            // A result with no call on screen still has to be visible.
            let said = text::concat("result for unknown call ", result.id.as_str());
            self.say(Cell::Error(said));
        }
    }

    fn permission_requested(&mut self, id: &str, call: &ToolCall, reason: &str)
        requires
            old(self)@.valid(),
        ensures
            final(self)@ == old(self)@.updated(
                UpdateView::PermissionRequested { id: id@, call: call@, reason: reason@ },
            ),
            final(self)@.valid(),
    {
        self.turn = Turn::AwaitingPermission;
        self.transcript.request_permission(id, call, reason);
        if text::eq(call.name.as_str(), crate::plan::EXIT_PLAN_MODE) {
            self.open_plan_review(call);
        }
    }

    fn turn_ended(&mut self, reason: StopReason)
        ensures
            final(self)@ == old(self)@.updated(UpdateView::TurnEnded(reason@)),
    {
        self.end_turn();
        self.transcript.seal();
        if let StopReason::Refusal { message } = reason {
            let said = text::concat("refused: ", message.as_str());
            self.say(Cell::Error(said));
        }
    }

    fn reset(&mut self)
        ensures
            final(self)@ == old(self)@.updated(UpdateView::SessionReset),
    {
        self.transcript = Transcript::default();
        self.expanded = Vec::new();
        assert(self@.expanded =~= Seq::empty());
        self.scroll.follow();
        self.usage = Usage::default();
        self.context_input = 0;
        self.subagents = Vec::new();
        self.subagent_since = Vec::new();
        self.open_subagent = None;
        assert(self@.subagents =~= Seq::empty());
        assert(self@.subagent_since =~= Seq::empty());
    }

    fn subagents_changed(&mut self, subagents: Vec<Subagent>)
        requires
            old(self)@.valid(),
        ensures
            final(self)@ == old(self)@.updated(
                UpdateView::Subagents(subagent_views(subagents@)),
            ),
    {
        let kept = match &self.open_subagent {
            Some(id) => find_subagent(&subagents, id.as_str()).is_some(),
            None => true,
        };
        let ghost views = subagent_views(subagents@);
        let ghost all = old(self)@.updated(UpdateView::Subagents(views)).subagent_since;
        let mut since: Vec<u64> = Vec::new();
        let mut i: usize = 0;
        assert(since@ =~= all.take(0));
        while i < subagents.len()
            invariant
                i <= subagents.len(),
                *self == *old(self),
                old(self)@.valid(),
                views == subagent_views(subagents@),
                all == old(self)@.updated(UpdateView::Subagents(views)).subagent_since,
                since@ == all.take(i as int),
            decreases subagents.len() - i,
        {
            assert(views[i as int] == subagents@[i as int]@);
            let at: u64 = match find_subagent(&self.subagents, subagents[i].id.as_str()) {
                Some(k) => self.subagent_since[k],
                None => self.clock,
            };
            since.push(at);
            i += 1;
            assert(since@ =~= all.take(i as int));
        }
        assert(all.take(i as int) =~= all);
        if !kept {
            self.open_subagent = None;
        }
        self.subagents = subagents;
        self.subagent_since = since;
    }

    /// How long a subagent has been known, in milliseconds.
    pub fn subagent_elapsed(&self, id: &str) -> (r: Option<u64>)
        requires
            self@.valid(),
        ensures
            r == match subagent_at(self@.subagents, id@, 0) {
                Some(i) => Some(since(self@.clock, self@.subagent_since[i])),
                None => None,
            },
    {
        match find_subagent(&self.subagents, id) {
            Some(i) => Some(age(self.clock, self.subagent_since[i])),
            None => None,
        }
    }

    fn open_plan_review(&mut self, call: &ToolCall)
        requires
            old(self)@.valid(),
        ensures
            final(self)@ == old(self)@.planned(crate::plan::plan_in(call@.arguments)),
            final(self)@.valid(),
    {
        let plan = crate::plan::plan_text(call);
        self.plan = Some(PlanReview::open(plan.clone()));
        self.ask(Effect::SavePlan(plan));
    }

    /// Marks the turn running, starting the clock if it was not already.
    pub(crate) fn begin_turn(&mut self)
        ensures
            final(self)@ == old(self)@.begun(),
    {
        self.turn = Turn::Running;
        if self.started.is_none() {
            self.started = Some(self.clock);
        }
    }

    fn end_turn(&mut self)
        ensures
            final(self)@ == old(self)@.ended(),
    {
        self.turn = Turn::Idle;
        self.thinking = false;
        if let Some(at) = self.started {
            self.last_turn = Some(age(self.clock, at));
        }
        self.started = None;
    }

    /// Starts a turn with a prompt.
    pub(crate) fn send(&mut self, prompt: String)
        ensures
            final(self)@ == old(self)@.sent(prompt@),
    {
        // Submitting is an intent to watch the answer, so it returns to live.
        self.scroll.follow();
        self.begin_turn();
        self.ask(Effect::Prompt(prompt));
    }

    /// Stops the turn, or leaves if there is nothing to stop.
    pub fn interrupt(&mut self)
        ensures
            final(self)@ == old(self)@.interrupted(),
    {
        if self.turn.is_busy() {
            self.ask(Effect::Cancel);
            self.transcript.cancel_running_tools();
            self.say(Cell::Notice(text::copy("cancelled")));
            self.end_turn();
        } else {
            self.should_quit = true;
        }
    }

    /// Answers the prompt currently blocking the turn.
    pub fn answer_permission(&mut self, answer: PermissionAnswer)
        ensures
            final(self)@ == old(self)@.answered(answer, None),
    {
        self.answer_permission_with_note(answer, None);
    }

    /// Answers the prompt currently blocking the turn, with what the person said.
    pub fn answer_permission_with_note(&mut self, answer: PermissionAnswer, note: Option<String>)
        ensures
            final(self)@ == old(self)@.answered(answer, opt(note)),
    {
        let Some(id) = self.transcript.open_permission_id() else {
            return ;
        };
        self.transcript.answer_permission(id.as_str(), answer);
        self.turn = Turn::Running;
        self.ask(Effect::Answer { id, answer, note });
    }

    /// The prompt currently blocking the turn.
    pub fn open_permission_id(&self) -> (r: Option<String>)
        ensures
            opt(r) == open_id(self@.transcript.cells),
    {
        self.transcript.open_permission_id()
    }

    /// The subagents the agent has under way.
    pub fn subagents(&self) -> (r: &Vec<Subagent>)
        ensures
            subagent_views(r@) == self@.subagents,
    {
        &self.subagents
    }

    /// Told by a frame where it drew the rows of the subagents.
    pub fn set_subagent_rows(&mut self, rows: Vec<(u16, String)>)
        ensures
            final(self)@ == (AppView { subagent_rows: row_texts(rows@), ..old(self)@ }),
    {
        self.subagent_rows = rows;
    }

    /// The subagent whose task is being read.
    pub fn open_subagent(&self) -> (r: Option<String>)
        ensures
            opt(r) == self@.open_subagent,
    {
        text::copy_opt(&self.open_subagent)
    }

    /// Opens the subagent whose row was drawn at `row`, or closes it: the row is the only handle
    /// on the popup, so it has to work both ways. Says whether there was one.
    pub fn open_subagent_at(&mut self, row: u16) -> (r: bool)
        ensures
            r == subagent_of(old(self)@.subagent_rows, row, 0) is Some,
            final(self)@ == old(self)@.subagent_clicked(row),
    {
        let ghost rows = row_texts(self.subagent_rows@);
        let mut i: usize = 0;
        while i < self.subagent_rows.len()
            invariant
                i <= self.subagent_rows.len(),
                *self == *old(self),
                rows == row_texts(self.subagent_rows@),
                subagent_of(rows, row, 0) == subagent_of(rows, row, i as int),
            decreases self.subagent_rows.len() - i,
        {
            assert(rows[i as int] == (
                self.subagent_rows@[i as int].0,
                self.subagent_rows@[i as int].1@,
            ));
            if self.subagent_rows[i].0 == row {
                let id = self.subagent_rows[i].1.clone();
                let open = match &self.open_subagent {
                    Some(open) => text::eq(open.as_str(), id.as_str()),
                    None => false,
                };
                self.open_subagent = if open {
                    None
                } else {
                    Some(id)
                };
                return true;
            }
            i += 1;
        }
        false
    }

    /// Closes the popup of a subagent. Says whether one was open.
    pub fn close_subagent(&mut self) -> (r: bool)
        ensures
            r == old(self)@.open_subagent is Some,
            final(self)@ == (AppView { open_subagent: None, ..old(self)@ }),
    {
        let open = self.open_subagent.is_some();
        self.open_subagent = None;
        open
    }
}

/// The flash that has not expired.
pub open spec fn live_flash(app: AppView) -> Option<Seq<char>> {
    match app.flash {
        Some((said, at)) => if since(app.clock, at) < FLASH_MILLIS {
            Some(said)
        } else {
            None
        },
        None => None,
    }
}

/// Whether a click hits a button.
pub open spec fn hits(button: Option<(u16, u16, u16)>, column: u16, row: u16) -> bool {
    match button {
        Some((x, y, width)) => row == y && x <= column < x + width,
        None => false,
    }
}

impl AppView {
    /// With a dragged selection on its way to the clipboard.
    pub open spec fn selection_copied(self, copy: Seq<char>) -> AppView {
        AppView { pending_copy: Some(copy), ..self }.flashed(
            if lines_of(copy).len() == 1 {
                "copied the selection"@
            } else {
                "copied "@ + decimal_of(lines_of(copy).len()) + " lines"@
            },
        )
    }

    /// With the row of a subagent clicked, where one was drawn.
    pub open spec fn subagent_clicked(self, row: u16) -> AppView {
        match subagent_of(self.subagent_rows, row, 0) {
            Some(id) => AppView {
                open_subagent: if self.open_subagent == Some(id) {
                    None
                } else {
                    Some(id)
                },
                ..self
            },
            None => self,
        }
    }
}

/// How long ago something was.
fn age(clock: u64, at: u64) -> (r: u64)
    ensures
        r == since(clock, at),
{
    if at < clock {
        clock - at
    } else {
        0
    }
}

/// The sum of two counts, or the largest there is.
fn add_capped(a: u64, b: u64) -> (r: u64)
    ensures
        r == capped_sum(a, b),
{
    if b > u64::MAX - a {
        u64::MAX
    } else {
        a + b
    }
}

/// What two steps spent together.
fn add_usage(a: Usage, b: Usage) -> (r: Usage)
    ensures
        r == spent(a, b),
{
    Usage {
        input_tokens: add_capped(a.input_tokens, b.input_tokens),
        output_tokens: add_capped(a.output_tokens, b.output_tokens),
        cached_input_tokens: add_capped(a.cached_input_tokens, b.cached_input_tokens),
        reasoning_tokens: add_capped(a.reasoning_tokens, b.reasoning_tokens),
    }
}

/// Where a subagent stands among some.
fn find_subagent(subagents: &Vec<Subagent>, id: &str) -> (r: Option<usize>)
    ensures
        match subagent_at(subagent_views(subagents@), id@, 0) {
            Some(i) => r is Some && r->0 == i,
            None => r is None,
        },
        r is Some ==> r->0 < subagents.len(),
{
    let ghost views = subagent_views(subagents@);
    let mut i: usize = 0;
    while i < subagents.len()
        invariant
            i <= subagents.len(),
            views == subagent_views(subagents@),
            subagent_at(views, id@, 0) == subagent_at(views, id@, i as int),
        decreases subagents.len() - i,
    {
        assert(views[i as int] == subagents@[i as int]@);
        if text::eq(subagents[i].id.as_str(), id) {
            return Some(i);
        }
        i += 1;
    }
    None
}

// Laws.

/// What an update does to the turn: anything the agent does starts it or keeps it going, a question
/// holds it up, and its end or its failure ends it. Nothing else touches it, and nothing but a plan
/// that is put up for approval, which is saved, is asked of the host.
pub proof fn an_update_moves_the_turn(app: AppView, update: UpdateView)
    ensures
        ({
            let next = app.updated(update);
            let goes_on = update is TurnStarted || update is TextDelta || update is ThinkingDelta
                || update is ToolCallStarted;
            let ends = update is TurnEnded || update is Failed;
            &&& goes_on ==> next.turn == Turn::Running
            &&& update is PermissionRequested ==> next.turn == Turn::AwaitingPermission
            &&& ends ==> next.turn == Turn::Idle && next.started is None && !next.thinking
            &&& !goes_on && !ends && !(update is PermissionRequested) ==> next.turn == app.turn
            &&& goes_on ==> next.started == Some(app.started.unwrap_or(app.clock))
            &&& goes_on ==> next.thinking == (update is ThinkingDelta)
            &&& ends && app.started is Some ==> next.last_turn == Some(
                since(app.clock, app.started->0),
            )
            &&& ends && app.started is None ==> next.last_turn == app.last_turn
            &&& !goes_on && !ends ==> next.started == app.started && next.last_turn == app.last_turn
            &&& !(update is PermissionRequested) ==> next.effects == app.effects
            &&& update matches UpdateView::PermissionRequested { call, .. } ==> next.effects == (
            if call.name == "exit_plan_mode"@ {
                app.effects.push(EffectView::SavePlan(crate::plan::plan_in(call.arguments)))
            } else {
                app.effects
            })
        }),
{
}

/// What an update leaves alone: the composer, the lists and every setting a person made. Only the
/// mode follows the agent.
pub proof fn an_update_leaves_settings_alone(app: AppView, update: UpdateView)
    ensures
        ({
            let next = app.updated(update);
            &&& next.input == app.input
            &&& next.history == app.history
            &&& next.commands == app.commands
            &&& next.file_search == app.file_search
            &&& next.selection == app.selection
            &&& next.picker == app.picker
            &&& next.approval == app.approval
            &&& next.effort == app.effort
            &&& next.model == app.model
            &&& next.models == app.models
            &&& next.provider == app.provider
            &&& next.routes == app.routes
            &&& next.servers == app.servers
            &&& next.clock == app.clock
            &&& next.flash == app.flash
            &&& next.pending_copy == app.pending_copy
            &&& next.last_plan == app.last_plan
            &&& next.should_quit == app.should_quit
            &&& next.mode == (if update is ModeChanged {
                update->ModeChanged_0
            } else {
                app.mode
            })
        }),
{
}

/// What an update puts on the screen: what the agent says is the end of its last cell, a call or a
/// question is a cell of its own, a result revises its call, and a failure, a refusal or a result
/// that nobody asked for is shown as an error.
pub proof fn an_update_is_shown(app: AppView, update: UpdateView)
    ensures
        ({
            let cells = app.updated(update).transcript.cells;
            let before = app.transcript.cells;
            match update {
                UpdateView::TextDelta(delta) => {
                    &&& cells.len() > 0
                    &&& cells.last() matches CellView::Assistant(said) && said.len() >= delta.len()
                        && said.skip(said.len() - delta.len()) == delta
                    &&& before.len() <= cells.len() <= before.len() + 1
                },
                UpdateView::ToolCallStarted(call) => {
                    &&& cells.len() == before.len() + 1
                    &&& cells.drop_last() == before
                    &&& cells.last() matches CellView::Tool(tool) && tool.id == call.id && tool.name
                        == call.name && tool.state == crate::transcript::CallState::Running
                        && tool.summary == headlined(call.arguments, app.transcript.cwd_prefix)
                        && tool.arguments == crate::transcript::summarized(call.arguments)
                },
                UpdateView::ToolCallEnded(result) => {
                    let known = exists|i: int|
                        0 <= i < before.len() && crate::transcript::runs_under(
                            #[trigger] before[i],
                            result.id,
                        );
                    &&& known ==> cells == app.transcript.with_result(result).cells
                    &&& !known ==> cells.len() == before.len() + 1 && cells.drop_last() == before
                        && cells.last() is Error
                },
                UpdateView::PermissionRequested { id, call, reason } => {
                    &&& cells.len() == before.len() + 1
                    &&& cells.drop_last() == before
                    &&& cells.last() matches CellView::Permission(prompt) && prompt.id == id
                        && prompt.name == call.name && prompt.reason == reason
                        && prompt.summary == headlined(call.arguments, app.transcript.cwd_prefix)
                        && prompt.answer is None
                },
                UpdateView::TurnEnded(reason) => if reason is Refusal {
                    cells.len() == before.len() + 1 && cells.drop_last() == before
                        && cells.last() is Error
                } else {
                    cells == before
                },
                UpdateView::Failed(message) => cells == before.push(CellView::Error(message)),
                UpdateView::SessionReset => cells.len() == 0,
                _ => cells == before,
            }
        }),
{
    let cells = app.updated(update).transcript.cells;
    let before = app.transcript.cells;
    match update {
        UpdateView::TextDelta(delta) => {
            let said = cells.last()->Assistant_0;
            assert(said.skip(said.len() - delta.len()) =~= delta);
        },
        UpdateView::ToolCallStarted(_) => {
            assert(cells.drop_last() =~= before);
        },
        UpdateView::ToolCallEnded(result) => {
            crate::transcript::lemma_last_running(before, result.id);
            match last_running(before, result.id) {
                Some(i) => {
                    assert(crate::transcript::runs_under(before[i], result.id));
                },
                None => {
                    assert(cells.drop_last() =~= before);
                },
            }
        },
        UpdateView::PermissionRequested { .. } => {
            assert(cells.drop_last() =~= before);
        },
        UpdateView::TurnEnded(reason) => if reason is Refusal {
            assert(cells.drop_last() =~= before);
        },
        _ => {},
    }
}

/// Every token is counted: what a call used is added to what the session used, each count to its
/// own, and what it read is how full the context is.
pub proof fn every_token_is_counted(app: AppView, used: Usage)
    ensures
        ({
            let next = app.updated(UpdateView::TokensUsed(used));
            &&& next.context_input == used.input_tokens
            &&& app.usage.input_tokens + used.input_tokens <= u64::MAX ==> next.usage.input_tokens
                == app.usage.input_tokens + used.input_tokens
            &&& app.usage.output_tokens + used.output_tokens <= u64::MAX ==> next.usage.output_tokens
                == app.usage.output_tokens + used.output_tokens
            &&& app.usage.cached_input_tokens + used.cached_input_tokens <= u64::MAX
                ==> next.usage.cached_input_tokens == app.usage.cached_input_tokens
                + used.cached_input_tokens
            &&& app.usage.reasoning_tokens + used.reasoning_tokens <= u64::MAX
                ==> next.usage.reasoning_tokens == app.usage.reasoning_tokens
                + used.reasoning_tokens
        }),
        ({
            let next = app.updated(UpdateView::SessionReset);
            &&& next.usage.input_tokens == 0 && next.usage.output_tokens == 0
            &&& next.usage.cached_input_tokens == 0 && next.usage.reasoning_tokens == 0
            &&& next.context_input == 0
            &&& next.subagents.len() == 0 && next.open_subagent is None
            &&& next.expanded.len() == 0
        }),
{
}

/// A list of subagents takes the place of the one before: one that was there keeps the time it
/// started at, a new one starts now, and the popup of one that is gone closes.
pub proof fn a_subagent_keeps_its_clock(app: AppView, subagents: Seq<SubagentView>, k: int)
    requires
        app.subagent_since.len() == app.subagents.len(),
        0 <= k < subagents.len(),
    ensures
        ({
            let next = app.updated(UpdateView::Subagents(subagents));
            let id = subagents[k].id;
            let known = exists|i: int|
                0 <= i < app.subagents.len() && (#[trigger] app.subagents[i]).id == id;
            &&& next.subagents == subagents
            &&& next.subagent_since.len() == subagents.len()
            &&& !known ==> next.subagent_since[k] == app.clock
            &&& known ==> exists|i: int|
                0 <= i < app.subagents.len() && (#[trigger] app.subagents[i]).id == id
                    && next.subagent_since[k] == app.subagent_since[i]
            &&& app.open_subagent == Some(id) ==> next.open_subagent == Some(id)
            &&& next.open_subagent matches Some(open) ==> app.open_subagent == Some(open) && exists|
                i: int,
            |
                0 <= i < subagents.len() && (#[trigger] subagents[i]).id == open
        }),
{
    let id = subagents[k].id;
    lemma_subagent_at(app.subagents, id, 0);
    lemma_subagent_at(subagents, id, 0);
    if app.open_subagent is Some {
        lemma_subagent_at(subagents, app.open_subagent->0, 0);
    }
}

proof fn lemma_subagent_at(subagents: Seq<SubagentView>, id: Seq<char>, i: int)
    requires
        0 <= i <= subagents.len(),
    ensures
        match subagent_at(subagents, id, i) {
            Some(k) => i <= k < subagents.len() && subagents[k].id == id && forall|j: int|
                i <= j < k ==> (#[trigger] subagents[j]).id != id,
            None => forall|j: int| i <= j < subagents.len() ==> (#[trigger] subagents[j]).id != id,
        },
    decreases subagents.len() - i,
{
    if i < subagents.len() && subagents[i].id != id {
        lemma_subagent_at(subagents, id, i + 1);
    }
}

/// An answer goes to the question that is waited for, on the screen and to the agent, with what was
/// said with it; where nothing is waited for nothing happens.
pub proof fn an_answer_reaches_the_agent(
    app: AppView,
    answer: PermissionAnswer,
    note: Option<Seq<char>>,
)
    ensures
        ({
            let next = app.answered(answer, note);
            match open_id(app.transcript.cells) {
                Some(id) => {
                    &&& next.effects == app.effects.push(EffectView::Answer { id, answer, note })
                    &&& next.transcript == app.transcript.with_answer(id, answer)
                    &&& next.turn == Turn::Running
                    &&& next.input == app.input
                    &&& next.plan == app.plan
                },
                None => next == app,
            }
        }),
{
}

/// Toggling a run flips that run and no other, and twice leaves what was open.
pub proof fn toggling_flips_one_run(expanded: Seq<usize>, key: usize, other: usize)
    requires
        expanded.no_duplicates(),
    ensures
        toggled(expanded, key).contains(key) != expanded.contains(key),
        other != key ==> toggled(expanded, key).contains(other) == expanded.contains(other),
{
    let next = toggled(expanded, key);
    if expanded.contains(key) {
        let at = expanded.index_of_first(key)->0;
        expanded.index_of_first_ensures(key);
        assert(next =~= expanded.remove(at));
        if next.contains(key) {
            let i = choose|i: int| 0 <= i < next.len() && next[i] == key;
            if i < at {
                assert(expanded[i] == key);
            } else {
                assert(expanded[i + 1] == key);
            }
        }
        if other != key {
            if next.contains(other) {
                let i = choose|i: int| 0 <= i < next.len() && next[i] == other;
                assert(expanded[if i < at {
                    i
                } else {
                    i + 1
                }] == other);
            }
            if expanded.contains(other) {
                let i = choose|i: int| 0 <= i < expanded.len() && expanded[i] == other;
                assert(next[if i < at {
                    i
                } else {
                    i - 1
                }] == other);
            }
        }
    } else {
        assert(next.last() == key);
        if next.contains(other) && other != key {
            let i = choose|i: int| 0 <= i < next.len() && next[i] == other;
            assert(expanded[i] == other);
        }
        if expanded.contains(other) {
            let i = choose|i: int| 0 <= i < expanded.len() && expanded[i] == other;
            assert(next[i] == other);
        }
    }
}

/// A click on a row finds what was drawn there: the header of a run, or a subagent, whose popup it
/// opens or closes.
pub proof fn a_click_finds_what_was_drawn(
    toggles: Seq<(u16, usize)>,
    rows: Seq<(u16, Seq<char>)>,
    row: u16,
    i: int,
)
    requires
        0 <= i,
    ensures
        match toggle_of(toggles, row, i) {
            Some(key) => exists|k: int|
                i <= k < toggles.len() && #[trigger] toggles[k] == (row, key) && forall|j: int|
                    i <= j < k ==> (#[trigger] toggles[j]).0 != row,
            None => forall|j: int| i <= j < toggles.len() ==> (#[trigger] toggles[j]).0 != row,
        },
        match subagent_of(rows, row, i) {
            Some(id) => exists|k: int|
                i <= k < rows.len() && #[trigger] rows[k] == (row, id) && forall|j: int|
                    i <= j < k ==> (#[trigger] rows[j]).0 != row,
            None => forall|j: int| i <= j < rows.len() ==> (#[trigger] rows[j]).0 != row,
        },
    decreases toggles.len() + rows.len() - i,
{
    if i < toggles.len() || i < rows.len() {
        a_click_finds_what_was_drawn(toggles, rows, row, i + 1);
        if i < toggles.len() && toggles[i].0 == row {
            assert(toggles[i] == (row, toggle_of(toggles, row, i)->0));
        }
        if i < rows.len() && rows[i].0 == row {
            assert(rows[i] == (row, subagent_of(rows, row, i)->0));
        }
    }
}

/// The last reply is what the agent said last.
pub proof fn the_last_reply_is_the_last(cells: Seq<CellView>)
    ensures
        match last_reply(cells) {
            Some(said) => exists|i: int|
                0 <= i < cells.len() && #[trigger] cells[i] == CellView::Assistant(said) && forall|
                    j: int,
                |
                    i < j < cells.len() ==> !((#[trigger] cells[j]) is Assistant),
            None => forall|j: int| 0 <= j < cells.len() ==> !((#[trigger] cells[j]) is Assistant),
        },
    decreases cells.len(),
{
    if cells.len() > 0 {
        let init = cells.drop_last();
        let n = cells.len() - 1;
        the_last_reply_is_the_last(init);
        if cells[n] is Assistant {
            assert(cells[n] == CellView::Assistant(last_reply(cells)->0));
        } else {
            assert forall|j: int| 0 <= j < n implies #[trigger] cells[j] == init[j] by {}
            if last_reply(cells) is Some {
                let said = last_reply(cells)->0;
                let i = choose|i: int|
                    0 <= i < init.len() && #[trigger] init[i] == CellView::Assistant(said)
                        && forall|j: int| i < j < init.len() ==> !((#[trigger] init[j]) is Assistant);
                assert(cells[i] == CellView::Assistant(said));
                assert forall|j: int| i < j < cells.len() implies !((
                #[trigger] cells[j]) is Assistant) by {
                    if j < n {
                        assert(init[j] == cells[j]);
                    }
                }
            }
        }
    }
}

/// What is copied is what was selected or said, whole, and the bar says so.
pub proof fn what_is_copied_is_handed_over(app: AppView, copy: Seq<char>)
    ensures
        app.copied(copy).pending_copy == Some(copy),
        app.selection_copied(copy).pending_copy == Some(copy),
        app.copied(copy).flash is Some && app.selection_copied(copy).flash is Some,
        live_flash(app.copied(copy)) is Some,
        app.copied(copy).transcript == app.transcript,
        app.copied(copy).effects == app.effects,
{
}

/// What the bar flashes is shown for a while and then gone.
pub proof fn a_flash_fades(app: AppView, said: Seq<char>, later: u64)
    requires
        app.clock <= later,
    ensures
        ({
            let then = AppView { clock: later, ..app.flashed(said) };
            &&& later - app.clock < FLASH_MILLIS ==> live_flash(then) == Some(said)
            &&& later - app.clock >= FLASH_MILLIS ==> live_flash(then) is None
        }),
{
}

/// A prompt that is sent starts the turn and goes to the agent as it is, and the view follows.
pub proof fn a_sent_prompt_starts_the_turn(app: AppView, prompt: Seq<char>)
    ensures
        app.sent(prompt).effects == app.effects.push(EffectView::Prompt(prompt)),
        app.sent(prompt).turn == Turn::Running,
        app.sent(prompt).scroll.pinned is None,
        app.sent(prompt).transcript == app.transcript,
        app.sent(prompt).started == Some(app.started.unwrap_or(app.clock)),
{
}

/// Calling a turn off tells the agent once, ends every call that was running and is shown; with no
/// turn under way the interface is left instead.
pub proof fn an_interrupt_ends_the_turn(app: AppView)
    ensures
        app.turn != Turn::Idle ==> {
            let next = app.interrupted();
            &&& next.effects == app.effects.push(EffectView::Cancel)
            &&& next.turn == Turn::Idle
            &&& next.transcript.cells.len() == app.transcript.cells.len() + 1
            &&& next.transcript.cells.last() is Notice
            &&& !next.should_quit || app.should_quit
        },
        app.turn == Turn::Idle ==> app.interrupted() == (AppView { should_quit: true, ..app }),
{
}

/// An answer never runs on into the next turn: once a turn has begun or ended, what the agent says
/// is a new cell.
pub proof fn a_turn_begins_a_new_answer(app: AppView, delta: Seq<char>)
    ensures
        app.updated(UpdateView::TurnStarted).updated(UpdateView::TextDelta(delta)).transcript.cells
            == app.transcript.cells.push(CellView::Assistant(delta)),
        app.updated(UpdateView::TurnEnded(StopView::EndTurn)).updated(
            UpdateView::TextDelta(delta),
        ).transcript.cells == app.transcript.cells.push(CellView::Assistant(delta)),
{
}

} // verus!

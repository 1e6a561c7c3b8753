//! The picker, docked between the composer and the status line.
//!
//! Same shape as the slash menu: a layout slot that collapses to zero when closed. It still
//! holds the keyboard while open; it just does not cover the transcript.

use vstd::prelude::*;
use crate::picker::{clamped, survives, Choice, Picker, PickerKind, PickerView, ProviderChoice};
use crate::protocol::ApprovalPolicy;
use crate::provider::ModelInfo;
use crate::slash;
use crate::slash::policy_word;
use crate::style::{
    bolded, colored, line_of, line_views, plain, push_line, push_span, span_views, styled,
    styled_line, Color, Line, LineView, Span, Style,
};
use crate::text;
use crate::text::{decimal_of, opt};

verus! {

/// At most this many rows are on screen at once, before the cap at half the height.
pub const MAX_ROWS: usize = 12;

/// How narrow the panel may be squeezed before it is not worth drawing.
pub const MIN_WIDTH: u16 = 24;

/// Filter line and two borders. A panel shorter than this plus one list row cannot be read.
pub const CHROME: u16 = 3;

/// A server that a plugin contributes.
#[derive(Clone, Debug, PartialEq, Eq)]
pub struct McpServer {
    pub name: String,
    pub plugin: String,
    pub transport: String,
    /// Whether the plugin is trusted to have it reached.
    pub allowed: bool,
    pub remote: bool,
    pub signed_in: bool,
    /// What a login in flight is doing.
    pub activity: Option<String>,
}

/// What a [`McpServer`] says.
pub struct ServerView {
    pub name: Seq<char>,
    pub plugin: Seq<char>,
    pub transport: Seq<char>,
    pub allowed: bool,
    pub remote: bool,
    pub signed_in: bool,
    pub activity: Option<Seq<char>>,
}

impl View for McpServer {
    type V = ServerView;

    open spec fn view(&self) -> ServerView {
        ServerView {
            name: self.name@,
            plugin: self.plugin@,
            transport: self.transport@,
            allowed: self.allowed,
            remote: self.remote,
            signed_in: self.signed_in,
            activity: opt(self.activity),
        }
    }
}

/// What some servers say.
pub open spec fn server_views(servers: Seq<McpServer>) -> Seq<ServerView> {
    servers.map_values(|s: McpServer| s@)
}

impl Choice for McpServer {
    open spec fn key_view(&self) -> Seq<char> {
        self.name@
    }

    open spec fn label_view(&self) -> Seq<char> {
        self.name@
    }

    fn key(&self) -> (r: &str) {
        self.name.as_str()
    }

    fn label(&self) -> (r: &str) {
        self.name.as_str()
    }
}

/// An approval policy on offer, with what it means.
#[derive(Clone, Debug, PartialEq, Eq)]
pub struct PolicyChoice {
    pub policy: ApprovalPolicy,
    pub detail: String,
}

impl Choice for PolicyChoice {
    open spec fn key_view(&self) -> Seq<char> {
        policy_word(self.policy)
    }

    open spec fn label_view(&self) -> Seq<char> {
        policy_word(self.policy)
    }

    fn key(&self) -> (r: &str) {
        slash::policy_name(self.policy)
    }

    fn label(&self) -> (r: &str) {
        slash::policy_name(self.policy)
    }
}

/// One row as the overlay needs it: what a person reads, whatever else is worth saying about
/// it, and whether it is the one in force.
#[derive(Debug, PartialEq, Eq)]
pub struct Row {
    pub current: bool,
    pub label: String,
    pub detail: String,
}

/// What a [`Row`] says.
pub struct RowView {
    pub current: bool,
    pub label: Seq<char>,
    pub detail: Seq<char>,
}

impl View for Row {
    type V = RowView;

    open spec fn view(&self) -> RowView {
        RowView { current: self.current, label: self.label@, detail: self.detail@ }
    }
}

/// What some rows say.
pub open spec fn row_views(rows: Seq<Row>) -> Seq<RowView> {
    rows.map_values(|r: Row| r@)
}

/// Everything that the overlay can list, and what is in force.
#[derive(Debug, PartialEq, Eq)]
pub struct Lists {
    pub models: Vec<ModelInfo>,
    pub model: String,
    pub providers: Vec<ProviderChoice>,
    pub provider: Option<String>,
    pub servers: Vec<McpServer>,
    pub policies: Vec<PolicyChoice>,
    pub approval: ApprovalPolicy,
}

/// The row of a model.
pub open spec fn model_row(model: ModelInfo, current: Seq<char>) -> RowView {
    RowView {
        current: model.id@ == current,
        label: model.display_name@,
        detail: match model.context_window {
            Some(window) => model.id@ + "  ·  "@ + decimal_of((window / 1_000) as nat)
                + "k context"@,
            None => model.id@,
        },
    }
}

/// The row of a provider.
pub open spec fn provider_row(provider: ProviderChoice, current: Option<Seq<char>>) -> RowView {
    RowView {
        current: current == Some(provider.route@),
        label: provider.display_name@,
        detail: provider.route@,
    }
}

/// How a server stands. A login in flight is the freshest thing there is to say; trust comes
/// before a token, since a server that will not be reached at all should not send anyone off to
/// authenticate with it.
pub open spec fn server_state(server: McpServer) -> Seq<char> {
    match server.activity {
        Some(activity) => activity@,
        None => if !server.allowed {
            "held back — keke plugin trust "@ + server.plugin@
        } else if !server.remote {
            "local"@
        } else if server.signed_in {
            "signed in"@
        } else {
            "not signed in — enter"@
        },
    }
}

/// The row of a server. The mark means "nothing to do here", which for a server is a reachable
/// one that needs no token.
pub open spec fn server_row(server: McpServer) -> RowView {
    RowView {
        current: server.allowed && (!server.remote || server.signed_in),
        label: server.name@,
        detail: server.transport@ + "  ·  "@ + server_state(server),
    }
}

/// The row of a policy.
pub open spec fn policy_row(choice: PolicyChoice, current: ApprovalPolicy) -> RowView {
    RowView {
        current: choice.policy == current,
        label: policy_word(choice.policy),
        detail: choice.detail@,
    }
}

/// The rows of the models that survive a filter.
pub open spec fn model_rows(models: Seq<ModelInfo>, query: Seq<char>, current: Seq<char>) -> Seq<
    RowView,
>
    decreases models.len(),
{
    if models.len() == 0 {
        Seq::empty()
    } else {
        let before = model_rows(models.drop_last(), query, current);
        let last = models.last();
        if survives(query, last.key_view(), last.label_view()) {
            before.push(model_row(last, current))
        } else {
            before
        }
    }
}

/// The rows of the providers that survive a filter.
pub open spec fn provider_rows(
    providers: Seq<ProviderChoice>,
    query: Seq<char>,
    current: Option<Seq<char>>,
) -> Seq<RowView>
    decreases providers.len(),
{
    if providers.len() == 0 {
        Seq::empty()
    } else {
        let before = provider_rows(providers.drop_last(), query, current);
        let last = providers.last();
        if survives(query, last.key_view(), last.label_view()) {
            before.push(provider_row(last, current))
        } else {
            before
        }
    }
}

/// The rows of the servers that survive a filter.
pub open spec fn server_rows(servers: Seq<McpServer>, query: Seq<char>) -> Seq<RowView>
    decreases servers.len(),
{
    if servers.len() == 0 {
        Seq::empty()
    } else {
        let before = server_rows(servers.drop_last(), query);
        let last = servers.last();
        if survives(query, last.key_view(), last.label_view()) {
            before.push(server_row(last))
        } else {
            before
        }
    }
}

/// The rows of the policies that survive a filter.
pub open spec fn policy_rows(
    policies: Seq<PolicyChoice>,
    query: Seq<char>,
    current: ApprovalPolicy,
) -> Seq<RowView>
    decreases policies.len(),
{
    if policies.len() == 0 {
        Seq::empty()
    } else {
        let before = policy_rows(policies.drop_last(), query, current);
        let last = policies.last();
        if survives(query, last.key_view(), last.label_view()) {
            before.push(policy_row(last, current))
        } else {
            before
        }
    }
}

/// The title of a list.
pub open spec fn list_title(kind: PickerKind) -> Seq<char> {
    match kind {
        PickerKind::Model => " models — type to filter, enter switches, esc cancels "@,
        PickerKind::Provider => " providers — type to filter, enter switches, esc cancels "@,
        PickerKind::Mcp => " mcp servers — type to filter, enter signs in, esc closes "@,
        PickerKind::Policy => " carry the plan out — enter approves under this policy, esc keeps planning "@,
    }
}

/// The rows of the list that is open, after its filter.
pub open spec fn list_rows(picker: PickerView, lists: Lists) -> Seq<RowView> {
    match picker.kind {
        PickerKind::Model => model_rows(lists.models@, picker.query, lists.model@),
        PickerKind::Provider => provider_rows(
            lists.providers@,
            picker.query,
            opt(lists.provider),
        ),
        PickerKind::Mcp => server_rows(lists.servers@, picker.query),
        PickerKind::Policy => policy_rows(lists.policies@, picker.query, lists.approval),
    }
}

/// Pushes one row.
fn push_row(rows: &mut Vec<Row>, row: Row)
    ensures
        row_views(final(rows)@) == row_views(old(rows)@).push(row@),
{
    rows.push(row);
    assert(row_views(rows@) =~= row_views(old(rows)@).push(row@));
}

/// The rows of the models that survive the filter.
fn model_list(picker: &Picker, lists: &Lists) -> (r: Vec<Row>)
    ensures
        row_views(r@) == model_rows(lists.models@, picker@.query, lists.model@),
{
    let mut rows: Vec<Row> = Vec::new();
    let mut i: usize = 0;
    assert(row_views(rows@) =~= model_rows(lists.models@.take(0), picker@.query, lists.model@));
    while i < lists.models.len()
        invariant
            i <= lists.models.len(),
            row_views(rows@) == model_rows(
                lists.models@.take(i as int),
                picker@.query,
                lists.model@,
            ),
        decreases lists.models.len() - i,
    {
        assert(lists.models@.take(i as int + 1).drop_last() =~= lists.models@.take(i as int));
        let model = &lists.models[i];
        if picker.matches(model) {
            let mut detail = model.id.clone();
            if let Some(window) = model.context_window {
                let size = text::decimal(window / 1_000);
                detail.append("  ·  ");
                detail.append(size.as_str());
                detail.append("k context");
            }
            push_row(
                &mut rows,
                Row {
                    current: text::eq(model.id.as_str(), lists.model.as_str()),
                    label: model.display_name.clone(),
                    detail,
                },
            );
        }
        i += 1;
    }
    assert(lists.models@.take(i as int) =~= lists.models@);
    rows
}

/// The rows of the providers that survive the filter.
fn provider_list(picker: &Picker, lists: &Lists) -> (r: Vec<Row>)
    ensures
        row_views(r@) == provider_rows(lists.providers@, picker@.query, opt(lists.provider)),
{
    let mut rows: Vec<Row> = Vec::new();
    let mut i: usize = 0;
    assert(row_views(rows@) =~= provider_rows(
        lists.providers@.take(0),
        picker@.query,
        opt(lists.provider),
    ));
    while i < lists.providers.len()
        invariant
            i <= lists.providers.len(),
            row_views(rows@) == provider_rows(
                lists.providers@.take(i as int),
                picker@.query,
                opt(lists.provider),
            ),
        decreases lists.providers.len() - i,
    {
        assert(lists.providers@.take(i as int + 1).drop_last() =~= lists.providers@.take(
            i as int,
        ));
        let provider = &lists.providers[i];
        if picker.matches(provider) {
            let current = match &lists.provider {
                Some(route) => text::eq(route.as_str(), provider.route.as_str()),
                None => false,
            };
            push_row(
                &mut rows,
                Row {
                    current,
                    label: provider.display_name.clone(),
                    detail: provider.route.clone(),
                },
            );
        }
        i += 1;
    }
    assert(lists.providers@.take(i as int) =~= lists.providers@);
    rows
}

impl McpServer {
    /// How this server stands.
    fn state(&self) -> (r: String)
        ensures
            r@ == server_state(*self),
    {
        match &self.activity {
            Some(activity) => activity.clone(),
            None => if !self.allowed {
                text::concat("held back — keke plugin trust ", self.plugin.as_str())
            } else if !self.remote {
                text::copy("local")
            } else if self.signed_in {
                text::copy("signed in")
            } else {
                text::copy("not signed in — enter")
            },
        }
    }
}

/// The rows of the servers that survive the filter.
fn server_list(picker: &Picker, lists: &Lists) -> (r: Vec<Row>)
    ensures
        row_views(r@) == server_rows(lists.servers@, picker@.query),
{
    let mut rows: Vec<Row> = Vec::new();
    let mut i: usize = 0;
    assert(row_views(rows@) =~= server_rows(lists.servers@.take(0), picker@.query));
    while i < lists.servers.len()
        invariant
            i <= lists.servers.len(),
            row_views(rows@) == server_rows(lists.servers@.take(i as int), picker@.query),
        decreases lists.servers.len() - i,
    {
        assert(lists.servers@.take(i as int + 1).drop_last() =~= lists.servers@.take(i as int));
        let server = &lists.servers[i];
        if picker.matches(server) {
            let state = server.state();
            push_row(
                &mut rows,
                Row {
                    current: server.allowed && (!server.remote || server.signed_in),
                    label: server.name.clone(),
                    detail: text::concat3(server.transport.as_str(), "  ·  ", state.as_str()),
                },
            );
        }
        i += 1;
    }
    assert(lists.servers@.take(i as int) =~= lists.servers@);
    rows
}

/// The rows of the policies that survive the filter.
fn policy_list(picker: &Picker, lists: &Lists) -> (r: Vec<Row>)
    ensures
        row_views(r@) == policy_rows(lists.policies@, picker@.query, lists.approval),
{
    let mut rows: Vec<Row> = Vec::new();
    let mut i: usize = 0;
    assert(row_views(rows@) =~= policy_rows(
        lists.policies@.take(0),
        picker@.query,
        lists.approval,
    ));
    while i < lists.policies.len()
        invariant
            i <= lists.policies.len(),
            row_views(rows@) == policy_rows(
                lists.policies@.take(i as int),
                picker@.query,
                lists.approval,
            ),
        decreases lists.policies.len() - i,
    {
        assert(lists.policies@.take(i as int + 1).drop_last() =~= lists.policies@.take(i as int));
        let choice = &lists.policies[i];
        if picker.matches(choice) {
            push_row(
                &mut rows,
                Row {
                    current: choice.policy == lists.approval,
                    label: text::copy(slash::policy_name(choice.policy)),
                    detail: choice.detail.clone(),
                },
            );
        }
        i += 1;
    }
    assert(lists.policies@.take(i as int) =~= lists.policies@);
    rows
}

/// The title and the rows of the list that is open.
pub fn content(picker: &Picker, lists: &Lists) -> (r: (&'static str, Vec<Row>))
    ensures
        r.0@ == list_title(picker@.kind),
        row_views(r.1@) == list_rows(picker@, *lists),
{
    match picker.kind() {
        PickerKind::Model => (
            " models — type to filter, enter switches, esc cancels ",
            model_list(picker, lists),
        ),
        PickerKind::Provider => (
            " providers — type to filter, enter switches, esc cancels ",
            provider_list(picker, lists),
        ),
        PickerKind::Mcp => (
            " mcp servers — type to filter, enter signs in, esc closes ",
            server_list(picker, lists),
        ),
        PickerKind::Policy => (
            " carry the plan out — enter approves under this policy, esc keeps planning ",
            policy_list(picker, lists),
        ),
    }
}

/// How tall a picker of `count` rows wants to be.
pub open spec fn wanted_height(count: nat) -> int {
    (if count < 1 {
        1
    } else if count > MAX_ROWS {
        MAX_ROWS as int
    } else {
        count as int
    }) + CHROME
}

/// How tall the picker is this frame, borders and filter line included. Zero where the cap at
/// half the height would leave it unreadable.
pub fn rows(count: usize, height: u16) -> (r: u16)
    ensures
        ({
            let capped = if wanted_height(count as nat) < height / 2 {
                wanted_height(count as nat)
            } else {
                (height / 2) as int
            };
            r == (if capped < CHROME + 1 {
                0
            } else {
                capped
            })
        }),
{
    let shown: u16 = if count < 1 {
        1
    } else if count > MAX_ROWS {
        12
    } else {
        count as u16
    };
    let wanted: u16 = shown + CHROME;
    let half: u16 = height / 2;
    let capped: u16 = if wanted < half {
        wanted
    } else {
        half
    };
    if capped < CHROME + 1 {
        0
    } else {
        capped
    }
}

/// The filter line.
pub open spec fn filter_line(query: Seq<char>) -> LineView {
    line_of(
        seq![
            styled(" filter "@, colored(Color::DarkGray)),
            styled(query, bolded(plain())),
            styled("▏"@, colored(Color::Cyan)),
        ],
    )
}

/// A row of the list. The one in force is marked rather than moved to the top: a list that
/// reorders itself as you switch is one you cannot learn.
pub open spec fn list_line(row: RowView, highlighted: bool) -> LineView {
    let style = if highlighted {
        Style { fg: Some(Color::Black), bg: Some(Color::Cyan), ..plain() }
    } else {
        plain()
    };
    let mark = if row.current {
        "*"@
    } else {
        " "@
    };
    line_of(
        seq![
            styled(" "@ + mark + " "@ + row.label + " "@, bolded(style)),
            styled(
                row.detail,
                Style {
                    fg: Some(
                        if highlighted {
                            Color::Black
                        } else {
                            Color::DarkGray
                        },
                    ),
                    ..style
                },
            ),
        ],
    )
}

/// The first row on screen, so that the highlighted one is there.
pub open spec fn first_shown(selected: nat, visible: nat) -> nat {
    if selected + 1 > visible {
        (selected + 1 - visible) as nat
    } else {
        0
    }
}

/// The rows from `first` up to `end`, the highlighted one marked.
pub open spec fn lines_between(rows: Seq<RowView>, first: nat, end: nat, selected: nat) -> Seq<
    LineView,
> {
    Seq::new(
        if end > first {
            (end - first) as nat
        } else {
            0
        },
        |i: int| list_line(rows[first + i], first + i == selected),
    )
}

/// The lines of the panel.
pub open spec fn panel_lines(
    query: Seq<char>,
    rows: Seq<RowView>,
    selected: nat,
    visible: nat,
) -> Seq<LineView> {
    let top = if rows.len() == 0 {
        seq![
            filter_line(query),
            styled_line(
                "  nothing matches — backspace to widen"@,
                colored(Color::DarkGray),
            ),
        ]
    } else {
        seq![filter_line(query)]
    };
    let first = first_shown(selected, visible);
    let end = if first + visible < rows.len() {
        first + visible
    } else {
        rows.len()
    };
    top + lines_between(rows, first, end, selected)
}

impl Row {
    /// The line of this row.
    fn line(&self, highlighted: bool) -> (r: Line)
        ensures
            r@ == list_line(self@, highlighted),
    {
        let style = if highlighted {
            Style::new().fg(Color::Black).bg(Color::Cyan)
        } else {
            Style::new()
        };
        let mark = if self.current {
            "*"
        } else {
            " "
        };
        let mut lead = text::concat3(" ", mark, " ");
        lead.append(self.label.as_str());
        lead.append(" ");
        let color = if highlighted {
            Color::Black
        } else {
            Color::DarkGray
        };
        Line::of_two(
            Span::styled(lead.as_str(), style.bold()),
            Span::styled(self.detail.as_str(), style.fg(color)),
        )
    }
}

/// The lines of the panel in a slot of `height` rows.
pub fn lines(picker: &Picker, rows: &Vec<Row>, height: u16) -> (r: Vec<Line>)
    ensures
        line_views(r@) == panel_lines(
            picker@.query,
            row_views(rows@),
            clamped(picker@.selected, rows.len() as nat),
            if height > CHROME + 1 {
                (height - CHROME) as nat
            } else {
                1
            },
        ),
{
    let selected: usize = picker.selected(rows.len());
    let visible: usize = if height > CHROME + 1 {
        (height - CHROME) as usize
    } else {
        1
    };
    let first: usize = if selected >= visible {
        selected - (visible - 1)
    } else {
        0
    };
    let ghost all = row_views(rows@);
    let mut lines: Vec<Line> = Vec::new();
    assert(line_views(lines@) =~= Seq::empty());
    let mut spans: Vec<Span> = Vec::new();
    assert(span_views(spans@) =~= Seq::empty());
    push_span(&mut spans, Span::styled(" filter ", Style::new().fg(Color::DarkGray)));
    push_span(&mut spans, Span::styled(picker.query(), Style::new().bold()));
    push_span(&mut spans, Span::styled("▏", Style::new().fg(Color::Cyan)));
    assert(span_views(spans@) =~= filter_line(picker@.query).spans);
    push_line(&mut lines, Line::of(spans));
    if rows.len() == 0 {
        push_line(
            &mut lines,
            Line::styled(
                "  nothing matches — backspace to widen",
                Style::new().fg(Color::DarkGray),
            ),
        );
    }
    let ghost top = line_views(lines@);
    assert(rows.len() == 0 ==> top =~= seq![
        filter_line(picker@.query),
        styled_line("  nothing matches — backspace to widen"@, colored(Color::DarkGray)),
    ]);
    assert(rows.len() > 0 ==> top =~= seq![filter_line(picker@.query)]);
    let end: usize = if first < rows.len() && visible < rows.len() - first {
        first + visible
    } else {
        rows.len()
    };
    let mut i: usize = first;
    assert(top + lines_between(all, first as nat, first as nat, selected as nat) =~= top);
    while i < end
        invariant
            first <= i,
            i <= end || end < first,
            end <= rows.len(),
            all == row_views(rows@),
            line_views(lines@) == top + lines_between(
                all,
                first as nat,
                i as nat,
                selected as nat,
            ),
        decreases end - i,
    {
        assert(all[i as int] == rows@[i as int]@);
        push_line(&mut lines, rows[i].line(i == selected));
        assert(line_views(lines@) =~= top + lines_between(
            all,
            first as nat,
            (i + 1) as nat,
            selected as nat,
        ));
        i += 1;
    }
    assert(lines_between(all, first as nat, i as nat, selected as nat) =~= lines_between(
        all,
        first as nat,
        end as nat,
        selected as nat,
    ));
    lines
}

/// The highlighted row is always on screen.
pub proof fn the_highlight_is_on_screen(selected: nat, visible: nat)
    requires
        visible > 0,
    ensures
        first_shown(selected, visible) <= selected < first_shown(selected, visible) + visible,
{
}

/// The list shows just the choices that survive its filter, in their order, with the one in force
/// marked and each by the name and the detail a person knows it by.
pub proof fn the_list_is_what_survives_its_filter(picker: PickerView, lists: Lists)
    ensures
        picker.kind == PickerKind::Model ==> list_rows(picker, lists) == lists.models@.filter(
            |m: ModelInfo| survives(picker.query, m.id@, m.display_name@),
        ).map_values(|m: ModelInfo| model_row(m, lists.model@)),
        picker.kind == PickerKind::Provider ==> list_rows(picker, lists) == lists.providers@.filter(
            |p: ProviderChoice| survives(picker.query, p.route@, p.display_name@),
        ).map_values(|p: ProviderChoice| provider_row(p, opt(lists.provider))),
        picker.kind == PickerKind::Mcp ==> list_rows(picker, lists) == lists.servers@.filter(
            |s: McpServer| survives(picker.query, s.name@, s.name@),
        ).map_values(|s: McpServer| server_row(s)),
        picker.kind == PickerKind::Policy ==> list_rows(picker, lists) == lists.policies@.filter(
            |p: PolicyChoice|
                survives(picker.query, policy_word(p.policy), policy_word(p.policy)),
        ).map_values(|p: PolicyChoice| policy_row(p, lists.approval)),
{
    lemma_model_rows(lists.models@, picker.query, lists.model@);
    lemma_provider_rows(lists.providers@, picker.query, opt(lists.provider));
    lemma_server_rows(lists.servers@, picker.query);
    lemma_policy_rows(lists.policies@, picker.query, lists.approval);
}

proof fn lemma_model_rows(models: Seq<ModelInfo>, query: Seq<char>, current: Seq<char>)
    ensures
        model_rows(models, query, current) == models.filter(
            |m: ModelInfo| survives(query, m.id@, m.display_name@),
        ).map_values(|m: ModelInfo| model_row(m, current)),
    decreases models.len(),
{
    let keep = |m: ModelInfo| survives(query, m.id@, m.display_name@);
    let row = |m: ModelInfo| model_row(m, current);
    reveal(Seq::filter);
    if models.len() > 0 {
        let init = models.drop_last();
        lemma_model_rows(init, query, current);
        assert(init.filter(keep).push(models.last()).map_values(row) =~= init.filter(
            keep,
        ).map_values(row).push(row(models.last())));
    }
    assert(model_rows(models, query, current) =~= models.filter(keep).map_values(row));
}

proof fn lemma_provider_rows(
    providers: Seq<ProviderChoice>,
    query: Seq<char>,
    current: Option<Seq<char>>,
)
    ensures
        provider_rows(providers, query, current) == providers.filter(
            |p: ProviderChoice| survives(query, p.route@, p.display_name@),
        ).map_values(|p: ProviderChoice| provider_row(p, current)),
    decreases providers.len(),
{
    let keep = |p: ProviderChoice| survives(query, p.route@, p.display_name@);
    let row = |p: ProviderChoice| provider_row(p, current);
    reveal(Seq::filter);
    if providers.len() > 0 {
        let init = providers.drop_last();
        lemma_provider_rows(init, query, current);
        assert(init.filter(keep).push(providers.last()).map_values(row) =~= init.filter(
            keep,
        ).map_values(row).push(row(providers.last())));
    }
    assert(provider_rows(providers, query, current) =~= providers.filter(keep).map_values(row));
}

proof fn lemma_server_rows(servers: Seq<McpServer>, query: Seq<char>)
    ensures
        server_rows(servers, query) == servers.filter(
            |s: McpServer| survives(query, s.name@, s.name@),
        ).map_values(|s: McpServer| server_row(s)),
    decreases servers.len(),
{
    let keep = |s: McpServer| survives(query, s.name@, s.name@);
    let row = |s: McpServer| server_row(s);
    reveal(Seq::filter);
    if servers.len() > 0 {
        let init = servers.drop_last();
        lemma_server_rows(init, query);
        assert(init.filter(keep).push(servers.last()).map_values(row) =~= init.filter(
            keep,
        ).map_values(row).push(row(servers.last())));
    }
    assert(server_rows(servers, query) =~= servers.filter(keep).map_values(row));
}

proof fn lemma_policy_rows(policies: Seq<PolicyChoice>, query: Seq<char>, current: ApprovalPolicy)
    ensures
        policy_rows(policies, query, current) == policies.filter(
            |p: PolicyChoice| survives(query, policy_word(p.policy), policy_word(p.policy)),
        ).map_values(|p: PolicyChoice| policy_row(p, current)),
    decreases policies.len(),
{
    let keep = |p: PolicyChoice| survives(query, policy_word(p.policy), policy_word(p.policy));
    let row = |p: PolicyChoice| policy_row(p, current);
    reveal(Seq::filter);
    if policies.len() > 0 {
        let init = policies.drop_last();
        lemma_policy_rows(init, query, current);
        assert(init.filter(keep).push(policies.last()).map_values(row) =~= init.filter(
            keep,
        ).map_values(row).push(row(policies.last())));
    }
    assert(policy_rows(policies, query, current) =~= policies.filter(keep).map_values(row));
}

/// What is said of a server is the freshest and most pressing thing there is: a login under way,
/// then that it is not trusted, and only for a trusted remote one whether it is signed in to. The
/// mark stands on a server that needs nothing.
pub proof fn a_server_says_what_it_needs(server: McpServer)
    ensures
        server.activity is Some ==> server_state(server) == server.activity->0@,
        server.activity is None && !server.allowed ==> server_state(server)
            == "held back — keke plugin trust "@ + server.plugin@,
        server.activity is None && server.allowed && !server.remote ==> server_state(server)
            == "local"@,
        server.activity is None && server.allowed && server.remote && server.signed_in
            ==> server_state(server) == "signed in"@,
        server_row(server).current <==> server.allowed && (server.remote ==> server.signed_in),
{
}

/// What is shown of a list is as many of its rows as there is room for, in order and with none left
/// out between them, the highlighted one among them and it alone highlighted.
pub proof fn the_highlighted_row_is_shown(
    query: Seq<char>,
    rows: Seq<RowView>,
    selected: nat,
    visible: nat,
) -> (first: int)
    requires
        visible > 0,
        selected < rows.len(),
    ensures
        0 <= first <= selected < first + visible,
        ({
            let lines = panel_lines(query, rows, selected, visible);
            &&& lines.len() == 1 + (if rows.len() - first < visible {
                rows.len() - first
            } else {
                visible as int
            })
            &&& lines[0] == filter_line(query)
            &&& forall|i: int|
                1 <= i < lines.len() ==> {
                    let row = rows[first + i - 1];
                    let highlighted = first + i - 1 == selected;
                    let spans = (#[trigger] lines[i]).spans;
                    &&& spans.len() == 2
                    &&& spans[0].content == seq![
                        ' ',
                        if row.current {
                            '*'
                        } else {
                            ' '
                        },
                        ' ',
                    ] + row.label + seq![' ']
                    &&& spans[1].content == row.detail
                    &&& spans[0].style.bg is Some <==> highlighted
                    &&& spans[1].style.bg is Some <==> highlighted
                }
        }),
{
    reveal_strlit(" ");
    reveal_strlit("*");
    let first = first_shown(selected, visible);
    let lines = panel_lines(query, rows, selected, visible);
    assert forall|i: int| 1 <= i < lines.len() implies {
        let row = rows[first + i - 1];
        let highlighted = first + i - 1 == selected;
        let spans = (#[trigger] lines[i]).spans;
        &&& spans.len() == 2
        &&& spans[0].content == seq![
            ' ',
            if row.current {
                '*'
            } else {
                ' '
            },
            ' ',
        ] + row.label + seq![' ']
        &&& spans[1].content == row.detail
        &&& spans[0].style.bg is Some <==> highlighted
        &&& spans[1].style.bg is Some <==> highlighted
    } by {
        let row = rows[first + i - 1];
        let mark = if row.current {
            "*"@
        } else {
            " "@
        };
        assert(lines[i] == list_line(row, first + i - 1 == selected));
        assert(" "@ + mark + " "@ + row.label + " "@ =~= seq![
            ' ',
            if row.current {
                '*'
            } else {
                ' '
            },
            ' ',
        ] + row.label + seq![' ']);
    }
    first as int
}

} // verus!

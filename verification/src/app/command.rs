//! What a person asks for: prompts, commands, models, and the overlays that choose between them.

use vstd::prelude::*;
use crate::app::{App, AppView, Effect, EffectView, Override, OverrideView, SessionMode};
use crate::app::routes::{route_ref_views, server_ref_views, shown_routes, shown_servers};
use crate::input::InputView;
use crate::picker::{clamped, survives, Picker, PickerKind, PickerView};
use crate::protocol::{effort_word, ApprovalPolicy, ReasoningEffort};
use crate::provider::{model_views, ModelInfo, ModelView};
use crate::slash;
use crate::slash::{
    beginning, found, next_on, parsed, policy_word, rungs_of, Builtin, SlashAction,
    SlashActionView, SlashCommand, SlashCommandView,
};
use crate::text;
use crate::text::{after_prefix, decimal_of, joined, texts, trimmed, white_space};
use crate::transcript::{Cell, CellView};

verus! {

/// Whether there is nothing in a buffer.
pub open spec fn is_blank(input: InputView) -> bool {
    forall|i: int| 0 <= i < input.lines.len() ==> #[trigger] input.lines[i].len() == 0
}

/// The completions for what is being typed. Only while the name is still being typed: once there
/// is a space, the person is writing arguments and a menu over their text is in the way.
pub open spec fn completions_of(commands: Seq<SlashCommandView>, input: InputView) -> Seq<
    SlashCommandView,
> {
    if input.lines.len() > 1 {
        Seq::empty()
    } else {
        match after_prefix(input.text(), "/"@) {
            None => Seq::empty(),
            Some(prefix) => if exists|i: int|
                0 <= i < prefix.len() && white_space(#[trigger] prefix[i]) {
                Seq::empty()
            } else {
                beginning(commands, prefix)
            },
        }
    }
}

/// The model with an id, searched from `i` on.
pub open spec fn model_at(models: Seq<ModelView>, id: Seq<char>, i: int) -> Option<int>
    decreases models.len() - i,
{
    if i < 0 || i >= models.len() {
        None
    } else if models[i].id == id {
        Some(i)
    } else {
        model_at(models, id, i + 1)
    }
}

/// The levels that a model takes, or nothing when it did not say. Empty is not "no reasoning": it
/// is "the vendor published no ladder".
pub open spec fn offered_by(models: Seq<ModelView>, id: Seq<char>) -> Seq<ReasoningEffort> {
    match model_at(models, id, 0) {
        Some(i) => models[i].reasoning_efforts,
        None => Seq::empty(),
    }
}

/// The models that survive a filter.
pub open spec fn shown_models(models: Seq<ModelView>, query: Seq<char>) -> Seq<ModelView>
    decreases models.len(),
{
    if models.len() == 0 {
        Seq::empty()
    } else {
        let before = shown_models(models.drop_last(), query);
        if survives(query, models.last().id, models.last().display_name) {
            before.push(models.last())
        } else {
            before
        }
    }
}

/// Every approval policy, the most careful first.
pub open spec fn all_policies() -> Seq<ApprovalPolicy> {
    seq![ApprovalPolicy::OnRequest, ApprovalPolicy::OnFailure, ApprovalPolicy::Never]
}

/// The policies that survive a filter.
pub open spec fn shown_policies(policies: Seq<ApprovalPolicy>, query: Seq<char>) -> Seq<
    ApprovalPolicy,
>
    decreases policies.len(),
{
    if policies.len() == 0 {
        Seq::empty()
    } else {
        let before = shown_policies(policies.drop_last(), query);
        let word = policy_word(policies.last());
        if survives(query, word, word) {
            before.push(policies.last())
        } else {
            before
        }
    }
}

/// The words for some levels.
pub open spec fn level_words(efforts: Seq<ReasoningEffort>) -> Seq<Seq<char>> {
    efforts.map_values(|e: ReasoningEffort| effort_word(e))
}

/// The entry of one model in a list of them.
pub open spec fn model_entry(model: ModelView, current: Seq<char>) -> Seq<char> {
    let head = "\n "@ + (if model.id == current {
        "*"@
    } else {
        " "@
    }) + " "@ + model.display_name + " ("@ + model.id + ")"@;
    let sized = match model.context_window {
        Some(window) => head + "  ·  "@ + decimal_of((window / 1_000) as nat) + "k context"@,
        None => head,
    };
    let graded = if model.reasoning_efforts.len() > 0 {
        sized + "  ·  effort: "@ + joined(level_words(model.reasoning_efforts), ", "@)
    } else {
        sized
    };
    match model.description {
        Some(description) => graded + "\n      "@ + description,
        None => graded,
    }
}

/// The entries of some models in a list of them.
pub open spec fn model_entries(models: Seq<ModelView>, current: Seq<char>) -> Seq<char>
    decreases models.len(),
{
    if models.len() == 0 {
        Seq::empty()
    } else {
        model_entries(models.drop_last(), current) + model_entry(models.last(), current)
    }
}

/// What there is to say about the models a provider serves.
pub open spec fn models_text(models: Seq<ModelView>, current: Seq<char>) -> Seq<char> {
    if models.len() == 0 {
        "model: "@ + (if current.len() == 0 {
            "(unset)"@
        } else {
            current
        })
            + "\n\nThis provider published no model list, so there is nothing to \nchoose between here. `/model <id>` still switches to whatever you name."@
    } else {
        "models:"@ + model_entries(models, current)
            + "\n\n/model <id> switches; /effort sets how hard it thinks."@
    }
}

/// The lines of some commands.
pub open spec fn command_lines(commands: Seq<SlashCommandView>) -> Seq<char>
    decreases commands.len(),
{
    if commands.len() == 0 {
        Seq::empty()
    } else {
        command_lines(commands.drop_last()) + "\n  /"@ + commands.last().name + " — "@
            + commands.last().description
    }
}

/// What `/help` says.
pub open spec fn help_of(commands: Seq<SlashCommandView>) -> Seq<char> {
    "keys:\n  ctrl-o — expand or collapse the newest thought or run of calls\n  ctrl-t — show or hide reasoning\n  drag to select and copy; click a tool call to expand it\n\ncommands:"@
        + command_lines(commands)
}

/// How a text reads between quotes, with what does not print escaped.
pub uninterp spec fn debug_form(s: Seq<char>) -> Seq<char>;

/// `<str as std::fmt::Debug>::fmt`. What it escapes is std's; of printable ASCII without a quote
/// and a backslash it is claimed that it stands between quotes as it is.
#[verifier::external_body]
pub(crate) fn debug_text(s: &str) -> (r: String)
    ensures
        r@ == debug_form(s@),
        (forall|i: int|
            0 <= i < s@.len() ==> ' ' <= #[trigger] s@[i] <= '~' && s@[i] != '"' && s@[i] != '\\')
            ==> r@ == "\""@ + s@ + "\""@,
{
    format!("{s:?}")
}

/// The policy that the gesture for it goes to next, and the mode where it changes: one ladder
/// from the tightest rung to the loosest and around. Planning is the tightest, and a rung means
/// one thing rather than one thing plus what was under it.
pub open spec fn next_rung(mode: SessionMode, policy: ApprovalPolicy) -> (
    ApprovalPolicy,
    Option<SessionMode>,
) {
    if mode == SessionMode::Plan {
        (ApprovalPolicy::OnRequest, Some(SessionMode::Default))
    } else {
        match policy {
            ApprovalPolicy::OnRequest => (ApprovalPolicy::OnFailure, None),
            ApprovalPolicy::OnFailure => (ApprovalPolicy::Never, None),
            ApprovalPolicy::Never => (ApprovalPolicy::OnRequest, Some(SessionMode::Plan)),
        }
    }
}

impl AppView {
    /// Which completion is highlighted, clamped to what is on screen.
    pub open spec fn highlighted(self) -> int {
        let count = completions_of(self.commands, self.input).len();
        if count == 0 {
            0
        } else if self.completion < count {
            self.completion
        } else {
            count - 1
        }
    }

    /// With the next completion highlighted, or the previous one, around the ends.
    pub open spec fn completion_moved(self, forward: bool) -> AppView {
        let count = completions_of(self.commands, self.input).len() as int;
        AppView {
            completion: if count == 0 {
                self.completion
            } else if forward {
                if self.highlighted() + 1 < count {
                    self.highlighted() + 1
                } else {
                    0
                }
            } else if self.highlighted() > 0 {
                self.highlighted() - 1
            } else {
                count - 1
            },
            ..self
        }
    }

    /// With the highlighted completion in the input box, ready for arguments.
    pub open spec fn completed(self) -> AppView {
        let all = completions_of(self.commands, self.input);
        if all.len() == 0 {
            self
        } else {
            AppView {
                input: InputView::blank().inserted("/"@ + all[self.highlighted()].name + " "@),
                completion: 0,
                ..self
            }
        }
    }

    /// With a policy in force.
    pub open spec fn under(self, policy: ApprovalPolicy) -> AppView {
        AppView { approval: policy, ..self }.asked(EffectView::SetPolicy(policy))
    }

    /// With a setting on its way to the configuration.
    pub open spec fn persisted(self, change: OverrideView) -> AppView {
        self.asked(EffectView::Persist(change))
    }

    /// With the next rung of the ladder of policies in force.
    pub open spec fn policy_cycled(self) -> AppView {
        let (policy, mode) = next_rung(self.mode, self.approval);
        let now = self.under(policy).persisted(OverrideView::Policy(policy));
        match mode {
            Some(mode) => now.asked(EffectView::SetMode(mode)),
            None => now,
        }
    }

    /// With a level in force.
    pub open spec fn at_effort(self, effort: Option<ReasoningEffort>) -> AppView {
        AppView { effort, ..self }.asked(EffectView::SetEffort(effort))
    }

    /// With a level in force and on its way to the configuration.
    pub open spec fn with_effort(self, effort: Option<ReasoningEffort>) -> AppView {
        self.at_effort(effort).persisted(OverrideView::Effort(effort))
    }

    /// With another model answering, or word of why not. A model the provider does not serve is
    /// refused rather than sent. When the provider could not be asked at all the list is empty
    /// and nothing is refused. A level the new model does not take is dropped.
    pub open spec fn with_model(self, wanted: Seq<char>) -> AppView {
        if self.models.len() > 0 && model_at(self.models, wanted, 0) is None {
            self.said(
                CellView::Error(
                    "no model "@ + debug_form(wanted)
                        + " on this provider — /model lists them"@,
                ),
            )
        } else {
            let now = AppView { model: wanted, ..self }.asked(
                EffectView::SetModel(wanted),
            ).persisted(OverrideView::Model(wanted));
            let offered = offered_by(self.models, wanted);
            match self.effort {
                Some(level) => if offered.len() > 0 && !offered.contains(level) {
                    now.at_effort(None).said(
                        CellView::Notice(
                            wanted + " does not take "@ + effort_word(level)
                                + " — reasoning effort is back to the model's default"@,
                        ),
                    )
                } else {
                    now
                },
                None => now,
            }
        }
    }

    /// With the model overlay open on the model in force, or word of why there is nothing to
    /// open.
    pub open spec fn choosing_model(self) -> AppView {
        if self.models.len() == 0 {
            self.said(CellView::Notice(models_text(self.models, self.model)))
        } else {
            AppView {
                picker: Some(
                    PickerView {
                        kind: PickerKind::Model,
                        query: Seq::empty(),
                        selected: match model_at(self.models, self.model, 0) {
                            Some(i) => i as nat,
                            None => 0,
                        },
                    },
                ),
                ..self
            }
        }
    }

    /// How many rows the overlay is showing.
    pub open spec fn picker_count(self) -> nat {
        match self.picker {
            None => 0,
            Some(picker) => match picker.kind {
                PickerKind::Model => shown_models(self.models, picker.query).len(),
                PickerKind::Policy => shown_policies(all_policies(), picker.query).len(),
                PickerKind::Provider => shown_routes(self.routes, picker.query).len(),
                PickerKind::Mcp => shown_servers(self.servers, picker.query).len(),
            },
        }
    }

    /// With the highlight of the overlay moved, around the ends of the list.
    pub open spec fn picker_moved(self, delta: int) -> AppView {
        match self.picker {
            None => self,
            Some(picker) => AppView {
                picker: Some(
                    PickerView {
                        selected: if self.picker_count() == 0 {
                            picker.selected
                        } else {
                            ((clamped(picker.selected, self.picker_count()) + delta) % (
                            self.picker_count() as int)) as nat
                        },
                        ..picker
                    },
                ),
                ..self
            },
        }
    }

    /// With another filter in the overlay.
    pub open spec fn picker_filtered(self, query: Seq<char>) -> AppView {
        match self.picker {
            None => self,
            Some(picker) => AppView { picker: Some(PickerView { query, ..picker }), ..self },
        }
    }

    /// With the overlay closed.
    pub open spec fn picker_closed(self) -> AppView {
        AppView { picker: None, ..self }
    }

    /// The last reply, or what is typed, on its way.
    pub open spec fn submitted(self) -> AppView {
        if is_blank(self.input) {
            self
        } else {
            let typed = self.input.text();
            let now = AppView {
                input: InputView::blank(),
                history: self.history.submitted(typed),
                ..self
            };
            match parsed(trimmed(typed)) {
                Some((name, arguments)) => now.commanded(typed, name, arguments),
                None => now.said(CellView::User(typed)).sent(typed),
            }
        }
    }

    /// With a command run.
    pub open spec fn commanded(
        self,
        typed: Seq<char>,
        name: Seq<char>,
        arguments: Seq<char>,
    ) -> AppView {
        match found(self.commands, name) {
            None => self.said(
                CellView::Error("unknown command /"@ + name + " — /help lists them"@),
            ),
            Some(i) => match self.commands[i].action {
                SlashActionView::Prompt(path) => self.asked(
                    EffectView::ReadCommand { path, typed: trimmed(typed), arguments },
                ),
                SlashActionView::Builtin(command) => self.ordered(command, arguments),
            },
        }
    }

    /// With one of the surface's own commands run.
    pub open spec fn ordered(self, command: Builtin, arguments: Seq<char>) -> AppView {
        match command {
            Builtin::Help => self.said(CellView::Notice(help_of(self.commands))),
            Builtin::Clear => self.wiped(),
            Builtin::New => self.asked(EffectView::NewSession),
            Builtin::Quit => AppView { should_quit: true, ..self },
            Builtin::Copy => self.reply_copied(),
            Builtin::Effort => self.effort_ordered(trimmed(arguments)),
            Builtin::Model => if trimmed(arguments).len() == 0 {
                self.choosing_model()
            } else {
                self.with_model(trimmed(arguments))
            },
            Builtin::Plan => {
                let now = self.asked(EffectView::SetMode(SessionMode::Plan));
                if trimmed(arguments).len() == 0 {
                    now
                } else {
                    now.said(CellView::User(trimmed(arguments))).sent(trimmed(arguments))
                }
            },
            Builtin::ViewPlan => self.plan_reopened(),
            Builtin::Provider => self.provider_ordered(trimmed(arguments)),
            Builtin::Mcp => self.mcp_ordered(trimmed(arguments)),
        }
    }

    /// With the last reply on its way to the clipboard.
    pub open spec fn reply_copied(self) -> AppView {
        match crate::app::last_reply(self.transcript.cells) {
            Some(reply) => if trimmed(reply).len() > 0 {
                self.copied(reply)
            } else {
                self.flashed("nothing to copy yet"@)
            },
            None => self.flashed("nothing to copy yet"@),
        }
    }

    /// With the level that was named, or the next one where none was.
    pub open spec fn effort_ordered(self, word: Seq<char>) -> AppView {
        if word.len() == 0 {
            self.with_effort(
                next_on(self.effort, rungs_of(offered_by(self.models, self.model))),
            )
        } else if word == "default"@ || word == "unset"@ {
            self.with_effort(None)
        } else {
            match crate::protocol::effort_named(word) {
                Some(level) => self.with_effort(Some(level)),
                None => self.said(
                    CellView::Error("unknown reasoning effort `"@ + word + "`"@),
                ),
            }
        }
    }

    /// With the file of a command read: what the person typed is what they see; the body goes to
    /// the model, not onto their screen.
    pub open spec fn command_answered(
        self,
        path: Seq<char>,
        typed: Seq<char>,
        arguments: Seq<char>,
        body: Result<Seq<char>, Seq<char>>,
    ) -> AppView {
        match body {
            Ok(body) => self.said(CellView::User(trimmed(typed))).sent(
                if arguments.len() == 0 {
                    body
                } else {
                    body + "\n\n"@ + arguments
                },
            ),
            Err(error) => self.said(CellView::Error("reading "@ + path + ": "@ + error)),
        }
    }
}

/// Where a model stands in a list.
fn find_model(models: &Vec<ModelInfo>, id: &str) -> (r: Option<usize>)
    ensures
        match model_at(model_views(models@), id@, 0) {
            Some(i) => r is Some && r->0 == i,
            None => r is None,
        },
        r is Some ==> r->0 < models.len(),
{
    let ghost views = model_views(models@);
    let mut i: usize = 0;
    while i < models.len()
        invariant
            i <= models.len(),
            views == model_views(models@),
            model_at(views, id@, 0) == model_at(views, id@, i as int),
        decreases models.len() - i,
    {
        assert(views[i as int] == models@[i as int]@);
        if text::eq(models[i].id.as_str(), id) {
            return Some(i);
        }
        i += 1;
    }
    None
}

/// The entry of one model in a list of them.
fn list_model(model: &ModelInfo, current: &str) -> (r: String)
    ensures
        r@ == model_entry(model@, current@),
{
    let mark = if text::eq(model.id.as_str(), current) {
        "*"
    } else {
        " "
    };
    let mut r = text::concat3("\n ", mark, " ");
    r.append(model.display_name.as_str());
    r.append(" (");
    r.append(model.id.as_str());
    r.append(")");
    if let Some(window) = model.context_window {
        let thousands = text::decimal(window / 1_000);
        r.append("  ·  ");
        r.append(thousands.as_str());
        r.append("k context");
    }
    if model.reasoning_efforts.len() > 0 {
        let words = effort_words(&model.reasoning_efforts);
        let levels = text::join(&words, ", ");
        r.append("  ·  effort: ");
        r.append(levels.as_str());
    }
    if let Some(description) = &model.description {
        r.append("\n      ");
        r.append(description.as_str());
    }
    r
}

/// The words for some levels.
fn effort_words(efforts: &Vec<ReasoningEffort>) -> (r: Vec<String>)
    ensures
        texts(r@) == level_words(efforts@),
{
    let ghost all = level_words(efforts@);
    let mut words = text::no_texts();
    let mut i: usize = 0;
    assert(texts(words@) =~= all.take(0));
    while i < efforts.len()
        invariant
            i <= efforts.len(),
            all == level_words(efforts@),
            texts(words@) == all.take(i as int),
        decreases efforts.len() - i,
    {
        text::push_text(&mut words, efforts[i].as_str());
        i += 1;
        assert(all.take(i as int) =~= all.take(i - 1).push(all[i - 1]));
    }
    assert(all.take(i as int) =~= all);
    words
}

/// Whether a level is among some.
fn has_level(offered: &Vec<ReasoningEffort>, level: ReasoningEffort) -> (r: bool)
    ensures
        r == offered@.contains(level),
{
    let mut i: usize = 0;
    while i < offered.len()
        invariant
            i <= offered.len(),
            forall|k: int| 0 <= k < i ==> offered@[k] != level,
        decreases offered.len() - i,
    {
        if offered[i] == level {
            assert(offered@[i as int] == level);
            return true;
        }
        i += 1;
    }
    false
}

/// What some commands say.
pub open spec fn command_ref_views(commands: Seq<&SlashCommand>) -> Seq<SlashCommandView> {
    commands.map_values(|c: &SlashCommand| c@)
}

/// What some models say.
pub open spec fn model_ref_views(models: Seq<&ModelInfo>) -> Seq<ModelView> {
    models.map_values(|m: &ModelInfo| m@)
}

/// Typing the rest of a text behind what is typed.
proof fn lemma_typed(view: InputView, run: Seq<char>, c: char)
    requires
        view.valid(),
    ensures
        view.inserted(run).inserted(seq![c]) == view.inserted(run.push(c)),
        view.inserted(run).valid(),
{
    let once = view.inserted(run);
    let line = view.head() + run + view.tail();
    assert(once.line() =~= line);
    assert(once.head() =~= view.head() + run);
    assert(once.tail() =~= view.tail());
    assert(once.head() + seq![c] =~= view.head() + run.push(c));
    assert(once.inserted(seq![c]).lines =~= view.inserted(run.push(c)).lines);
}

impl App {
    /// The completions for what is being typed, or nothing.
    pub fn completions(&self) -> (r: Vec<&SlashCommand>)
        ensures
            command_ref_views(r@) == completions_of(self@.commands, self@.input),
    {
        let none: Vec<&SlashCommand> = Vec::new();
        assert(command_ref_views(none@) =~= Seq::empty());
        if self.input.rows() > 1 {
            return none;
        }
        let typed = self.input.text();
        let Some(prefix) = text::strip_prefix(typed.as_str(), "/") else {
            return none;
        };
        let v = text::to_chars(prefix.as_str());
        let mut i: usize = 0;
        while i < v.len()
            invariant
                i <= v.len(),
                v@ == prefix@,
                forall|k: int| 0 <= k < i ==> !white_space(#[trigger] v@[k]),
                self@.input.lines.len() <= 1,
                after_prefix(self@.input.text(), "/"@) == Some(prefix@),
                command_ref_views(none@) == Seq::<SlashCommandView>::empty(),
            decreases v.len() - i,
        {
            if text::is_white_space(v[i]) {
                assert(white_space(prefix@[i as int]));
                return none;
            }
            i += 1;
        }
        let r = self.commands.matching(prefix.as_str());
        assert(command_ref_views(r@) =~= beginning(self@.commands, prefix@));
        r
    }

    /// Which completion is highlighted, clamped to what is on screen.
    pub fn completion(&self) -> (r: usize)
        ensures
            r == self@.highlighted(),
    {
        let all = self.completions();
        assert(command_ref_views(all@).len() == all.len());
        if all.len() == 0 {
            0
        } else if self.completion < all.len() {
            self.completion
        } else {
            all.len() - 1
        }
    }

    /// Highlights the next completion.
    pub fn select_next_completion(&mut self)
        ensures
            final(self)@ == old(self)@.completion_moved(true),
    {
        let count: usize = self.completion_count();
        if count > 0 {
            let at = self.completion();
            self.completion = if at + 1 < count {
                at + 1
            } else {
                0
            };
        }
    }

    /// Highlights the previous completion.
    pub fn select_previous_completion(&mut self)
        ensures
            final(self)@ == old(self)@.completion_moved(false),
    {
        let count: usize = self.completion_count();
        if count > 0 {
            let at = self.completion();
            self.completion = if at > 0 {
                at - 1
            } else {
                count - 1
            };
        }
    }

    fn completion_count(&self) -> (r: usize)
        ensures
            r == completions_of(self@.commands, self@.input).len(),
    {
        let all = self.completions();
        assert(command_ref_views(all@).len() == all.len());
        all.len()
    }

    /// Puts the highlighted completion in the input box, ready for arguments.
    pub fn complete(&mut self)
        requires
            old(self)@.valid(),
        ensures
            final(self)@ == old(self)@.completed(),
            final(self)@.valid(),
    {
        let at = self.completion();
        let all = self.completions();
        assert(command_ref_views(all@).len() == all.len());
        if all.len() == 0 {
            return ;
        }
        assert(command_ref_views(all@)[at as int] == all@[at as int]@);
        let line = text::concat3("/", all[at].name.as_str(), " ");
        let v = text::to_chars(line.as_str());
        self.input.clear();
        let ghost start = self@;
        let mut i: usize = 0;
        proof {
            let blank = InputView::blank();
            assert(blank.head() + v@.take(0) + blank.tail() =~= blank.line());
            assert(blank.inserted(v@.take(0)).lines =~= blank.lines);
        }
        assert(InputView::blank().inserted(v@.take(0)) == InputView::blank());
        while i < v.len()
            invariant
                i <= v.len(),
                self@ == (AppView {
                    input: InputView::blank().inserted(v@.take(i as int)),
                    ..start
                }),
                self@.input.valid(),
            decreases v.len() - i,
        {
            proof {
                assert(InputView::blank().valid());
                lemma_typed(InputView::blank(), v@.take(i as int), v@[i as int]);
                assert(v@.take(i as int + 1) =~= v@.take(i as int).push(v@[i as int]));
            }
            self.input.insert_char(v[i]);
            i += 1;
        }
        assert(v@.take(i as int) =~= line@);
        self.completion = 0;
    }

    /// Puts a policy in force.
    pub fn set_approval_policy(&mut self, policy: ApprovalPolicy)
        ensures
            final(self)@ == old(self)@.under(policy),
    {
        self.approval = policy;
        self.ask(Effect::SetPolicy(policy));
    }

    /// Puts a policy in force and writes it back to the configuration.
    pub fn set_approval_policy_aloud(&mut self, policy: ApprovalPolicy)
        ensures
            final(self)@ == old(self)@.under(policy).persisted(OverrideView::Policy(policy)),
    {
        self.set_approval_policy(policy);
        self.ask(Effect::Persist(Override::Policy(policy)));
    }

    /// Asks the session for a mode. It is in force only once the agent says so.
    pub fn request_session_mode(&mut self, mode: SessionMode)
        ensures
            final(self)@ == old(self)@.asked(EffectView::SetMode(mode)),
    {
        self.ask(Effect::SetMode(mode));
    }

    /// Goes to the next rung of the ladder of policies. Silent by design: the gesture is meant to
    /// be tapped through while looking at the status bar.
    pub fn cycle_approval_policy(&mut self)
        ensures
            final(self)@ == old(self)@.policy_cycled(),
    {
        let (policy, mode) = if self.mode == SessionMode::Plan {
            (ApprovalPolicy::OnRequest, Some(SessionMode::Default))
        } else {
            match self.approval {
                ApprovalPolicy::OnRequest => (ApprovalPolicy::OnFailure, None),
                ApprovalPolicy::OnFailure => (ApprovalPolicy::Never, None),
                ApprovalPolicy::Never => (ApprovalPolicy::OnRequest, Some(SessionMode::Plan)),
            }
        };
        self.set_approval_policy_aloud(policy);
        if let Some(mode) = mode {
            self.request_session_mode(mode);
        }
    }

    pub fn reasoning_effort(&self) -> (r: Option<ReasoningEffort>)
        ensures
            r == self@.effort,
    {
        self.effort
    }

    /// Puts a level in force.
    pub fn set_reasoning_effort(&mut self, effort: Option<ReasoningEffort>)
        ensures
            final(self)@ == old(self)@.at_effort(effort),
    {
        self.effort = effort;
        self.ask(Effect::SetEffort(effort));
    }

    fn set_reasoning_effort_aloud(&mut self, effort: Option<ReasoningEffort>)
        ensures
            final(self)@ == old(self)@.with_effort(effort),
    {
        self.set_reasoning_effort(effort);
        self.ask(Effect::Persist(Override::Effort(effort)));
    }

    /// Which model is answering.
    pub fn model(&self) -> (r: &str)
        ensures
            r@ == self@.model,
    {
        self.model.as_str()
    }

    /// What this session's provider serves.
    pub fn models(&self) -> (r: &Vec<ModelInfo>)
        ensures
            model_views(r@) == self@.models,
    {
        &self.models
    }

    /// The levels a model takes, or nothing when it did not say.
    fn offered_efforts(&self, id: &str) -> (r: Vec<ReasoningEffort>)
        ensures
            r@ == offered_by(self@.models, id@),
    {
        let mut r: Vec<ReasoningEffort> = Vec::new();
        match find_model(&self.models, id) {
            Some(at) => {
                let efforts = &self.models[at].reasoning_efforts;
                assert(self@.models[at as int] == self.models@[at as int]@);
                let mut i: usize = 0;
                while i < efforts.len()
                    invariant
                        i <= efforts.len(),
                        r@ == efforts@.take(i as int),
                    decreases efforts.len() - i,
                {
                    r.push(efforts[i]);
                    i += 1;
                    assert(efforts@.take(i as int) =~= efforts@.take(i - 1).push(efforts@[i - 1]));
                }
                assert(efforts@.take(i as int) =~= efforts@);
                r
            },
            None => {
                assert(r@ =~= Seq::empty());
                r
            },
        }
    }

    /// Switches models, or says why not.
    pub fn set_model_aloud(&mut self, wanted: &str)
        ensures
            final(self)@ == old(self)@.with_model(wanted@),
    {
        assert(self@.models.len() == self.models.len());
        if self.models.len() > 0 && find_model(&self.models, wanted).is_none() {
            let quoted = debug_text(wanted);
            let said = text::concat3(
                "no model ",
                quoted.as_str(),
                " on this provider — /model lists them",
            );
            self.say(Cell::Error(said));
            return ;
        }
        let offered = self.offered_efforts(wanted);
        self.model = text::copy(wanted);
        self.ask(Effect::SetModel(text::copy(wanted)));
        self.ask(Effect::Persist(Override::Model(text::copy(wanted))));
        if let Some(level) = self.effort {
            if offered.len() > 0 && !has_level(&offered, level) {
                self.set_reasoning_effort(None);
                let mut said = text::concat3(wanted, " does not take ", level.as_str());
                said.append(" — reasoning effort is back to the model's default");
                self.say(Cell::Notice(said));
            }
        }
    }

    /// Opens the model overlay, or says why there is nothing to open. A provider that published no
    /// list is not an empty menu: the person is told to type a name rather than shown a box with
    /// nothing in it.
    pub fn open_model_picker(&mut self)
        ensures
            final(self)@ == old(self)@.choosing_model(),
    {
        assert(self@.models.len() == self.models.len());
        if self.models.len() == 0 {
            let said = self.model_list();
            self.say(Cell::Notice(said));
            return ;
        }
        let at: usize = match find_model(&self.models, self.model.as_str()) {
            Some(at) => at,
            None => 0,
        };
        self.picker = Some(Picker::at(PickerKind::Model, at));
    }

    /// The overlay, while one is open.
    pub fn picker(&self) -> (r: Option<&Picker>)
        ensures
            match self@.picker {
                Some(picker) => r is Some && r->0@ == picker,
                None => r is None,
            },
    {
        self.picker.as_ref()
    }

    /// The model overlay, while it is open.
    pub fn model_picker(&self) -> (r: Option<&Picker>)
        ensures
            match self@.picker {
                Some(picker) => if picker.kind == PickerKind::Model {
                    r is Some && r->0@ == picker
                } else {
                    r is None
                },
                None => r is None,
            },
    {
        match &self.picker {
            Some(picker) => if picker.kind() == PickerKind::Model {
                Some(picker)
            } else {
                None
            },
            None => None,
        }
    }

    /// The rows the model overlay is showing, after its filter.
    pub fn picker_models(&self) -> (r: Vec<&ModelInfo>)
        ensures
            model_ref_views(r@) == match self@.picker {
                Some(picker) => if picker.kind == PickerKind::Model {
                    shown_models(self@.models, picker.query)
                } else {
                    Seq::empty()
                },
                None => Seq::empty(),
            },
    {
        let mut shown: Vec<&ModelInfo> = Vec::new();
        assert(model_ref_views(shown@) =~= Seq::empty());
        let Some(picker) = self.model_picker() else {
            return shown;
        };
        let ghost all = self@.models;
        let mut i: usize = 0;
        assert(all.take(0) =~= Seq::empty());
        while i < self.models.len()
            invariant
                i <= self.models.len(),
                all == model_views(self.models@),
                model_ref_views(shown@) == shown_models(all.take(i as int), picker@.query),
            decreases self.models.len() - i,
        {
            let ghost before = model_ref_views(shown@);
            assert(all[i as int] == self.models@[i as int]@);
            assert(all.take(i as int + 1).drop_last() =~= all.take(i as int));
            if picker.matches(&self.models[i]) {
                shown.push(&self.models[i]);
                assert(model_ref_views(shown@) =~= before.push(all[i as int]));
            }
            i += 1;
        }
        assert(all.take(i as int) =~= all);
        shown
    }

    /// The rows the policy overlay is showing, after its filter.
    pub fn picker_policies(&self) -> (r: Vec<ApprovalPolicy>)
        ensures
            r@ == match self@.picker {
                Some(picker) => if picker.kind == PickerKind::Policy {
                    shown_policies(all_policies(), picker.query)
                } else {
                    Seq::empty()
                },
                None => Seq::empty(),
            },
    {
        let mut shown: Vec<ApprovalPolicy> = Vec::new();
        assert(shown@ =~= Seq::empty());
        let Some(picker) = &self.picker else {
            return shown;
        };
        if picker.kind() != PickerKind::Policy {
            return shown;
        }
        let policies = vec![
            ApprovalPolicy::OnRequest,
            ApprovalPolicy::OnFailure,
            ApprovalPolicy::Never,
        ];
        assert(policies@ =~= all_policies());
        let mut i: usize = 0;
        assert(policies@.take(0) =~= Seq::empty());
        while i < policies.len()
            invariant
                i <= policies.len(),
                shown@ == shown_policies(policies@.take(i as int), picker@.query),
            decreases policies.len() - i,
        {
            assert(policies@.take(i as int + 1).drop_last() =~= policies@.take(i as int));
            let choice = PolicyWord { policy: policies[i] };
            if picker.matches(&choice) {
                shown.push(policies[i]);
            }
            i += 1;
        }
        assert(policies@.take(i as int) =~= policies@);
        shown
    }

    fn picker_count(&self) -> (r: usize)
        ensures
            r == self@.picker_count(),
    {
        let models = self.picker_models();
        let policies = self.picker_policies();
        let routes = self.picker_providers();
        let servers = self.picker_mcp();
        assert(model_ref_views(models@).len() == models.len());
        assert(route_ref_views(routes@).len() == routes.len());
        assert(server_ref_views(servers@).len() == servers.len());
        match &self.picker {
            Some(picker) => match picker.kind() {
                PickerKind::Model => models.len(),
                PickerKind::Policy => policies.len(),
                PickerKind::Provider => routes.len(),
                PickerKind::Mcp => servers.len(),
            },
            None => 0,
        }
    }

    /// Which row of the overlay is highlighted.
    pub fn picker_selected(&self) -> (r: usize)
        ensures
            r == match self@.picker {
                Some(picker) => clamped(picker.selected, self@.picker_count()),
                None => 0,
            },
    {
        let count = self.picker_count();
        match &self.picker {
            Some(picker) => picker.selected(count),
            None => 0,
        }
    }

    /// Moves the highlight of the overlay.
    pub fn move_picker_selection(&mut self, delta: isize)
        ensures
            final(self)@ == old(self)@.picker_moved(delta as int),
    {
        let count = self.picker_count();
        if let Some(picker) = self.picker.take() {
            let mut picker = picker;
            picker.move_selection(delta, count);
            self.picker = Some(picker);
        }
    }

    /// One more character to filter by.
    pub fn type_into_picker(&mut self, ch: char)
        ensures
            final(self)@ == match old(self)@.picker {
                Some(picker) => old(self)@.picker_filtered(picker.query.push(ch)),
                None => old(self)@,
            },
    {
        if let Some(picker) = self.picker.take() {
            let mut picker = picker;
            picker.push(ch);
            self.picker = Some(picker);
        }
    }

    /// One character less to filter by.
    pub fn backspace_in_picker(&mut self)
        ensures
            final(self)@ == match old(self)@.picker {
                Some(picker) => old(self)@.picker_filtered(
                    if picker.query.len() > 0 {
                        picker.query.drop_last()
                    } else {
                        picker.query
                    },
                ),
                None => old(self)@,
            },
    {
        if let Some(picker) = self.picker.take() {
            let mut picker = picker;
            picker.backspace();
            self.picker = Some(picker);
        }
    }

    /// Closes the overlay.
    pub fn close_picker(&mut self)
        ensures
            final(self)@ == old(self)@.picker_closed(),
    {
        self.picker = None;
    }

    /// What `/model` says when there is no list to open, and what the list is where there is one.
    pub fn model_list(&self) -> (r: String)
        ensures
            r@ == models_text(self@.models, self@.model),
    {
        assert(self@.models.len() == self.models.len());
        if self.models.len() == 0 {
            let current = if self.model.as_str().unicode_len() == 0 {
                "(unset)"
            } else {
                self.model.as_str()
            };
            return text::concat3(
                "model: ",
                current,
                "\n\nThis provider published no model list, so there is nothing to \nchoose between here. `/model <id>` still switches to whatever you name.",
            );
        }
        let ghost all = self@.models;
        let mut list = text::copy("models:");
        let mut i: usize = 0;
        assert(all.take(0) =~= Seq::empty());
        assert("models:"@ + model_entries(all.take(0), self@.model) =~= "models:"@);
        while i < self.models.len()
            invariant
                i <= self.models.len(),
                all == model_views(self.models@),
                list@ == "models:"@ + model_entries(all.take(i as int), self.model@),
            decreases self.models.len() - i,
        {
            assert(all[i as int] == self.models@[i as int]@);
            assert(all.take(i as int + 1).drop_last() =~= all.take(i as int));
            let entry = list_model(&self.models[i], self.model.as_str());
            list.append(entry.as_str());
            i += 1;
            assert(list@ =~= "models:"@ + model_entries(all.take(i as int), self.model@));
        }
        assert(all.take(i as int) =~= all);
        list.append("\n\n/model <id> switches; /effort sets how hard it thinks.");
        list
    }

    /// What `/help` says.
    pub fn help_text(&self) -> (r: String)
        ensures
            r@ == help_of(self@.commands),
    {
        let entries = self.commands.entries();
        let ghost all = self@.commands;
        let mut help = text::copy(
            "keys:\n  ctrl-o — expand or collapse the newest thought or run of calls\n  ctrl-t — show or hide reasoning\n  drag to select and copy; click a tool call to expand it\n\ncommands:",
        );
        let ghost head = help@;
        let mut i: usize = 0;
        assert(all.take(0) =~= Seq::empty());
        assert(head + command_lines(all.take(0)) =~= head);
        while i < entries.len()
            invariant
                i <= entries.len(),
                all == slash::command_views(entries@),
                help@ == head + command_lines(all.take(i as int)),
            decreases entries.len() - i,
        {
            assert(all[i as int] == entries@[i as int]@);
            assert(all.take(i as int + 1).drop_last() =~= all.take(i as int));
            help.append("\n  /");
            help.append(entries[i].name.as_str());
            help.append(" — ");
            help.append(entries[i].description.as_str());
            i += 1;
            assert(help@ =~= head + command_lines(all.take(i as int)));
        }
        assert(all.take(i as int) =~= all);
        help
    }

    /// Sends whatever is in the input box, if anything.
    pub fn submit(&mut self)
        requires
            old(self)@.valid(),
        ensures
            final(self)@ == old(self)@.submitted(),
            final(self)@.valid(),
    {
        if self.input.is_empty() {
            return ;
        }
        let typed = self.input.take();
        self.history.submit(typed.as_str());
        let line = text::trim(typed.as_str());
        match slash::parse(line.as_str()) {
            Some((name, arguments)) => {
                self.run_command(typed.as_str(), name.as_str(), arguments.as_str());
            },
            None => {
                self.say(Cell::User(typed.clone()));
                self.send(typed);
            },
        }
    }

    fn run_command(&mut self, typed: &str, name: &str, arguments: &str)
        requires
            old(self)@.valid(),
        ensures
            final(self)@ == old(self)@.commanded(typed@, name@, arguments@),
            final(self)@.valid(),
    {
        let action = match self.commands.find(name) {
            None => None,
            Some(command) => match &command.action {
                SlashAction::Prompt(path) => Some(SlashAction::Prompt(path.clone())),
                SlashAction::Builtin(builtin) => Some(SlashAction::Builtin(*builtin)),
            },
        };
        match action {
            None => {
                let said = text::concat3("unknown command /", name, " — /help lists them");
                self.say(Cell::Error(said));
            },
            Some(SlashAction::Prompt(path)) => {
                self.ask(
                    Effect::ReadCommand {
                        path,
                        typed: text::trim(typed),
                        arguments: text::copy(arguments),
                    },
                );
            },
            Some(SlashAction::Builtin(builtin)) => {
                self.run_builtin(builtin, arguments);
            },
        }
    }

    fn order_help(&mut self)
        ensures
            final(self)@ == old(self)@.said(CellView::Notice(help_of(old(self)@.commands))),
    {
        let help = self.help_text();
        self.say(Cell::Notice(help));
    }

    #[verifier::spinoff_prover]
    #[verifier::rlimit(40)]
    fn run_builtin(&mut self, command: Builtin, arguments: &str)
        requires
            old(self)@.valid(),
        ensures
            final(self)@ == old(self)@.ordered(command, arguments@),
            final(self)@.valid(),
    {
        match command {
            Builtin::Help => {
                self.order_help();
            },
            Builtin::Clear => {
                self.wipe();
            },
            Builtin::New => {
                self.ask(Effect::NewSession);
            },
            Builtin::Quit => {
                self.quit();
            },
            Builtin::Copy => {
                self.copy_last_reply();
            },
            Builtin::Effort => {
                self.order_effort(arguments);
            },
            Builtin::Model => {
                self.order_model(arguments);
            },
            Builtin::Plan => {
                self.order_plan(arguments);
            },
            Builtin::ViewPlan => {
                self.view_plan_command();
            },
            Builtin::Provider => {
                self.order_provider(arguments);
            },
            Builtin::Mcp => {
                self.order_mcp(arguments);
            },
        }
    }

    /// Clears the screen, and nothing else: a person clearing the view is not asking the agent to
    /// forget.
    fn wipe(&mut self)
        ensures
            final(self)@ == old(self)@.wiped(),
    {
        self.transcript.clear();
        self.expanded = Vec::new();
        assert(self@.expanded =~= Seq::empty());
        self.scroll.follow();
    }

    fn order_model(&mut self, arguments: &str)
        ensures
            final(self)@ == old(self)@.ordered(Builtin::Model, arguments@),
    {
        let wanted = text::trim(arguments);
        if wanted.as_str().unicode_len() == 0 {
            self.open_model_picker();
        } else {
            self.set_model_aloud(wanted.as_str());
        }
    }

    fn order_plan(&mut self, arguments: &str)
        ensures
            final(self)@ == old(self)@.ordered(Builtin::Plan, arguments@),
    {
        self.request_session_mode(SessionMode::Plan);
        let prompt = text::trim(arguments);
        if prompt.as_str().unicode_len() > 0 {
            self.say(Cell::User(prompt.clone()));
            self.send(prompt);
        }
    }

    fn order_effort(&mut self, arguments: &str)
        ensures
            final(self)@ == old(self)@.effort_ordered(trimmed(arguments@)),
    {
        match slash::effort(arguments) {
            Ok(Some(effort)) => {
                self.set_reasoning_effort_aloud(effort);
            },
            Ok(None) => {
                let offered = self.offered_efforts(self.model.as_str());
                let next = slash::next_effort(self.effort, &offered);
                self.set_reasoning_effort_aloud(next);
            },
            Err(unknown) => {
                self.say(Cell::Error(unknown));
            },
        }
    }

    /// Takes what the file of a command holds, or why it could not be read.
    pub fn command_read(
        &mut self,
        path: &str,
        typed: &str,
        arguments: &str,
        body: Result<String, String>,
    )
        ensures
            final(self)@ == old(self)@.command_answered(
                path@,
                typed@,
                arguments@,
                match body {
                    Ok(body) => Ok(body@),
                    Err(error) => Err(error@),
                },
            ),
    {
        match body {
            Ok(body) => {
                let prompt = if arguments.unicode_len() == 0 {
                    body
                } else {
                    text::concat3(body.as_str(), "\n\n", arguments)
                };
                self.say(Cell::User(text::trim(typed)));
                self.send(prompt);
            },
            Err(error) => {
                let mut said = text::concat3("reading ", path, ": ");
                said.append(error.as_str());
                self.say(Cell::Error(said));
            },
        }
    }
}

/// A policy as a choice: typed and read by its name.
struct PolicyWord {
    policy: ApprovalPolicy,
}

impl crate::picker::Choice for PolicyWord {
    closed spec fn key_view(&self) -> Seq<char> {
        policy_word(self.policy)
    }

    closed spec fn label_view(&self) -> Seq<char> {
        policy_word(self.policy)
    }

    fn key(&self) -> (r: &str) {
        slash::policy_name(self.policy)
    }

    fn label(&self) -> (r: &str) {
        slash::policy_name(self.policy)
    }
}

// Laws.

/// A model the provider does not serve is refused where it was asked for: nothing moves and the
/// agent is told nothing.
pub proof fn a_refused_model_moves_nothing(app: AppView, wanted: Seq<char>)
    requires
        app.models.len() > 0,
        model_at(app.models, wanted, 0) is None,
    ensures
        app.with_model(wanted).model == app.model,
        app.with_model(wanted).effort == app.effort,
        app.with_model(wanted).effects == app.effects,
{
}

/// With no list there is nothing to check against, so nothing is refused.
pub proof fn without_a_list_any_model_goes(app: AppView, wanted: Seq<char>)
    requires
        app.models.len() == 0,
    ensures
        app.with_model(wanted).model == wanted,
        app.with_model(wanted).effort == app.effort,
        app.with_model(wanted).effects == app.effects.push(EffectView::SetModel(wanted)).push(
            EffectView::Persist(OverrideView::Model(wanted)),
        ),
{
}

/// After a switch, the level in force is one that the model takes, where it said which it takes.
pub proof fn a_switch_leaves_no_level_the_model_refuses(app: AppView, wanted: Seq<char>)
    requires
        model_at(app.models, wanted, 0) is Some,
        offered_by(app.models, wanted).len() > 0,
    ensures
        app.with_model(wanted).model == wanted,
        app.with_model(wanted).effort is None || offered_by(app.models, wanted).contains(
            app.with_model(wanted).effort->0,
        ),
{
}

/// A typo moves no level.
pub proof fn a_typo_moves_no_level(app: AppView, word: Seq<char>)
    requires
        word.len() > 0,
        word != "default"@,
        word != "unset"@,
        crate::protocol::effort_named(word) is None,
    ensures
        app.effort_ordered(word).effort == app.effort,
        app.effort_ordered(word).effects == app.effects,
{
}

/// Clearing the screen tells the agent nothing; starting over does.
pub proof fn clearing_is_not_starting_over(app: AppView, arguments: Seq<char>)
    ensures
        app.ordered(Builtin::Clear, arguments).effects == app.effects,
        app.ordered(Builtin::Clear, arguments).transcript.cells.len() == 0,
        app.ordered(Builtin::Clear, arguments).usage == app.usage,
        app.ordered(Builtin::New, arguments).effects == app.effects.push(EffectView::NewSession),
{
}

/// What is typed is either a command or a prompt: only a prompt reaches the agent as one, and it
/// does so as it was typed.
pub proof fn a_prompt_is_sent_as_typed(app: AppView)
    requires
        !is_blank(app.input),
        parsed(trimmed(app.input.text())) is None,
    ensures
        app.submitted().effects == app.effects.push(EffectView::Prompt(app.input.text())),
        app.submitted().input == InputView::blank(),
        app.submitted().transcript.cells == app.transcript.cells.push(
            CellView::User(app.input.text()),
        ),
{
}

/// Nothing typed, nothing sent.
pub proof fn an_empty_prompt_goes_nowhere(app: AppView)
    requires
        is_blank(app.input),
    ensures
        app.submitted() == app,
{
}

/// Tapping through the ladder of policies, where the agent follows, comes round to where it
/// began, over every rung.
pub proof fn the_ladder_of_policies_comes_round()
    ensures
        ({
            let (a, m) = next_rung(SessionMode::Default, ApprovalPolicy::OnRequest);
            let (b, n) = next_rung(SessionMode::Default, a);
            let (c, o) = next_rung(SessionMode::Default, b);
            let (d, p) = next_rung(SessionMode::Plan, c);
            &&& a == ApprovalPolicy::OnFailure && m is None
            &&& b == ApprovalPolicy::Never && n is None
            &&& c == ApprovalPolicy::OnRequest && o == Some(SessionMode::Plan)
            &&& d == ApprovalPolicy::OnRequest && p == Some(SessionMode::Default)
        }),
{
}

/// A menu offers every command whose name starts with what was typed behind the slash, in order;
/// and none once the name is done, or where what is typed is no command.
pub proof fn the_menu_offers_what_begins_alike(
    commands: Seq<SlashCommandView>,
    input: InputView,
    prefix: Seq<char>,
)
    requires
        input.text() == seq!['/'] + prefix,
    ensures
        input.lines.len() == 1 && (forall|i: int|
            0 <= i < prefix.len() ==> !white_space(#[trigger] prefix[i])) ==> completions_of(
            commands,
            input,
        ) == commands.filter(
            |c: SlashCommandView|
                c.name.len() >= prefix.len() && c.name.take(prefix.len() as int) == prefix,
        ),
        input.lines.len() > 1 || (exists|i: int|
            0 <= i < prefix.len() && white_space(#[trigger] prefix[i])) ==> completions_of(
            commands,
            input,
        ).len() == 0,
{
    reveal_strlit("/");
    let text = input.text();
    assert("/"@ =~= seq!['/']);
    assert(text.subrange(0, 1) =~= "/"@);
    assert(text.skip(1) =~= prefix);
    crate::slash::completion_offers_what_begins_alike(commands, prefix);
}

/// Tapping through the menu visits its entries in order and comes round at either end, and the way
/// back undoes the way there.
pub proof fn the_menu_comes_round(app: AppView)
    requires
        completions_of(app.commands, app.input).len() > 0,
        0 <= app.completion < completions_of(app.commands, app.input).len(),
    ensures
        ({
            let count = completions_of(app.commands, app.input).len() as int;
            &&& app.completion_moved(true).completion == (app.completion + 1) % count
            &&& app.completion_moved(false).completion == (app.completion + count - 1) % count
            &&& app.completion_moved(true).completion_moved(false) == app
            &&& app.completion_moved(false).completion_moved(true) == app
            &&& app.completion_moved(true).input == app.input
        }),
{
    let count = completions_of(app.commands, app.input).len() as int;
    let at = app.completion;
    if at + 1 == count {
        assert((at + 1) % count == 0);
    } else {
        vstd::arithmetic::div_mod::lemma_small_mod((at + 1) as nat, count as nat);
    }
    if at == 0 {
        vstd::arithmetic::div_mod::lemma_small_mod((count - 1) as nat, count as nat);
    } else {
        vstd::arithmetic::div_mod::lemma_mod_add_multiples_vanish(at - 1, count);
        vstd::arithmetic::div_mod::lemma_small_mod((at - 1) as nat, count as nat);
    }
}

/// A completion puts the whole command in the composer, ready for what follows it.
pub proof fn a_completion_is_ready_for_arguments(app: AppView)
    requires
        completions_of(app.commands, app.input).len() > 0,
        0 <= app.completion < completions_of(app.commands, app.input).len(),
    ensures
        app.completed().input.lines == seq![
            seq!['/'] + completions_of(app.commands, app.input)[app.completion].name + seq![' '],
        ],
        app.completed().input.row == 0,
        app.completed().input.column == app.completed().input.lines[0].len(),
        app.completed().effects == app.effects,
{
    reveal_strlit("/");
    reveal_strlit(" ");
    let name = completions_of(app.commands, app.input)[app.completion].name;
    let blank = InputView::blank();
    assert(blank.head() =~= Seq::<char>::empty());
    assert(blank.tail() =~= Seq::<char>::empty());
    assert(app.completed().input.lines =~= seq![seq!['/'] + name + seq![' ']]) by {
        assert(blank.head() + ("/"@ + name + " "@) + blank.tail() =~= seq!['/'] + name + seq![' ']);
    }
}

/// The overlay on the models and the one on the policies list just what survives the filter, in
/// order.
pub proof fn an_overlay_lists_what_survives(
    models: Seq<ModelView>,
    policies: Seq<ApprovalPolicy>,
    query: Seq<char>,
)
    ensures
        shown_models(models, query) == models.filter(
            |m: ModelView| survives(query, m.id, m.display_name),
        ),
        shown_policies(policies, query) == policies.filter(
            |p: ApprovalPolicy| survives(query, policy_word(p), policy_word(p)),
        ),
    decreases models.len() + policies.len(),
{
    reveal(Seq::filter);
    if models.len() > 0 {
        an_overlay_lists_what_survives(models.drop_last(), policies, query);
    } else if policies.len() > 0 {
        an_overlay_lists_what_survives(models, policies.drop_last(), query);
    }
}

/// The help has a line for every command, and the list of models an entry for every model, in their
/// order.
pub proof fn everything_on_offer_is_listed(
    commands: Seq<SlashCommandView>,
    models: Seq<ModelView>,
    current: Seq<char>,
)
    ensures
        command_lines(commands) == commands.map_values(
            |c: SlashCommandView| "\n  /"@ + c.name + " — "@ + c.description,
        ).flatten(),
        model_entries(models, current) == models.map_values(
            |m: ModelView| model_entry(m, current),
        ).flatten(),
    decreases commands.len() + models.len(),
{
    let line = |c: SlashCommandView| "\n  /"@ + c.name + " — "@ + c.description;
    let entry = |m: ModelView| model_entry(m, current);
    if commands.len() > 0 {
        let init = commands.drop_last();
        everything_on_offer_is_listed(init, models, current);
        assert(commands.map_values(line) =~= init.map_values(line).push(line(commands.last())));
        init.map_values(line).lemma_flatten_push(line(commands.last()));
        assert(command_lines(commands) =~= command_lines(init) + line(commands.last()));
    } else {
        assert(commands.map_values(line) =~= Seq::empty());
        if models.len() > 0 {
            let init = models.drop_last();
            everything_on_offer_is_listed(commands, init, current);
            assert(models.map_values(entry) =~= init.map_values(entry).push(entry(models.last())));
            init.map_values(entry).lemma_flatten_push(entry(models.last()));
        } else {
            assert(models.map_values(entry) =~= Seq::empty());
        }
    }
}

/// A model that can be switched to is the one that answers from then on: the agent is told, the
/// configuration too, and a level that it does not take is dropped, on the screen and for the agent.
pub proof fn a_switch_reaches_the_agent(app: AppView, wanted: Seq<char>)
    requires
        app.models.len() == 0 || exists|i: int|
            0 <= i < app.models.len() && (#[trigger] app.models[i]).id == wanted,
    ensures
        ({
            let next = app.with_model(wanted);
            let offered = offered_by(app.models, wanted);
            let dropped = app.effort is Some && offered.len() > 0 && !offered.contains(
                app.effort->0,
            );
            let told = app.effects.push(EffectView::SetModel(wanted)).push(
                EffectView::Persist(OverrideView::Model(wanted)),
            );
            &&& next.model == wanted
            &&& !dropped ==> next.effects == told && next.effort == app.effort && next.transcript
                == app.transcript
            &&& dropped ==> next.effects == told.push(EffectView::SetEffort(None))
                && next.effort is None && next.transcript.cells.len() == app.transcript.cells.len()
                + 1
            &&& next.approval == app.approval && next.provider == app.provider && next.mode
                == app.mode
        }),
{
    lemma_model_at(app.models, wanted, 0);
}

proof fn lemma_model_at(models: Seq<ModelView>, id: Seq<char>, i: int)
    requires
        0 <= i <= models.len(),
    ensures
        match model_at(models, id, i) {
            Some(k) => i <= k < models.len() && models[k].id == id && forall|j: int|
                i <= j < k ==> (#[trigger] models[j]).id != id,
            None => forall|j: int| i <= j < models.len() ==> (#[trigger] models[j]).id != id,
        },
    decreases models.len() - i,
{
    if i < models.len() && models[i].id != id {
        lemma_model_at(models, id, i + 1);
    }
}

/// The levels on offer are those of the first model with the id, and none are where there is none.
pub proof fn levels_are_those_of_the_model(models: Seq<ModelView>, id: Seq<char>)
    ensures
        (forall|j: int| 0 <= j < models.len() ==> (#[trigger] models[j]).id != id) ==> offered_by(
            models,
            id,
        ).len() == 0,
        forall|k: int|
            0 <= k < models.len() && (#[trigger] models[k]).id == id && (forall|j: int|
                0 <= j < k ==> (#[trigger] models[j]).id != id) ==> offered_by(models, id)
                == models[k].reasoning_efforts,
{
    lemma_model_at(models, id, 0);
}

/// A setting that is made is in force at once, and both the agent and the configuration are told.
pub proof fn a_setting_is_told_to_both(
    app: AppView,
    effort: Option<ReasoningEffort>,
    policy: ApprovalPolicy,
)
    ensures
        app.with_effort(effort).effort == effort,
        app.with_effort(effort).effects == app.effects.push(EffectView::SetEffort(effort)).push(
            EffectView::Persist(OverrideView::Effort(effort)),
        ),
        app.under(policy).approval == policy,
        app.under(policy).effects == app.effects.push(EffectView::SetPolicy(policy)),
        ({
            let next = app.policy_cycled();
            let told = app.effects.push(EffectView::SetPolicy(next.approval)).push(
                EffectView::Persist(OverrideView::Policy(next.approval)),
            );
            &&& next.effects.len() >= told.len()
            &&& next.effects.take(told.len() as int) == told
            &&& app.mode == SessionMode::Plan ==> next.effects == told.push(
                EffectView::SetMode(SessionMode::Default),
            )
        }),
{
    let next = app.policy_cycled();
    let told = app.effects.push(EffectView::SetPolicy(next.approval)).push(
        EffectView::Persist(OverrideView::Policy(next.approval)),
    );
    assert(next.effects.take(told.len() as int) =~= told);
}

/// What a named level comes to: that level, the default for either of its names, and the next one
/// on the ladder of the model where none is named.
pub proof fn a_named_level_is_set(app: AppView, word: Seq<char>)
    ensures
        word == "default"@ || word == "unset"@ ==> app.effort_ordered(word) == app.with_effort(None),
        word.len() == 0 ==> app.effort_ordered(word) == app.with_effort(
            next_on(app.effort, rungs_of(offered_by(app.models, app.model))),
        ),
        word == "low"@ ==> app.effort_ordered(word).effort == Some(ReasoningEffort::Low),
        word == "medium"@ ==> app.effort_ordered(word).effort == Some(ReasoningEffort::Medium),
        word == "high"@ ==> app.effort_ordered(word).effort == Some(ReasoningEffort::High),
        word == "xhigh"@ ==> app.effort_ordered(word).effort == Some(ReasoningEffort::XHigh),
        word == "max"@ ==> app.effort_ordered(word).effort == Some(ReasoningEffort::Max),
        word == "ultra"@ ==> app.effort_ordered(word).effort == Some(ReasoningEffort::Ultra),
{
    reveal_strlit("default");
    reveal_strlit("unset");
    reveal_strlit("low");
    reveal_strlit("medium");
    reveal_strlit("high");
    reveal_strlit("xhigh");
    reveal_strlit("max");
    reveal_strlit("ultra");
    assert("default"@.len() == 7 && "unset"@.len() == 5 && "low"@.len() == 3);
    assert("medium"@.len() == 6 && "high"@.len() == 4 && "xhigh"@.len() == 5);
    assert("max"@.len() == 3 && "ultra"@.len() == 5);
    assert("unset"@[1] == 'n' && "ultra"@[1] == 'l' && "xhigh"@[1] == 'h');
    assert("low"@[0] == 'l' && "max"@[0] == 'm');
}

/// The file of a command goes to the agent with what was typed behind the name, and the person sees
/// what they typed; a file that could not be read is an error and sends nothing.
pub proof fn a_command_file_is_sent(
    app: AppView,
    path: Seq<char>,
    typed: Seq<char>,
    arguments: Seq<char>,
    body: Result<Seq<char>, Seq<char>>,
)
    ensures
        ({
            let next = app.command_answered(path, typed, arguments, body);
            match body {
                Ok(file) => {
                    &&& next.effects.len() == app.effects.len() + 1
                    &&& next.effects.drop_last() == app.effects
                    &&& next.effects.last() matches EffectView::Prompt(prompt) && prompt.take(
                        file.len() as int,
                    ) == file && (arguments.len() == 0 ==> prompt == file) && (arguments.len() > 0
                        ==> prompt == file + seq!['\n', '\n'] + arguments)
                    &&& next.transcript.cells == app.transcript.cells.push(
                        CellView::User(trimmed(typed)),
                    )
                    &&& next.turn == crate::app::Turn::Running
                },
                Err(_) => {
                    &&& next.effects == app.effects
                    &&& next.turn == app.turn
                    &&& next.transcript.cells.len() == app.transcript.cells.len() + 1
                    &&& next.transcript.cells.last() is Error
                },
            }
        }),
{
    reveal_strlit("\n\n");
    assert("\n\n"@ =~= seq!['\n', '\n']);
    let next = app.command_answered(path, typed, arguments, body);
    if let Ok(file) = body {
        assert(next.effects.drop_last() =~= app.effects);
        let prompt = next.effects.last()->Prompt_0;
        assert(prompt.take(file.len() as int) =~= file);
    }
}

/// What each of the surface's own commands does, and that it does no more.
pub proof fn a_command_does_what_it_says(app: AppView, arguments: Seq<char>)
    ensures
        app.ordered(Builtin::Quit, arguments).should_quit,
        app.ordered(Builtin::Quit, arguments).effects == app.effects,
        app.ordered(Builtin::New, arguments).effects == app.effects.push(EffectView::NewSession),
        app.ordered(Builtin::New, arguments).transcript == app.transcript,
        app.ordered(Builtin::Clear, arguments).transcript.cells.len() == 0,
        app.ordered(Builtin::Help, arguments).transcript.cells.last() == CellView::Notice(
            help_of(app.commands),
        ),
        app.ordered(Builtin::Help, arguments).effects == app.effects,
        app.ordered(Builtin::Plan, arguments).effects[app.effects.len() as int]
            == EffectView::SetMode(SessionMode::Plan),
        trimmed(arguments).len() == 0 ==> app.ordered(Builtin::Plan, arguments).effects.len()
            == app.effects.len() + 1,
        trimmed(arguments).len() > 0 ==> app.ordered(Builtin::Plan, arguments).effects.last()
            == EffectView::Prompt(trimmed(arguments)),
        trimmed(arguments).len() > 0 ==> app.ordered(Builtin::Model, arguments) == app.with_model(
            trimmed(arguments),
        ),
        trimmed(arguments).len() == 0 && app.models.len() > 0 ==> app.ordered(
            Builtin::Model,
            arguments,
        ).picker is Some,
{
}

} // verus!

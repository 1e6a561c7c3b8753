//! Answering a plan.

use vstd::prelude::*;
use crate::app::{App, AppView, EffectView, OverrideView, SessionMode};
use crate::input::InputView;
use crate::picker::{Picker, PickerKind, PickerView};
use crate::plan::{PlanFocus, PlanReview, ReviewView};
use crate::protocol::{ApprovalPolicy, PermissionAnswer};
use crate::text;
use crate::text::opt;
use crate::transcript::{Cell, CellView};

verus! {

impl AppView {
    /// Whether the open review is a record.
    pub open spec fn is_record(self) -> bool {
        self.plan is Some && self.plan->0.answered is Some
    }

    /// With word that the open review is a record.
    pub open spec fn refused_record(self) -> AppView {
        self.flashed("this plan was already answered — q closes the record"@)
    }

    /// With the answered plan put away. Only the last one is kept: "the plan" in a person's head
    /// is the one they just looked at.
    pub open spec fn plan_archived(self, answer: PermissionAnswer) -> AppView {
        match self.plan {
            Some(review) => AppView {
                plan: None,
                last_plan: Some(review.archived(answer)),
                ..self
            },
            None => self,
        }
    }

    /// With what the person said in the transcript. It travels to the model with the answer, which
    /// the transcript does not show.
    pub open spec fn feedback_shown(self, feedback: Option<Seq<char>>) -> AppView {
        match feedback {
            Some(said) => self.said(CellView::User(said)),
            None => self,
        }
    }

    /// What was said about the plan under review.
    pub open spec fn plan_feedback(self, notes: Option<Seq<char>>) -> Option<Seq<char>> {
        match self.plan {
            Some(review) => review.feedback(notes),
            None => None,
        }
    }

    /// With the overlay that asks under which policy the plan is carried out.
    pub open spec fn plan_approval_asked(self) -> AppView {
        if self.is_record() {
            self.refused_record()
        } else {
            AppView {
                picker: Some(
                    PickerView {
                        kind: PickerKind::Policy,
                        query: Seq::empty(),
                        selected: match self.approval {
                            ApprovalPolicy::OnRequest => 0,
                            ApprovalPolicy::OnFailure => 1,
                            ApprovalPolicy::Never => 2,
                        },
                    },
                ),
                ..self
            }
        }
    }

    /// With the plan approved, to be carried out under the policy in force.
    pub open spec fn plan_allowed(self) -> AppView {
        if self.is_record() {
            self.refused_record()
        } else {
            let feedback = self.plan_feedback(None);
            self.feedback_shown(feedback).answered(
                PermissionAnswer::Allow,
                feedback,
            ).plan_archived(PermissionAnswer::Allow)
        }
    }

    /// With the plan approved, to be carried out under a policy.
    pub open spec fn plan_approved(self, policy: ApprovalPolicy) -> AppView {
        if self.is_record() {
            self.refused_record()
        } else {
            self.under(policy).persisted(OverrideView::Policy(policy)).plan_allowed()
        }
    }

    /// With the agent sent back to planning, with whatever was said about the plan.
    pub open spec fn plan_changes_requested(self) -> AppView {
        if self.is_record() {
            self.refused_record()
        } else {
            let feedback = self.plan_feedback(Some(self.input.text()));
            let shown = AppView { input: InputView::blank(), ..self }.feedback_shown(feedback);
            let now = if feedback is None {
                shown.flashed("plan sent back — type what should change"@)
            } else {
                shown
            };
            now.answered(PermissionAnswer::Deny, feedback).plan_archived(PermissionAnswer::Deny)
        }
    }

    /// With the plan abandoned and the mode asked to end; a record is closed, not quit.
    pub open spec fn plan_quit(self) -> AppView {
        if self.is_record() {
            AppView { plan: None, ..self }
        } else {
            self.answered(PermissionAnswer::Deny, None).plan_archived(
                PermissionAnswer::Deny,
            ).asked(EffectView::SetMode(SessionMode::Default))
        }
    }

    /// With the plan on its way to the clipboard.
    pub open spec fn plan_copied(self) -> AppView {
        match self.plan {
            None => self,
            Some(review) => if review.is_empty() {
                self.flashed("no plan to copy"@)
            } else {
                self.copied(review.text)
            },
        }
    }

    /// With the review changed, where there is one.
    pub open spec fn with_review(self, review: ReviewView) -> AppView {
        AppView { plan: Some(review), ..self }
    }

    /// With a comment begun about the selected lines.
    pub open spec fn plan_comment_begun(self) -> AppView {
        if self.is_record() {
            self.refused_record()
        } else {
            match self.plan {
                None => self,
                Some(review) => if review.is_empty() {
                    self.flashed("no plan lines to comment on"@)
                } else {
                    self.with_review(review.comment_begun())
                },
            }
        }
    }

    /// With the keyboard in the other half of the review.
    pub open spec fn plan_focus_toggled(self) -> AppView {
        match self.plan {
            None => self,
            Some(review) => match review.focus {
                PlanFocus::Preview => self.with_review(review.composed()),
                PlanFocus::Composer => self.with_review(review.previewed()),
            },
        }
    }

    /// With the keyboard in the preview. What was typed stays: a person who pressed escape wanted
    /// out of commenting, not their words deleted.
    pub open spec fn plan_previewed(self) -> AppView {
        match self.plan {
            None => self,
            Some(review) => self.with_review(review.previewed()),
        }
    }

    /// With the comment being written attached, or the plan sent back with the notes.
    pub open spec fn plan_composer_submitted(self) -> AppView {
        match self.plan {
            None => self,
            Some(review) => match review.commenting {
                None => self.plan_changes_requested(),
                Some(_) => AppView { input: InputView::blank(), ..self }.with_review(
                    review.commented(self.input.text()),
                ),
            },
        }
    }

    /// With the last plan reopened, as a record.
    pub open spec fn plan_reopened(self) -> AppView {
        if self.plan is Some {
            self
        } else {
            match self.last_plan {
                None => self.flashed("no plan yet — /plan asks the agent for one"@),
                Some(review) => self.with_review(review),
            }
        }
    }

    /// With the row of the overlay that is highlighted taken. A filter that matches nothing accepts
    /// nothing.
    pub open spec fn picker_accepted(self) -> AppView {
        match self.picker {
            None => self,
            Some(picker) => {
                let at = crate::picker::clamped(picker.selected, self.picker_count()) as int;
                if self.picker_count() == 0 {
                    self
                } else {
                    match picker.kind {
                        PickerKind::Model => self.picker_closed().with_model(
                            crate::app::command::shown_models(self.models, picker.query)[at].id,
                        ),
                        PickerKind::Policy => self.picker_closed().plan_approved(
                            crate::app::command::shown_policies(
                                crate::app::command::all_policies(),
                                picker.query,
                            )[at],
                        ),
                        PickerKind::Provider => self.picker_closed().with_route(
                            crate::app::routes::shown_routes(self.routes, picker.query)[at].route,
                        ),
                        PickerKind::Mcp => self.row_signed_in(
                            crate::app::routes::shown_servers(self.servers, picker.query)[at].name,
                        ),
                    }
                }
            },
        }
    }
}

impl App {
    /// The plan review, while one is open.
    pub fn plan_review(&self) -> (r: Option<&PlanReview>)
        ensures
            match self@.plan {
                Some(review) => r is Some && r->0@ == review,
                None => r is None,
            },
    {
        self.plan.as_ref()
    }

    /// Which half of the open review has the keyboard.
    pub fn plan_focus(&self) -> (r: PlanFocus)
        ensures
            r == match self@.plan {
                Some(review) => review.focus,
                None => PlanFocus::Preview,
            },
    {
        match &self.plan {
            Some(review) => review.focus(),
            None => PlanFocus::Preview,
        }
    }

    /// Told where the plan was written, when it was.
    pub fn plan_saved(&mut self, path: String)
        requires
            old(self)@.valid(),
        ensures
            final(self)@ == match old(self)@.plan {
                Some(review) => old(self)@.with_review(
                    ReviewView { path: Some(path@), ..review },
                ),
                None => old(self)@,
            },
            final(self)@.valid(),
    {
        if let Some(review) = self.plan.take() {
            let mut review = review;
            let ghost before = review@;
            review.saved(path);
            assert(review@.comments == before.comments);
            self.plan = Some(review);
        }
    }

    fn archive_plan(&mut self, answer: PermissionAnswer)
        requires
            old(self)@.valid(),
        ensures
            final(self)@ == old(self)@.plan_archived(answer),
            final(self)@.valid(),
    {
        if let Some(review) = self.plan.take() {
            let mut review = review;
            let ghost before = review@;
            review.archive(answer);
            assert(review@.comments == before.comments);
            self.last_plan = Some(review);
        }
    }

    /// Whether the open review is a record, saying so if it is.
    fn refuse_answered_plan(&mut self) -> (r: bool)
        ensures
            r == old(self)@.is_record(),
            final(self)@ == if r {
                old(self)@.refused_record()
            } else {
                old(self)@
            },
    {
        let record = match &self.plan {
            Some(review) => review.is_answered(),
            None => false,
        };
        if record {
            self.set_flash("this plan was already answered — q closes the record");
        }
        record
    }

    /// Approves the plan: the agent may start building.
    ///
    /// Not answered here. Plan mode is the tightest rung of the strictness ladder, so leaving it
    /// is the one moment a person is deciding how much of the plan may be carried out without
    /// them. The overlay asks that once, rather than letting the policy underneath plan mode
    /// decide it silently. Nor is the mode cleared: plan mode ends when the agent says it has
    /// ended.
    pub fn approve_plan(&mut self)
        ensures
            final(self)@ == old(self)@.plan_approval_asked(),
    {
        if self.refuse_answered_plan() {
            return ;
        }
        let at: usize = match self.approval_policy() {
            ApprovalPolicy::OnRequest => 0,
            ApprovalPolicy::OnFailure => 1,
            ApprovalPolicy::Never => 2,
        };
        self.picker = Some(Picker::at(PickerKind::Policy, at));
    }

    /// Approves, and carries the plan out under `policy`: what the overlay answers with.
    pub fn approve_plan_under(&mut self, policy: ApprovalPolicy)
        requires
            old(self)@.valid(),
        ensures
            final(self)@ == old(self)@.plan_approved(policy),
            final(self)@.valid(),
    {
        if self.refuse_answered_plan() {
            return ;
        }
        self.set_approval_policy_aloud(policy);
        self.allow_plan();
    }

    /// Approves, and carries the plan out under the policy in force.
    pub fn allow_plan(&mut self)
        requires
            old(self)@.valid(),
        ensures
            final(self)@ == old(self)@.plan_allowed(),
            final(self)@.valid(),
    {
        if self.refuse_answered_plan() {
            return ;
        }
        let feedback = match &self.plan {
            Some(review) => review.feedback(None),
            None => None,
        };
        self.show_plan_feedback(&feedback);
        self.answer_permission_with_note(PermissionAnswer::Allow, feedback);
        self.archive_plan(PermissionAnswer::Allow);
    }

    /// Sends the agent back to planning, with whatever was said about the plan. The refusal is what
    /// the model reads as the call's result, so what the person wrote about the plan is the
    /// refusal itself.
    #[verifier::spinoff_prover]
    #[verifier::rlimit(40)]
    pub fn request_plan_changes(&mut self)
        requires
            old(self)@.valid(),
        ensures
            final(self)@ == old(self)@.plan_changes_requested(),
            final(self)@.valid(),
    {
        if self.refuse_answered_plan() {
            return ;
        }
        let notes = self.input.take();
        let ghost emptied = AppView { input: InputView::blank(), ..old(self)@ };
        assert(self@ == emptied);
        let feedback = match &self.plan {
            Some(review) => review.feedback(Some(notes.as_str())),
            None => None,
        };
        assert(opt(feedback) == old(self)@.plan_feedback(Some(notes@)));
        self.show_plan_feedback(&feedback);
        if feedback.is_none() {
            self.set_flash("plan sent back — type what should change");
        }
        self.send_back(feedback);
    }

    fn send_back(&mut self, feedback: Option<String>)
        requires
            old(self)@.valid(),
        ensures
            final(self)@ == old(self)@.answered(
                PermissionAnswer::Deny,
                opt(feedback),
            ).plan_archived(PermissionAnswer::Deny),
            final(self)@.valid(),
    {
        self.answer_permission_with_note(PermissionAnswer::Deny, feedback);
        self.archive_plan(PermissionAnswer::Deny);
    }

    fn show_plan_feedback(&mut self, feedback: &Option<String>)
        ensures
            final(self)@ == old(self)@.feedback_shown(opt(*feedback)),
    {
        if let Some(said) = feedback {
            self.say(Cell::User(said.clone()));
        }
    }

    /// Abandons the plan and leaves plan mode. Unlike requesting changes, this asks for the mode
    /// itself to end: a person who is done planning wants the next prompt answered, not planned.
    pub fn quit_plan(&mut self)
        requires
            old(self)@.valid(),
        ensures
            final(self)@ == old(self)@.plan_quit(),
            final(self)@.valid(),
    {
        let record = match &self.plan {
            Some(review) => review.is_answered(),
            None => false,
        };
        if record {
            self.plan = None;
            return ;
        }
        self.answer_permission(PermissionAnswer::Deny);
        self.archive_plan(PermissionAnswer::Deny);
        self.request_session_mode(SessionMode::Default);
    }

    /// Puts the plan on the clipboard, or says there is nothing to put there.
    pub fn copy_plan(&mut self)
        ensures
            final(self)@ == old(self)@.plan_copied(),
    {
        let plan = match &self.plan {
            None => {
                return ;
            },
            Some(review) => if review.is_empty() {
                None
            } else {
                Some(text::copy(review.text()))
            },
        };
        match plan {
            Some(plan) => {
                self.copy(plan);
            },
            None => {
                self.set_flash("no plan to copy");
            },
        }
    }

    /// Moves within the plan.
    pub fn scroll_plan(&mut self, delta: isize)
        requires
            old(self)@.valid(),
        ensures
            final(self)@ == match old(self)@.plan {
                Some(review) => old(self)@.with_review(
                    ReviewView {
                        scroll: crate::plan::moved(review.scroll, delta as int),
                        ..review
                    },
                ),
                None => old(self)@,
            },
            final(self)@.valid(),
    {
        if let Some(review) = self.plan.take() {
            let mut review = review;
            let ghost before = review@;
            review.scroll_by(delta);
            assert(review@.comments == before.comments);
            self.plan = Some(review);
        }
    }

    /// Moves the selected line of the plan, or grows the selected range.
    pub fn move_plan_cursor(&mut self, delta: isize, extend: bool)
        requires
            old(self)@.valid(),
        ensures
            final(self)@ == match old(self)@.plan {
                Some(review) => old(self)@.with_review(
                    review.cursor_moved(delta as int, extend),
                ),
                None => old(self)@,
            },
            final(self)@.valid(),
    {
        if let Some(review) = self.plan.take() {
            let mut review = review;
            review.move_cursor(delta, extend);
            self.plan = Some(review);
        }
    }

    /// Starts writing a comment about the selected lines.
    pub fn begin_plan_comment(&mut self)
        requires
            old(self)@.valid(),
        ensures
            final(self)@ == old(self)@.plan_comment_begun(),
            final(self)@.valid(),
    {
        if self.refuse_answered_plan() {
            return ;
        }
        if let Some(review) = self.plan.take() {
            let mut review = review;
            if review.is_empty() {
                self.plan = Some(review);
                self.set_flash("no plan lines to comment on");
            } else {
                review.begin_comment();
                self.plan = Some(review);
            }
        }
    }

    /// Moves the keyboard between the preview and the composer.
    pub fn toggle_plan_focus(&mut self)
        requires
            old(self)@.valid(),
        ensures
            final(self)@ == old(self)@.plan_focus_toggled(),
            final(self)@.valid(),
    {
        if let Some(review) = self.plan.take() {
            let mut review = review;
            match review.focus() {
                PlanFocus::Preview => {
                    review.focus_composer();
                },
                PlanFocus::Composer => {
                    review.focus_preview();
                },
            }
            self.plan = Some(review);
        }
    }

    /// Hands the keyboard back to the preview.
    pub fn focus_plan_preview(&mut self)
        requires
            old(self)@.valid(),
        ensures
            final(self)@ == old(self)@.plan_previewed(),
            final(self)@.valid(),
    {
        if let Some(review) = self.plan.take() {
            let mut review = review;
            review.focus_preview();
            self.plan = Some(review);
        }
    }

    /// Enter in the composer: attaches the comment being written, or sends the plan back with
    /// whatever notes are in the box.
    pub fn submit_plan_composer(&mut self)
        requires
            old(self)@.valid(),
        ensures
            final(self)@ == old(self)@.plan_composer_submitted(),
            final(self)@.valid(),
    {
        let commenting = match &self.plan {
            None => {
                return ;
            },
            Some(review) => review.is_commenting(),
        };
        if !commenting {
            self.request_plan_changes();
            return ;
        }
        let said = self.input.take();
        if let Some(review) = self.plan.take() {
            let mut review = review;
            review.attach(said.as_str());
            self.plan = Some(review);
        }
    }

    /// Reopens the last plan this session saw, as a record.
    pub(crate) fn view_plan_command(&mut self)
        requires
            old(self)@.valid(),
        ensures
            final(self)@ == old(self)@.plan_reopened(),
            final(self)@.valid(),
    {
        if self.plan.is_some() {
            return ;
        }
        match &self.last_plan {
            None => {
                self.set_flash("no plan yet — /plan asks the agent for one");
            },
            Some(review) => {
                let copy = review.copy();
                self.plan = Some(copy);
            },
        }
    }

    /// Told by a frame how far down the plan can go.
    pub fn clamp_plan_scroll(&mut self, max: usize)
        requires
            old(self)@.valid(),
        ensures
            final(self)@ == match old(self)@.plan {
                Some(review) => old(self)@.with_review(
                    ReviewView {
                        scroll: if review.scroll < max {
                            review.scroll
                        } else {
                            max as int
                        },
                        ..review
                    },
                ),
                None => old(self)@,
            },
            final(self)@.valid(),
    {
        if let Some(review) = self.plan.take() {
            let mut review = review;
            let ghost before = review@;
            review.clamp_scroll(max);
            assert(review@.comments == before.comments);
            self.plan = Some(review);
        }
    }

    /// Told by a frame where the selected line landed.
    pub fn reveal_plan_row(&mut self, row: usize, visible: usize)
        requires
            old(self)@.valid(),
        ensures
            final(self)@ == match old(self)@.plan {
                Some(review) => old(self)@.with_review(
                    review.revealed(row as int, visible as int),
                ),
                None => old(self)@,
            },
            final(self)@.valid(),
    {
        if let Some(review) = self.plan.take() {
            let mut review = review;
            let ghost before = review@;
            review.reveal_row(row, visible);
            assert(review@.comments == before.comments);
            self.plan = Some(review);
        }
    }

    /// Takes the highlighted row of the overlay: switches to the model or the route, or approves
    /// the plan under the policy, and closes it. The list of servers stays open, for a login to
    /// report on its row.
    pub fn accept_picker(&mut self)
        requires
            old(self)@.valid(),
        ensures
            final(self)@ == old(self)@.picker_accepted(),
            final(self)@.valid(),
    {
        let Some(picker) = &self.picker else {
            return ;
        };
        let kind = picker.kind();
        let at = self.picker_selected();
        match kind {
            PickerKind::Model => {
                let wanted = self.chosen_model(at);
                if let Some(wanted) = wanted {
                    self.close_picker();
                    self.set_model_aloud(wanted.as_str());
                }
            },
            PickerKind::Policy => {
                let shown = self.picker_policies();
                if at < shown.len() {
                    let policy = shown[at];
                    self.close_picker();
                    self.approve_plan_under(policy);
                }
            },
            PickerKind::Provider => {
                if let Some(route) = self.chosen_route(at) {
                    self.close_picker();
                    self.set_provider_aloud(route.as_str());
                }
            },
            PickerKind::Mcp => {
                if let Some(name) = self.chosen_server(at) {
                    self.sign_in_on_row(name.as_str());
                }
            },
        }
    }

    fn chosen_model(&self, at: usize) -> (r: Option<String>)
        requires
            self@.picker is Some,
            self@.picker->0.kind == PickerKind::Model,
        ensures
            ({
                let shown = crate::app::command::shown_models(
                    self@.models,
                    self@.picker->0.query,
                );
                opt(r) == if at < shown.len() {
                    Some(shown[at as int].id)
                } else {
                    None
                }
            }),
    {
        let shown = self.picker_models();
        assert(crate::app::command::model_ref_views(shown@).len() == shown.len());
        if at < shown.len() {
            assert(crate::app::command::model_ref_views(shown@)[at as int]
                == shown@[at as int]@);
            Some(shown[at].id.clone())
        } else {
            None
        }
    }
}

// Laws.

/// A record is a record: once a plan is answered, nothing that answers plans reaches the agent.
pub proof fn a_plan_is_answered_once(app: AppView, policy: ApprovalPolicy)
    requires
        app.is_record(),
    ensures
        app.plan_allowed().effects == app.effects,
        app.plan_approved(policy).effects == app.effects,
        app.plan_changes_requested().effects == app.effects,
        app.plan_quit().effects == app.effects,
        app.plan_approval_asked().effects == app.effects,
        app.plan_composer_submitted().effects == app.effects || app.plan->0.commenting is Some,
{
}

/// Answering a plan puts it away as the record of that answer, where it can be reopened.
pub proof fn an_answered_plan_can_be_reopened(app: AppView, policy: ApprovalPolicy)
    requires
        app.plan is Some,
        !app.is_record(),
    ensures
        app.plan_approved(policy).plan is None,
        app.plan_approved(policy).plan_reopened().plan == Some(
            app.plan->0.archived(PermissionAnswer::Allow),
        ),
        app.plan_changes_requested().plan_reopened().is_record(),
        app.plan_quit().plan_reopened().is_record(),
{
}

/// An answer to a plan reaches the agent as that answer to the question it came with, together with
/// all that was said about it, which is shown as well; the plan is put away as a record of it.
pub proof fn an_answer_to_a_plan_is_sent(app: AppView, id: Seq<char>, policy: ApprovalPolicy)
    requires
        !app.is_record(),
        app.plan is Some,
        crate::transcript::open_id(app.transcript.cells) == Some(id),
    ensures
        ({
            let review = app.plan->0;
            let allowed = app.plan_allowed();
            let said = review.feedback(None);
            &&& allowed.effects == app.effects.push(
                EffectView::Answer { id, answer: PermissionAnswer::Allow, note: said },
            )
            &&& allowed.plan is None
            &&& allowed.last_plan is Some && allowed.last_plan->0.answered == Some(
                PermissionAnswer::Allow,
            )
            &&& allowed.last_plan->0.text == review.text
            &&& allowed.last_plan->0.comments == review.comments
        }),
        ({
            let review = app.plan->0;
            let next = app.plan_changes_requested();
            let said = review.feedback(Some(app.input.text()));
            &&& next.effects == app.effects.push(
                EffectView::Answer { id, answer: PermissionAnswer::Deny, note: said },
            )
            &&& next.plan is None
            &&& next.last_plan is Some && next.last_plan->0.answered == Some(
                PermissionAnswer::Deny,
            )
            &&& next.input == InputView::blank()
        }),
        ({
            let next = app.plan_quit();
            &&& next.effects == app.effects.push(
                EffectView::Answer { id, answer: PermissionAnswer::Deny, note: None },
            ).push(EffectView::SetMode(SessionMode::Default))
            &&& next.plan is None
        }),
        ({
            let next = app.plan_approved(policy);
            let told = app.effects.push(EffectView::SetPolicy(policy)).push(
                EffectView::Persist(OverrideView::Policy(policy)),
            );
            &&& next.approval == policy
            &&& next.effects == told.push(
                EffectView::Answer {
                    id,
                    answer: PermissionAnswer::Allow,
                    note: app.plan->0.feedback(None),
                },
            )
        }),
{
    let cells = app.transcript.cells;
    if let Some(said) = app.plan->0.feedback(None) {
        lemma_still_open(cells, said);
    }
    if let Some(said) = app.plan->0.feedback(Some(app.input.text())) {
        lemma_still_open(cells, said);
    }
}

/// What a person says answers no question.
proof fn lemma_still_open(cells: Seq<CellView>, said: Seq<char>)
    ensures
        crate::transcript::open_id(cells.push(CellView::User(said)))
            == crate::transcript::open_id(cells),
{
    assert(cells.push(CellView::User(said)).drop_last() =~= cells);
}

/// The overlay of policies opens on the one in force.
pub proof fn the_policy_in_force_is_highlighted(app: AppView)
    requires
        !app.is_record(),
    ensures
        ({
            let picker = app.plan_approval_asked().picker;
            &&& picker is Some
            &&& picker->0.kind == PickerKind::Policy
            &&& picker->0.query.len() == 0
            &&& picker->0.selected < 3
            &&& crate::app::command::all_policies()[picker->0.selected as int] == app.approval
        }),
{
}

/// Copying a plan copies all of it, where there is anything to copy; a plan that was put away can be
/// looked at again.
pub proof fn a_plan_is_copied_whole(app: AppView)
    ensures
        app.plan matches Some(review) ==> {
            &&& !review.is_empty() ==> app.plan_copied().pending_copy == Some(review.text)
            &&& review.is_empty() ==> app.plan_copied().pending_copy == app.pending_copy
            &&& app.plan_copied().plan == app.plan
        },
        app.plan is None && app.last_plan is Some ==> app.plan_reopened().plan == app.last_plan,
        app.plan is Some ==> app.plan_reopened() == app,
        app.plan is None && app.last_plan is None ==> app.plan_reopened().plan is None,
{
}

/// What is taken from an overlay is the row that is highlighted, of those that are shown.
pub proof fn the_highlighted_row_is_taken(app: AppView)
    requires
        app.picker is Some,
        app.picker_count() > 0,
        app.picker->0.selected < app.picker_count(),
    ensures
        ({
            let picker = app.picker->0;
            let at = picker.selected as int;
            let closed = AppView { picker: None, ..app };
            match picker.kind {
                PickerKind::Model => app.picker_accepted() == closed.with_model(
                    crate::app::command::shown_models(app.models, picker.query)[at].id,
                ),
                PickerKind::Provider => app.picker_accepted() == closed.with_route(
                    crate::app::routes::shown_routes(app.routes, picker.query)[at].route,
                ),
                PickerKind::Mcp => app.picker_accepted() == app.row_signed_in(
                    crate::app::routes::shown_servers(app.servers, picker.query)[at].name,
                ),
                PickerKind::Policy => app.picker_accepted() == closed.plan_approved(
                    crate::app::command::shown_policies(
                        crate::app::command::all_policies(),
                        picker.query,
                    )[at],
                ),
            }
        }),
{
}

} // verus!

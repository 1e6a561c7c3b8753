//! The plan that awaits a person's answer.

use vstd::prelude::*;
use crate::paths;
use crate::paths::{path_joined, AbsPath};
use crate::protocol::{text_member, Json, JsonView, PermissionAnswer, ToolCall};
use crate::slash::alphanumeric;
use crate::support;
use crate::support::byte_size;
use crate::text;
use crate::text::{
    decimal_of, joined, lines_of, opt, texts, trimmed, trimmed_end, white_space, without_trailing,
};

verus! {

/// The tool the agent calls to ask out of plan mode. Recognized by name because that is all a
/// surface is told: it sees a tool call, not the engine's idea of what plan mode is.
pub const EXIT_PLAN_MODE: &'static str = "exit_plan_mode";

/// Which half of the review the keyboard is in.
#[derive(Clone, Copy, Debug, PartialEq, Eq, Structural)]
pub enum PlanFocus {
    /// Scrolling and selecting lines. The single letters answer the plan here.
    Preview,
    /// Typing: a comment on the selected lines, or freeform revision notes. No letter answers the
    /// plan while this has focus, because a person writing "say more here" must not have `s` and
    /// `a` fire under them.
    Composer,
}

impl Default for PlanFocus {
    fn default() -> (r: PlanFocus)
        ensures
            r == PlanFocus::Preview,
    {
        PlanFocus::Preview
    }
}

/// A remark attached to a run of plan lines.
///
/// Line numbers are 1-based over the plan's own lines and inclusive at both ends, matching the
/// gutter the preview draws: the number a person read on screen is the number the agent is told.
#[derive(Debug, PartialEq, Eq)]
pub struct PlanComment {
    pub first: usize,
    pub last: usize,
    pub text: String,
}

/// What a [`PlanComment`] says.
pub struct CommentView {
    pub first: int,
    pub last: int,
    pub text: Seq<char>,
}

impl View for PlanComment {
    type V = CommentView;

    open spec fn view(&self) -> CommentView {
        CommentView { first: self.first as int, last: self.last as int, text: self.text@ }
    }
}

/// What some comments say.
pub open spec fn comment_views(comments: Seq<PlanComment>) -> Seq<CommentView> {
    comments.map_values(|c: PlanComment| c@)
}

/// The plan awaiting a person's answer, and where they have scrolled to in it.
#[derive(Debug, PartialEq, Eq)]
pub struct PlanReview {
    text: String,
    scroll: usize,
    cursor: usize,
    anchor: Option<usize>,
    comments: Vec<PlanComment>,
    focus: PlanFocus,
    commenting: Option<(usize, usize)>,
    path: Option<String>,
    answered: Option<PermissionAnswer>,
}

/// What a [`PlanReview`] knows.
pub struct ReviewView {
    /// The plan as the agent wrote it. Empty when it proposed none, which is a state of its own
    /// rather than an error.
    pub text: Seq<char>,
    pub scroll: int,
    /// The plan line the selection is on, 0-based.
    pub cursor: int,
    /// Where a range selection started, while one is being made.
    pub anchor: Option<int>,
    pub comments: Seq<CommentView>,
    pub focus: PlanFocus,
    /// The lines the composer is writing a comment about. `None` means it holds freeform revision
    /// notes instead.
    pub commenting: Option<(int, int)>,
    /// Where the plan was written, when it could be written at all.
    pub path: Option<Seq<char>>,
    /// How this plan was answered, once it was. An answered review is a record: it can be read
    /// and copied, never answered again.
    pub answered: Option<PermissionAnswer>,
}

impl View for PlanReview {
    type V = ReviewView;

    closed spec fn view(&self) -> ReviewView {
        ReviewView {
            text: self.text@,
            scroll: self.scroll as int,
            cursor: self.cursor as int,
            anchor: match self.anchor {
                Some(a) => Some(a as int),
                None => None,
            },
            comments: comment_views(self.comments@),
            focus: self.focus,
            commenting: match self.commenting {
                Some(c) => Some((c.0 as int, c.1 as int)),
                None => None,
            },
            path: opt(self.path),
            answered: self.answered,
        }
    }
}

/// A number kept within the bounds of a count.
pub open spec fn moved(at: int, delta: int) -> int {
    if at + delta < 0 {
        0
    } else if at + delta > usize::MAX {
        usize::MAX as int
    } else {
        at + delta
    }
}

/// A number of a count, moved.
fn shifted(at: usize, delta: isize) -> (r: usize)
    ensures
        r == moved(at as int, delta as int),
{
    if delta >= 0 {
        let by: usize = delta as usize;
        if by > usize::MAX - at {
            usize::MAX
        } else {
            at + by
        }
    } else {
        let back: i128 = (at as i128) + (delta as i128);
        if back < 0 {
            0
        } else {
            back as usize
        }
    }
}

/// The lines that a comment is about, each marked as a quotation.
pub open spec fn quoted(lines: Seq<Seq<char>>, first: int, last: int) -> Seq<char> {
    let from = if first > 0 {
        first - 1
    } else {
        0
    };
    let to = if last < lines.len() {
        last
    } else {
        lines.len() as int
    };
    if from <= to {
        joined(marked_lines(lines.subrange(from, to)), "\n"@)
    } else {
        Seq::empty()
    }
}

/// Some lines, each marked as a quotation.
pub open spec fn marked_lines(lines: Seq<Seq<char>>) -> Seq<Seq<char>> {
    lines.map_values(|l: Seq<char>| "> "@ + l)
}

/// What the agent reads of a comment: the lines it is about by number, the lines themselves, and
/// what was said.
pub open spec fn comment_text(lines: Seq<Seq<char>>, comment: CommentView) -> Seq<char> {
    let label = if comment.first == comment.last {
        "Proposed plan line "@ + decimal_of(comment.first as nat) + ":"@
    } else {
        "Proposed plan lines "@ + decimal_of(comment.first as nat) + "-"@ + decimal_of(
            comment.last as nat,
        ) + ":"@
    };
    label + "\n"@ + quoted(lines, comment.first, comment.last) + "\n\nComment:\n"@ + comment.text
}

/// What the agent reads of some comments.
pub open spec fn comment_texts(lines: Seq<Seq<char>>, comments: Seq<CommentView>) -> Seq<
    Seq<char>,
> {
    comments.map_values(|c: CommentView| comment_text(lines, c))
}

/// The comments and any freeform notes as the text the agent will read; nothing when the person
/// said nothing.
pub open spec fn feedback_text(
    lines: Seq<Seq<char>>,
    comments: Seq<CommentView>,
    freeform: Option<Seq<char>>,
) -> Option<Seq<char>> {
    let remarks = comment_texts(lines, comments);
    let parts = match freeform {
        Some(notes) => if trimmed(notes).len() == 0 {
            remarks
        } else if remarks.len() == 0 {
            seq![trimmed(notes)]
        } else {
            remarks.push("Additional feedback:\n"@ + trimmed(notes))
        },
        None => remarks,
    };
    if parts.len() > 0 {
        Some(joined(parts, "\n\n"@))
    } else {
        None
    }
}

impl ReviewView {
    /// How many lines the plan has.
    pub open spec fn line_count(self) -> int {
        lines_of(self.text).len() as int
    }

    /// The last line the selection can be on.
    pub open spec fn last_line(self) -> int {
        if self.line_count() > 0 {
            self.line_count() - 1
        } else {
            0
        }
    }

    /// Whether there is nothing to read.
    pub open spec fn is_empty(self) -> bool {
        trimmed(self.text).len() == 0
    }

    /// The selected plan lines, 0-based and inclusive at both ends.
    pub open spec fn selection(self) -> (int, int) {
        let anchor = match self.anchor {
            Some(a) => a,
            None => self.cursor,
        };
        if anchor < self.cursor {
            (anchor, self.cursor)
        } else {
            (self.cursor, anchor)
        }
    }

    /// Whether a run of lines, counted from one, is one of the plan's.
    pub open spec fn has_lines(self, first: int, last: int) -> bool {
        1 <= first <= last <= self.line_count()
    }

    /// Whether the selection is on the plan, and every comment is about lines that it has.
    pub open spec fn valid(self) -> bool {
        &&& 0 <= self.cursor <= self.last_line()
        &&& self.anchor is Some ==> 0 <= self.anchor->0 <= self.last_line()
        &&& self.commenting is Some ==> self.has_lines(
            (self.commenting->0).0,
            (self.commenting->0).1,
        )
        &&& forall|i: int|
            0 <= i < self.comments.len() ==> self.has_lines(
                (#[trigger] self.comments[i]).first,
                self.comments[i].last,
            )
    }

    /// A review that has just been opened.
    pub open spec fn opened(text: Seq<char>) -> ReviewView {
        ReviewView {
            text,
            scroll: 0,
            cursor: 0,
            anchor: None,
            comments: Seq::empty(),
            focus: PlanFocus::Preview,
            commenting: None,
            path: None,
            answered: None,
        }
    }

    /// The comments, and any freeform notes, as the agent will read them.
    pub open spec fn feedback(self, freeform: Option<Seq<char>>) -> Option<Seq<char>> {
        feedback_text(lines_of(self.text), self.comments, freeform)
    }

    /// The record of an answer.
    pub open spec fn archived(self, answer: PermissionAnswer) -> ReviewView {
        ReviewView {
            answered: Some(answer),
            focus: PlanFocus::Preview,
            commenting: None,
            ..self
        }
    }

    /// With the selected line moved; or the range grown.
    pub open spec fn cursor_moved(self, delta: int, extend: bool) -> ReviewView {
        let to = moved(self.cursor, delta);
        ReviewView {
            anchor: if !extend {
                None
            } else if self.anchor is Some {
                self.anchor
            } else {
                Some(self.cursor)
            },
            cursor: if to < self.last_line() {
                to
            } else {
                self.last_line()
            },
            ..self
        }
    }

    /// Writing a comment about the selected lines.
    pub open spec fn comment_begun(self) -> ReviewView {
        ReviewView {
            commenting: Some((self.selection().0 + 1, self.selection().1 + 1)),
            focus: PlanFocus::Composer,
            ..self
        }
    }

    /// With the keyboard in the preview.
    pub open spec fn previewed(self) -> ReviewView {
        ReviewView { focus: PlanFocus::Preview, commenting: None, ..self }
    }

    /// With the keyboard in the composer.
    pub open spec fn composed(self) -> ReviewView {
        ReviewView { focus: PlanFocus::Composer, commenting: None, ..self }
    }

    /// With a comment about the lines being commented on; one that says nothing is dropped.
    pub open spec fn commented(self, said: Seq<char>) -> ReviewView {
        match self.commenting {
            None => self,
            Some((first, last)) => if trimmed(said).len() == 0 {
                self.previewed()
            } else {
                ReviewView {
                    comments: self.comments.push(
                        CommentView { first, last, text: trimmed(said) },
                    ),
                    anchor: None,
                    ..self.previewed()
                }
            },
        }
    }

    /// With the panel scrolled so that a row is on screen.
    pub open spec fn revealed(self, row: int, visible: int) -> ReviewView {
        ReviewView {
            scroll: if row < self.scroll {
                row
            } else if visible > 0 && row >= self.scroll + visible {
                row + 1 - visible
            } else {
                self.scroll
            },
            ..self
        }
    }
}

impl PlanReview {
    #[verifier::type_invariant]
    closed spec fn is_about_the_plan(self) -> bool {
        self@.valid()
    }

    /// A review of this plan that has just been opened.
    pub fn open(plan: String) -> (r: PlanReview)
        ensures
            r@ == ReviewView::opened(plan@),
            r@.valid(),
    {
        let r = PlanReview {
            text: plan,
            scroll: 0,
            cursor: 0,
            anchor: None,
            comments: Vec::new(),
            focus: PlanFocus::Preview,
            commenting: None,
            path: None,
            answered: None,
        };
        assert(r@.comments =~= Seq::empty());
        r
    }

    /// The plan text, empty when the agent wrote none.
    pub fn text(&self) -> (r: &str)
        ensures
            r@ == self@.text,
    {
        proof {
            use_type_invariant(self);
        }
        self.text.as_str()
    }

    /// Whether there is no plan to read, so the surface can say so instead of drawing an empty
    /// box.
    pub fn is_empty(&self) -> (r: bool)
        ensures
            r == self@.is_empty(),
    {
        proof {
            use_type_invariant(self);
        }
        text::trim(self.text.as_str()).as_str().unicode_len() == 0
    }

    /// The file this plan was written to, when it was.
    pub fn path(&self) -> (r: Option<String>)
        ensures
            opt(r) == self@.path,
    {
        proof {
            use_type_invariant(self);
        }
        text::copy_opt(&self.path)
    }

    /// The first row shown.
    pub fn scroll(&self) -> (r: usize)
        ensures
            r == self@.scroll,
    {
        proof {
            use_type_invariant(self);
        }
        self.scroll
    }

    /// Which half the keyboard is in.
    pub fn focus(&self) -> (r: PlanFocus)
        ensures
            r == self@.focus,
    {
        proof {
            use_type_invariant(self);
        }
        self.focus
    }

    /// The comments so far.
    pub fn comments(&self) -> (r: &Vec<PlanComment>)
        ensures
            comment_views(r@) == self@.comments,
    {
        proof {
            use_type_invariant(self);
        }
        &self.comments
    }

    /// Whether the composer is writing a comment rather than revision notes.
    pub fn is_commenting(&self) -> (r: bool)
        ensures
            r == self@.commenting is Some,
    {
        proof {
            use_type_invariant(self);
        }
        self.commenting.is_some()
    }

    /// Whether this plan has already been answered, and so is a record of what was decided rather
    /// than a live question.
    pub fn is_answered(&self) -> (r: bool)
        ensures
            r == self@.answered is Some,
    {
        proof {
            use_type_invariant(self);
        }
        self.answered.is_some()
    }

    /// The selected plan lines, 0-based and inclusive at both ends.
    pub fn selection(&self) -> (r: (usize, usize))
        ensures
            (r.0 as int, r.1 as int) == self@.selection(),
    {
        proof {
            use_type_invariant(self);
        }
        let anchor = match self.anchor {
            Some(a) => a,
            None => self.cursor,
        };
        if anchor < self.cursor {
            (anchor, self.cursor)
        } else {
            (self.cursor, anchor)
        }
    }

    /// The comments, and any freeform notes, as the text the agent will read; `None` when the
    /// person said nothing, so a bare yes stays a bare yes.
    ///
    /// The agent sees text and not this value, so every comment names the lines it is about *and*
    /// quotes them: a line number alone is ambiguous the moment the agent rewrites the plan, and a
    /// quote alone is ambiguous whenever the same sentence appears twice.
    pub fn feedback(&self, freeform: Option<&str>) -> (r: Option<String>)
        ensures
            opt(r) == self@.feedback(
                match freeform {
                    Some(notes) => Some(notes@),
                    None => None,
                },
            ),
    {
        proof {
            use_type_invariant(self);
        }
        let lines = text::lines(self.text.as_str());
        let ghost views = comment_views(self.comments@);
        let ghost all = comment_texts(texts(lines@), views);
        let mut parts = text::no_texts();
        let mut i: usize = 0;
        assert(texts(parts@) =~= all.take(0));
        while i < self.comments.len()
            invariant
                i <= self.comments.len(),
                views == comment_views(self.comments@),
                all == comment_texts(texts(lines@), views),
                texts(parts@) == all.take(i as int),
            decreases self.comments.len() - i,
        {
            let remark = read_comment(&lines, &self.comments[i]);
            assert(views[i as int] == self.comments@[i as int]@);
            text::push_text(&mut parts, remark.as_str());
            i += 1;
            assert(all.take(i as int) =~= all.take(i - 1).push(all[i - 1]));
        }
        assert(all.take(i as int) =~= all);
        assert(texts(parts@).len() == parts.len());
        if let Some(notes) = freeform {
            let notes = text::trim(notes);
            if notes.as_str().unicode_len() > 0 {
                if parts.len() == 0 {
                    text::push_text(&mut parts, notes.as_str());
                    assert(texts(parts@) =~= seq![notes@]);
                } else {
                    let labelled = text::concat("Additional feedback:\n", notes.as_str());
                    text::push_text(&mut parts, labelled.as_str());
                }
            }
        }
        assert(texts(parts@).len() == parts.len());
        if parts.len() > 0 {
            Some(text::join(&parts, "\n\n"))
        } else {
            None
        }
    }

    /// Records where the plan was written.
    pub fn saved(&mut self, path: String)
        ensures
            final(self)@ == (ReviewView { path: Some(path@), ..old(self)@ }),
    {
        proof {
            use_type_invariant(&*self);
        }
        self.path = Some(path);
    }

    /// Makes the review the record of an answer.
    pub fn archive(&mut self, answer: PermissionAnswer)
        ensures
            final(self)@ == old(self)@.archived(answer),
    {
        proof {
            use_type_invariant(&*self);
        }
        self.answered = Some(answer);
        self.focus = PlanFocus::Preview;
        self.commenting = None;
    }

    /// Moves within the plan. Clamped by the frame that draws it, which is the only thing that
    /// knows how tall the panel came out.
    pub fn scroll_by(&mut self, delta: isize)
        ensures
            final(self)@ == (ReviewView {
                scroll: moved(old(self)@.scroll, delta as int),
                ..old(self)@
            }),
    {
        proof {
            use_type_invariant(&*self);
        }
        self.scroll = shifted(self.scroll, delta);
    }

    /// Moves the selected line. `extend` grows the range instead of moving it, which is how a
    /// comment comes to cover more than one line.
    pub fn move_cursor(&mut self, delta: isize, extend: bool)
        ensures
            final(self)@ == old(self)@.cursor_moved(delta as int, extend),
            final(self)@.valid(),
    {
        proof {
            use_type_invariant(&*self);
        }
        let lines = text::lines(self.text.as_str());
        assert(texts(lines@).len() == lines.len());
        let last: usize = if lines.len() > 0 {
            lines.len() - 1
        } else {
            0
        };
        if !extend {
            self.anchor = None;
        } else if self.anchor.is_none() {
            self.anchor = Some(self.cursor);
        }
        let to = shifted(self.cursor, delta);
        self.cursor = if to < last {
            to
        } else {
            last
        };
        assert(self@.comments == old(self)@.comments);
    }

    /// Starts writing a comment about the selected lines.
    pub fn begin_comment(&mut self)
        requires
            !old(self)@.is_empty(),
        ensures
            final(self)@ == old(self)@.comment_begun(),
            final(self)@.valid(),
    {
        proof {
            use_type_invariant(&*self);
        }
        proof {
            lemma_words_make_lines(self.text@);
        }
        let lines = text::lines(self.text.as_str());
        assert(texts(lines@).len() == lines.len());
        let (first, last) = self.selection();
        self.commenting = Some((first + 1, last + 1));
        self.focus = PlanFocus::Composer;
        assert(self@.comments == old(self)@.comments);
    }

    /// Hands the keyboard back to the preview, abandoning a half-written comment's line range.
    pub fn focus_preview(&mut self)
        ensures
            final(self)@ == old(self)@.previewed(),
            final(self)@.valid(),
    {
        proof {
            use_type_invariant(&*self);
        }
        self.focus = PlanFocus::Preview;
        self.commenting = None;
        assert(self@.comments == old(self)@.comments);
    }

    /// Hands the keyboard to the composer, for revision notes.
    pub fn focus_composer(&mut self)
        ensures
            final(self)@ == old(self)@.composed(),
            final(self)@.valid(),
    {
        proof {
            use_type_invariant(&*self);
        }
        self.focus = PlanFocus::Composer;
        self.commenting = None;
        assert(self@.comments == old(self)@.comments);
    }

    /// Attaches the comment being written.
    pub fn attach(&mut self, said: &str)
        ensures
            final(self)@ == old(self)@.commented(said@),
            final(self)@.valid(),
    {
        proof {
            use_type_invariant(&*self);
        }
        let Some((first, last)) = self.commenting else {
            return ;
        };
        let said = text::trim(said);
        if said.as_str().unicode_len() == 0 {
            self.focus_preview();
            return ;
        }
        let mut before = PlanReview::open(String::new());
        core::mem::swap(self, &mut before);
        let PlanReview { text, scroll, cursor, comments, path, answered, .. } = before;
        let mut comments = comments;
        comments.push(PlanComment { first, last, text: said });
        assert(comment_views(comments@) =~= old(self)@.comments.push(
            CommentView { first: first as int, last: last as int, text: said@ },
        ));
        *self = PlanReview {
            text,
            scroll,
            cursor,
            anchor: None,
            comments,
            focus: PlanFocus::Preview,
            commenting: None,
            path,
            answered,
        };
    }

    /// Told by a frame how far down the plan can go, so a held-down arrow key cannot scroll past
    /// the end and leave a blank panel behind.
    pub fn clamp_scroll(&mut self, max: usize)
        ensures
            final(self)@ == (ReviewView {
                scroll: if old(self)@.scroll < max {
                    old(self)@.scroll
                } else {
                    max as int
                },
                ..old(self)@
            }),
    {
        proof {
            use_type_invariant(&*self);
        }
        if self.scroll > max {
            self.scroll = max;
        }
    }

    /// Told by a frame where the selected line landed, so moving the selection scrolls the panel
    /// rather than moving a highlight nobody can see.
    pub fn reveal_row(&mut self, row: usize, visible: usize)
        ensures
            final(self)@ == old(self)@.revealed(row as int, visible as int),
    {
        proof {
            use_type_invariant(&*self);
        }
        if row < self.scroll {
            self.scroll = row;
        } else if visible > 0 && row - self.scroll >= visible {
            self.scroll = row - (visible - 1);
        }
    }

    /// A copy of this review.
    pub fn copy(&self) -> (r: PlanReview)
        ensures
            r@ == self@,
    {
        proof {
            use_type_invariant(self);
        }
        let mut comments: Vec<PlanComment> = Vec::new();
        let ghost views = comment_views(self.comments@);
        let mut i: usize = 0;
        assert(comment_views(comments@) =~= views.take(0));
        while i < self.comments.len()
            invariant
                i <= self.comments.len(),
                views == comment_views(self.comments@),
                comment_views(comments@) == views.take(i as int),
            decreases self.comments.len() - i,
        {
            let ghost before = comment_views(comments@);
            let comment = PlanComment {
                first: self.comments[i].first,
                last: self.comments[i].last,
                text: self.comments[i].text.clone(),
            };
            comments.push(comment);
            assert(comment_views(comments@) =~= before.push(views[i as int]));
            i += 1;
            assert(views.take(i as int) =~= before.push(views[i - 1]));
        }
        assert(views.take(i as int) =~= views);
        PlanReview {
            text: self.text.clone(),
            scroll: self.scroll,
            cursor: self.cursor,
            anchor: self.anchor,
            comments,
            focus: self.focus,
            commenting: self.commenting,
            path: text::copy_opt(&self.path),
            answered: self.answered,
        }
    }
}

/// What the agent reads of a comment.
fn read_comment(lines: &Vec<String>, comment: &PlanComment) -> (r: String)
    ensures
        r@ == comment_text(texts(lines@), comment@),
{
    let first = text::decimal(comment.first as u64);
    let mut r = if comment.first == comment.last {
        text::concat3("Proposed plan line ", first.as_str(), ":")
    } else {
        let last = text::decimal(comment.last as u64);
        let mut label = text::concat3("Proposed plan lines ", first.as_str(), "-");
        label.append(last.as_str());
        label.append(":");
        label
    };
    let quotation = quote(lines, comment.first, comment.last);
    r.append("\n");
    r.append(quotation.as_str());
    r.append("\n\nComment:\n");
    r.append(comment.text.as_str());
    r
}

/// The lines that a comment is about, each marked as a quotation.
fn quote(lines: &Vec<String>, first: usize, last: usize) -> (r: String)
    ensures
        r@ == quoted(texts(lines@), first as int, last as int),
{
    let ghost all = texts(lines@);
    assert(all.len() == lines.len());
    let from: usize = if first > 0 {
        first - 1
    } else {
        0
    };
    let to: usize = if last < lines.len() {
        last
    } else {
        lines.len()
    };
    let mut marked = text::no_texts();
    if from > to {
        let none = String::new();
        assert(none@ =~= Seq::<char>::empty());
        return none;
    }
    let ghost wanted = marked_lines(all.subrange(from as int, to as int));
    let mut i: usize = from;
    assert(texts(marked@) =~= wanted.take(0));
    while i < to
        invariant
            from <= i <= to <= lines.len(),
            all == texts(lines@),
            wanted == marked_lines(all.subrange(from as int, to as int)),
            texts(marked@) == wanted.take(i - from),
        decreases to - i,
    {
        let line = text::concat("> ", lines[i].as_str());
        assert(all[i as int] == lines@[i as int]@);
        text::push_text(&mut marked, line.as_str());
        i += 1;
        assert(wanted.take(i - from) =~= wanted.take(i - 1 - from).push(wanted[i - 1 - from]));
    }
    assert(wanted.take(i - from) =~= wanted);
    text::join(&marked, "\n")
}

/// A text that says something has a line.
proof fn lemma_words_make_lines(s: Seq<char>)
    requires
        trimmed(s).len() > 0,
    ensures
        lines_of(s).len() > 0,
{
    text::lemma_split_nonempty(s, '\n');
    if lines_of(s).len() == 0 {
        assert(text::split_on(s, '\n').len() == 1);
        assert(text::split_on(s, '\n').last().len() == 0);
        lemma_one_piece(s, '\n');
    }
}

/// A text of one piece is that piece.
proof fn lemma_one_piece(s: Seq<char>, c: char)
    requires
        text::split_on(s, c).len() == 1,
    ensures
        text::split_on(s, c)[0] == s,
    decreases s.len(),
{
    if s.len() == 0 {
        assert(text::split_on(s, c)[0] =~= s);
    } else {
        text::lemma_split_nonempty(s.drop_last(), c);
        lemma_one_piece(s.drop_last(), c);
        assert(s.drop_last().push(s.last()) =~= s);
    }
}

/// The plan in a call's arguments: the arguments themselves, or the first of the members that it
/// may be called, where one is a text.
pub open spec fn plan_in(arguments: JsonView) -> Seq<char> {
    match arguments {
        JsonView::Text(t) => t,
        _ => match text_member(arguments, "plan"@) {
            Some(t) => t,
            None => match text_member(arguments, "plan_text"@) {
                Some(t) => t,
                None => match text_member(arguments, "content"@) {
                    Some(t) => t,
                    None => match text_member(arguments, "text"@) {
                        Some(t) => t,
                        None => Seq::empty(),
                    },
                },
            },
        },
    }
}

/// The plan out of an `exit_plan_mode` call's arguments.
///
/// Several spellings are accepted because the argument name belongs to whichever tool pack ships
/// the tool, and a surface that recognized only one of them would draw an empty review for a plan
/// that was right there.
pub fn plan_text(call: &ToolCall) -> (r: String)
    ensures
        r@ == plan_in(call@.arguments),
{
    if let Json::Text(t) = &call.arguments {
        return t.clone();
    }
    if let Some(t) = call.arguments.get_text("plan") {
        return text::copy(t);
    }
    if let Some(t) = call.arguments.get_text("plan_text") {
        return text::copy(t);
    }
    if let Some(t) = call.arguments.get_text("content") {
        return text::copy(t);
    }
    if let Some(t) = call.arguments.get_text("text") {
        return text::copy(t);
    }
    let none = String::new();
    assert(none@ =~= Seq::<char>::empty());
    none
}

/// A text without the `c`s at its start.
pub open spec fn without_leading(s: Seq<char>, c: char) -> Seq<char>
    decreases s.len(),
{
    if s.len() > 0 && s[0] == c {
        without_leading(s.drop_first(), c)
    } else {
        s
    }
}

/// A text without the `c`s at its start.
fn trim_start_matches(s: &str, c: char) -> (r: String)
    ensures
        r@ == without_leading(s@, c),
{
    let v = text::to_chars(s);
    let mut from: usize = 0;
    assert(v@.skip(0) =~= v@);
    while from < v.len() && v[from] == c
        invariant
            from <= v.len(),
            without_leading(v@, c) == without_leading(v@.skip(from as int), c),
        decreases v.len() - from,
    {
        assert(v@.skip(from as int).drop_first() =~= v@.skip(from + 1));
        from += 1;
    }
    assert(v@.skip(from as int) =~= v@.subrange(from as int, v.len() as int));
    text::from_chars(&v, from, v.len())
}

/// A line as a title: without the marks of a heading and the blanks around it.
pub open spec fn heading_text(line: Seq<char>) -> Seq<char> {
    trimmed(without_leading(trimmed(line), '#'))
}

/// Whether a text says anything: there is a letter or a digit in it.
pub open spec fn worded(s: Seq<char>) -> bool {
    exists|k: int| 0 <= k < s.len() && alphanumeric(#[trigger] s[k])
}

/// Whether a line is a markdown heading: one to six marks, white space, and a title behind.
pub open spec fn is_heading(line: Seq<char>) -> bool {
    let bare = without_leading(trimmed(line), '#');
    let marks = trimmed(line).len() - bare.len();
    1 <= marks <= 6 && bare.len() > 0 && white_space(bare[0])
}

/// The first of some lines, from `i` on, that says anything, or only the first heading.
pub open spec fn title_from(lines: Seq<Seq<char>>, i: int, headings: bool) -> Seq<char>
    decreases lines.len() - i,
{
    if i < 0 || i >= lines.len() {
        Seq::empty()
    } else if worded(heading_text(lines[i])) && (headings ==> is_heading(lines[i])) {
        heading_text(lines[i])
    } else {
        title_from(lines, i + 1, headings)
    }
}

/// The title of a plan: its first heading that says anything, or, where it has none, its first
/// line that does.
pub open spec fn title_of(plan: Seq<char>) -> Seq<char> {
    let heading = title_from(lines_of(plan), 0, true);
    if heading.len() > 0 {
        heading
    } else {
        title_from(lines_of(plan), 0, false)
    }
}

/// The lower-case form of a character.
pub uninterp spec fn lowered_char(c: char) -> Seq<char>;

/// `char::to_lowercase`. The mapping is Unicode's; of ASCII it is claimed that each of the
/// letters A to Z becomes its lower-case form and every other character stays.
#[verifier::external_body]
fn lower_char(c: char) -> (r: String)
    ensures
        r@ == lowered_char(c),
        c <= '\u{7f}' ==> r@ == seq![text::ascii_lower(c)],
{
    c.to_lowercase().to_string()
}

/// How many bytes a file name made of a title may take before it is cut.
pub const SLUG_BYTES: usize = 60;

/// A file name with one more character of a title.
pub open spec fn slug_with(slug: Seq<char>, c: char) -> Seq<char> {
    if alphanumeric(c) {
        slug + lowered_char(c)
    } else if slug.len() > 0 && slug.last() == '-' {
        slug
    } else {
        slug.push('-')
    }
}

/// A file name made of a title from its character `i` on: a letter or a digit in lower case, one
/// hyphen for each run of others, and nothing once it is long enough.
pub open spec fn slug_from(title: Seq<char>, i: int, slug: Seq<char>) -> Seq<char>
    decreases title.len() - i,
{
    if i < 0 || i >= title.len() {
        slug
    } else {
        let next = slug_with(slug, title[i]);
        if byte_size(next) >= SLUG_BYTES {
            next
        } else {
            slug_from(title, i + 1, next)
        }
    }
}

/// The file name of a plan: its title, or a stamp where it has none.
pub open spec fn slug_of(plan: Seq<char>, stamp: Seq<char>) -> Seq<char> {
    let slug = without_trailing(
        without_leading(slug_from(title_of(plan), 0, Seq::empty()), '-'),
        '-',
    );
    if slug.len() > 0 {
        slug
    } else {
        stamp
    }
}

/// Whether a text says anything.
fn has_words(s: &str) -> (r: bool)
    ensures
        r == worded(s@),
{
    let v = text::to_chars(s);
    let mut i: usize = 0;
    while i < v.len()
        invariant
            i <= v.len(),
            v@ == s@,
            forall|k: int| 0 <= k < i ==> !alphanumeric(#[trigger] s@[k]),
        decreases v.len() - i,
    {
        if v[i].is_alphanumeric() {
            assert(alphanumeric(s@[i as int]));
            return true;
        }
        i += 1;
    }
    false
}

/// The first of some lines that says anything, or only the first heading.
fn first_title(lines: &Vec<String>, headings: bool) -> (r: String)
    ensures
        r@ == title_from(texts(lines@), 0, headings),
{
    let ghost all = texts(lines@);
    let mut i: usize = 0;
    while i < lines.len()
        invariant
            i <= lines.len(),
            all == texts(lines@),
            title_from(all, 0, headings) == title_from(all, i as int, headings),
        decreases lines.len() - i,
    {
        assert(all[i as int] == lines@[i as int]@);
        let line = text::trim(lines[i].as_str());
        let bare = trim_start_matches(line.as_str(), '#');
        let heading = text::trim(bare.as_str());
        if has_words(heading.as_str()) {
            let n: usize = bare.as_str().unicode_len();
            proof {
                lemma_without_leading(line@, '#');
            }
            let marks: usize = line.as_str().unicode_len() - n;
            let is_heading = 1 <= marks && marks <= 6 && n > 0 && text::is_white_space(
                bare.as_str().get_char(0),
            );
            if !headings || is_heading {
                return heading;
            }
        }
        i += 1;
    }
    let none = String::new();
    assert(none@ =~= Seq::<char>::empty());
    none
}

/// Nothing is added by taking the front away.
proof fn lemma_without_leading(s: Seq<char>, c: char)
    ensures
        without_leading(s, c).len() <= s.len(),
    decreases s.len(),
{
    if s.len() > 0 && s[0] == c {
        lemma_without_leading(s.drop_first(), c);
    }
}

/// The plan's own title.
fn title(plan: &str) -> (r: String)
    ensures
        r@ == title_of(plan@),
{
    let lines = text::lines(plan);
    let heading = first_title(&lines, true);
    if heading.as_str().unicode_len() > 0 {
        heading
    } else {
        first_title(&lines, false)
    }
}

/// The plan's own title, as a file name: the first markdown heading, or the first line that says
/// anything, cut to something a directory listing can be read at a glance. A plan with no words
/// in it at all is named by the stamp of the moment it arrived, since that is the only thing left
/// to tell it by.
pub fn plan_slug(plan: &str, stamp: &str) -> (r: String)
    ensures
        r@ == slug_of(plan@, stamp@),
{
    let title = title(plan);
    let v = text::to_chars(title.as_str());
    let mut slug = String::new();
    let mut i: usize = 0;
    let ghost whole = slug_from(v@, 0, Seq::empty());
    assert(slug@ =~= Seq::<char>::empty());
    let mut full = false;
    while i < v.len() && !full
        invariant
            i <= v.len(),
            full ==> whole == slug@,
            !full ==> whole == slug_from(v@, i as int, slug@),
        decreases v.len() - i,
    {
        let c = v[i];
        let ghost before = slug@;
        if c.is_alphanumeric() {
            let lower = lower_char(c);
            slug.append(lower.as_str());
        } else {
            let n: usize = slug.as_str().unicode_len();
            if n == 0 || slug.as_str().get_char(n - 1) != '-' {
                slug.push('-');
            }
        }
        assert(slug@ == slug_with(before, c));
        proof {
            support::byte_size_is_encoded_length(slug@);
        }
        full = slug.as_str().as_bytes().len() >= SLUG_BYTES;
        i += 1;
    }
    let front = trim_start_matches(slug.as_str(), '-');
    let bare = text::trim_end_matches(front.as_str(), '-');
    if bare.as_str().unicode_len() > 0 {
        bare
    } else {
        text::copy(stamp)
    }
}

/// Where a plan is written: under `plans`, named for its own title, so the directory reads as a
/// list of what was planned. A revised plan under the same title replaces its earlier draft.
pub open spec fn plan_path(home: Seq<char>, slug: Seq<char>) -> Seq<char> {
    path_joined(path_joined(home, "plans"@), slug + ".md"@)
}

/// Where a plan is written, and what is written there; nothing for a plan that says nothing.
pub fn plan_file(home: &AbsPath, plan: &str, stamp: &str) -> (r: Option<(String, String)>)
    ensures
        match r {
            None => trimmed(plan@).len() == 0,
            Some((path, content)) => trimmed(plan@).len() > 0 && path@ == plan_path(
                home@,
                slug_of(plan@, stamp@),
            ) && content@ == trimmed_end(plan@) + "\n"@,
        },
{
    if text::trim(plan).as_str().unicode_len() == 0 {
        return None;
    }
    let slug = plan_slug(plan, stamp);
    let name = text::concat(slug.as_str(), ".md");
    let directory = paths::join_paths(home.as_str(), "plans");
    let path = paths::join_paths(directory.as_str(), name.as_str());
    let body = text::trim_end(plan);
    Some((path, text::concat(body.as_str(), "\n")))
}

// Laws.

/// A plan with a word in it has a title with one: it is not named by the moment it arrived.
pub proof fn a_plan_with_words_is_named_by_them(plan: Seq<char>, i: int)
    requires
        0 <= i < lines_of(plan).len(),
        worded(heading_text(lines_of(plan)[i])),
    ensures
        worded(title_of(plan)),
{
    lemma_title_is_worded(lines_of(plan), 0, true);
    lemma_title_is_worded(lines_of(plan), 0, false);
    lemma_title_is_found(lines_of(plan), 0, i);
}

/// A title says something, where there is one.
proof fn lemma_title_is_worded(lines: Seq<Seq<char>>, from: int, headings: bool)
    ensures
        title_from(lines, from, headings).len() > 0 ==> worded(title_from(lines, from, headings)),
    decreases lines.len() - from,
{
    if 0 <= from < lines.len() {
        lemma_title_is_worded(lines, from + 1, headings);
    }
}

/// A line that says something leads to a title.
proof fn lemma_title_is_found(lines: Seq<Seq<char>>, from: int, i: int)
    requires
        0 <= from <= i < lines.len(),
        worded(heading_text(lines[i])),
    ensures
        title_from(lines, from, false).len() > 0,
    decreases i - from,
{
    if from < i && !worded(heading_text(lines[from])) {
        lemma_title_is_found(lines, from + 1, i);
    }
}

/// A bare yes stays a bare yes: without comments and without notes there is no feedback, and with
/// either there is some.
pub proof fn feedback_is_what_was_said(review: ReviewView, freeform: Option<Seq<char>>)
    ensures
        review.feedback(freeform) is None <==> review.comments.len() == 0 && (freeform is None
            || trimmed(freeform->0).len() == 0),
{
}

/// Whatever is done to a review, its comments are about lines that the plan has.
pub proof fn a_comment_names_lines_that_exist(
    review: ReviewView,
    delta: int,
    extend: bool,
    said: Seq<char>,
)
    requires
        review.valid(),
    ensures
        review.cursor_moved(delta, extend).valid(),
        !review.is_empty() ==> review.comment_begun().valid(),
        review.commented(said).valid(),
        review.previewed().valid(),
{
    assert(review.cursor_moved(delta, extend).comments == review.comments);
    if !review.is_empty() {
        lemma_words_make_lines(review.text);
        assert(review.comment_begun().comments == review.comments);
    }
    let after = review.commented(said);
    assert forall|i: int| 0 <= i < after.comments.len() implies after.has_lines(
        (#[trigger] after.comments[i]).first,
        after.comments[i].last,
    ) by {
        if i < review.comments.len() {
            assert(after.comments[i] == review.comments[i]);
        }
    }
}

/// Moving the selection keeps the selected row on screen, where there is a screen.
pub proof fn the_selected_row_is_shown(review: ReviewView, row: int, visible: int)
    requires
        0 <= row,
        0 < visible,
    ensures
        review.revealed(row, visible).scroll <= row < review.revealed(row, visible).scroll
            + visible,
{
}

/// A comment quotes the lines it is about, all of them and no other, each marked, behind their
/// numbers, and then says what was said.
pub proof fn a_comment_quotes_its_lines(lines: Seq<Seq<char>>, comment: CommentView)
    requires
        1 <= comment.first <= comment.last <= lines.len(),
    ensures
        ({
            let n = (comment.last - comment.first + 1) as nat;
            let quotes = Seq::new(n, |i: int| seq!['>', ' '] + lines[comment.first - 1 + i]);
            let numbers = if n == 1 {
                "Proposed plan line "@ + decimal_of(comment.first as nat)
            } else {
                "Proposed plan lines "@ + decimal_of(comment.first as nat) + "-"@ + decimal_of(
                    comment.last as nat,
                )
            };
            comment_text(lines, comment) == numbers + ":"@ + "\n"@ + joined(quotes, "\n"@)
                + "\n\nComment:\n"@ + comment.text
        }),
{
    reveal_strlit("> ");
    assert("> "@ =~= seq!['>', ' ']);
    let n = (comment.last - comment.first + 1) as nat;
    let quotes = Seq::new(n, |i: int| seq!['>', ' '] + lines[comment.first - 1 + i]);
    assert(marked_lines(lines.subrange(comment.first - 1, comment.last)) =~= quotes);
}

/// What the agent reads of a review is every comment, in order, and then the notes, where there are
/// any, with a blank line between each two.
pub proof fn feedback_holds_every_comment(
    lines: Seq<Seq<char>>,
    comments: Seq<CommentView>,
    notes: Seq<char>,
)
    requires
        comments.len() > 0,
    ensures
        feedback_text(lines, comments, None) == Some(
            joined(comments.map_values(|c: CommentView| comment_text(lines, c)), "\n\n"@),
        ),
        trimmed(notes).len() > 0 ==> feedback_text(lines, comments, Some(notes)) == Some(
            joined(comments.map_values(|c: CommentView| comment_text(lines, c)), "\n\n"@)
                + "\n\n"@ + ("Additional feedback:\n"@ + trimmed(notes)),
        ),
        trimmed(notes).len() == 0 ==> feedback_text(lines, comments, Some(notes)) == feedback_text(
            lines,
            comments,
            None,
        ),
        feedback_text(lines, Seq::empty(), Some(notes)) == (if trimmed(notes).len() > 0 {
            Some(trimmed(notes))
        } else {
            None
        }),
{
    let remarks = comment_texts(lines, comments);
    let more = "Additional feedback:\n"@ + trimmed(notes);
    assert(remarks.push(more).drop_last() =~= remarks);
    assert(comment_texts(lines, Seq::empty()) =~= Seq::empty());
}

/// A comment is kept with the lines that were selected when it was begun, behind those before it;
/// one that says nothing leaves them as they were.
pub proof fn a_comment_is_kept(review: ReviewView, said: Seq<char>)
    ensures
        ({
            let next = review.comment_begun().commented(said);
            let (first, last) = review.selection();
            &&& trimmed(said).len() > 0 ==> next.comments == review.comments.push(
                CommentView { first: first + 1, last: last + 1, text: trimmed(said) },
            )
            &&& trimmed(said).len() == 0 ==> next.comments == review.comments
            &&& next.commenting is None
            &&& next.text == review.text && next.cursor == review.cursor
        }),
{
}

/// Moving the selection moves it by as many lines as asked, as far as the plan goes; growing it keeps
/// the line it was begun on, and both ends are selected.
pub proof fn a_selection_grows_from_where_it_began(review: ReviewView, delta: int, extend: bool)
    requires
        review.valid(),
        review.line_count() > 0,
        review.line_count() < usize::MAX,
        -usize::MAX <= delta <= usize::MAX,
    ensures
        ({
            let next = review.cursor_moved(delta, extend);
            let to = review.cursor + delta;
            let last = review.line_count() - 1;
            &&& 0 <= to <= last ==> next.cursor == to
            &&& to < 0 ==> next.cursor == 0
            &&& to > last ==> next.cursor == last
            &&& !extend ==> next.selection() == (next.cursor, next.cursor)
            &&& extend && review.anchor is None ==> {
                &&& next.selection().0 == (if next.cursor < review.cursor {
                    next.cursor
                } else {
                    review.cursor
                })
                &&& next.selection().1 == (if next.cursor < review.cursor {
                    review.cursor
                } else {
                    next.cursor
                })
            }
            &&& extend && review.anchor is Some ==> next.anchor == review.anchor
            &&& next.comments == review.comments && next.text == review.text
        }),
{
}

/// The title of a plan is the first of its lines that says anything, headings first.
pub proof fn the_title_is_the_first_line_that_says_anything(
    lines: Seq<Seq<char>>,
    i: int,
    headings: bool,
)
    requires
        0 <= i <= lines.len(),
    ensures
        ({
            let title = title_from(lines, i, headings);
            &&& title.len() > 0 ==> exists|k: int|
                {
                    &&& i <= k < lines.len()
                    &&& title == heading_text(#[trigger] lines[k])
                    &&& worded(title)
                    &&& headings ==> is_heading(lines[k])
                    &&& forall|j: int|
                        i <= j < k ==> !(worded(heading_text(#[trigger] lines[j])) && (headings
                            ==> is_heading(lines[j])))
                }
            &&& title.len() == 0 ==> forall|j: int|
                i <= j < lines.len() ==> !(worded(heading_text(#[trigger] lines[j])) && (headings
                    ==> is_heading(lines[j])))
        }),
    decreases lines.len() - i,
{
    if i < lines.len() {
        if worded(heading_text(lines[i])) && (headings ==> is_heading(lines[i])) {
            assert(title_from(lines, i, headings) == heading_text(lines[i]));
        } else {
            the_title_is_the_first_line_that_says_anything(lines, i + 1, headings);
        }
    }
}

} // verus!

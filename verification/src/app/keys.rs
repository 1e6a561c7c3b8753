//! Key and mouse handling, as a table.

use vstd::prelude::*;
use crate::app::command::{completions_of, is_blank};
use crate::app::{hits, subagent_of, toggle_of, toggled, App, AppView, Turn};
use crate::file_search::{context_view, match_views, Ask, AtContext, AtContextView, Snapshot};
use crate::input::{holding, pasted, without_last_word, InputView};
use crate::plan::PlanFocus;
use crate::protocol::PermissionAnswer;
use crate::scroll::Scrollback;
use crate::text;
use crate::transcript::{last_head, open_id};

verus! {

/// How many transcript lines one wheel notch moves.
pub const WHEEL_LINES: usize = 3;

/// A key.
#[derive(Clone, Copy, Debug, PartialEq, Eq, Structural)]
pub enum Key {
    Char(char),
    Enter,
    Esc,
    Tab,
    /// Shift-Tab reaches a terminal as this, except where it does not.
    BackTab,
    Backspace,
    Delete,
    Left,
    Right,
    Up,
    Down,
    Home,
    End,
    PageUp,
    PageDown,
    Other,
}

/// A key with what is held down beside it.
#[derive(Clone, Copy, Debug, PartialEq, Eq, Structural)]
pub struct KeyPress {
    pub key: Key,
    pub control: bool,
    pub alt: bool,
    pub shift: bool,
    /// Some terminals report the release too; acting on both would type twice.
    pub released: bool,
}

/// What the mouse did.
#[derive(Clone, Copy, Debug, PartialEq, Eq, Structural)]
pub enum MouseKind {
    ScrollUp,
    ScrollDown,
    Press,
    Drag,
    Release,
    Other,
}

/// What the mouse did, and where.
#[derive(Clone, Copy, Debug, PartialEq, Eq, Structural)]
pub struct Mouse {
    pub kind: MouseKind,
    pub column: u16,
    pub row: u16,
}

/// The keys that a menu takes over while it is open.
pub open spec fn is_menu_key(key: Key) -> bool {
    key == Key::Up || key == Key::Down || key == Key::Tab || key == Key::Enter || key == Key::Esc
}

/// The letters that do something while control is held down.
pub open spec fn is_bound(c: char) -> bool {
    c == 'c' || c == 'd' || c == 't' || c == 'l' || c == 'o' || c == 'j' || c == 'a' || c == 'e'
        || c == 'b' || c == 'f' || c == 'u' || c == 'k' || c == 'w' || c == 'p' || c == 'n'
}

impl AppView {
    /// With the `@`-token that the cursor is in.
    pub open spec fn synced(self, context: Option<AtContextView>) -> AppView {
        AppView { file_search: self.file_search.updated(context).0, ..self }
    }

    /// With another text in the composer.
    pub open spec fn typed(self, input: InputView) -> AppView {
        AppView { input, ..self }
    }

    /// With the view elsewhere in the conversation.
    pub open spec fn scrolled(self, scroll: Scrollback) -> AppView {
        AppView { scroll, ..self }
    }

    /// With an older prompt in the composer.
    pub open spec fn recalled_older(self) -> AppView {
        let (history, prompt) = self.history.older(self.input.text());
        AppView {
            history,
            input: match prompt {
                Some(prompt) => holding(prompt),
                None => self.input,
            },
            ..self
        }
    }

    /// With a newer prompt in the composer.
    pub open spec fn recalled_newer(self) -> AppView {
        let (history, prompt) = self.history.newer();
        AppView {
            history,
            input: match prompt {
                Some(prompt) => holding(prompt),
                None => self.input,
            },
            ..self
        }
    }

    /// Up moves within a prompt of several lines first and recalls a past one only from the top
    /// line, so the arrow keys never yank away text somebody is still editing further down. With
    /// nothing typed it recalls too, but for a mouse that was handed back: then the wheel arrives
    /// as arrow keys, and they belong to the transcript.
    pub open spec fn moved_up(self) -> AppView {
        if is_blank(self.input) {
            if self.mouse_capture {
                self.recalled_older()
            } else {
                self.scrolled(self.scroll.at(self.scroll.top() - 1))
            }
        } else if self.input.row > 0 {
            self.typed(self.input.on_row(self.input.row - 1))
        } else {
            self.recalled_older()
        }
    }

    /// Down is the mirror of up.
    pub open spec fn moved_down(self) -> AppView {
        if is_blank(self.input) {
            if self.mouse_capture {
                self.recalled_newer()
            } else {
                self.scrolled(self.scroll.at(self.scroll.top() + 1))
            }
        } else if self.input.row + 1 < self.input.lines.len() {
            self.typed(self.input.on_row(self.input.row + 1))
        } else {
            self.recalled_newer()
        }
    }

    /// With the newest run of calls opened or closed.
    pub open spec fn last_toggled(self) -> AppView {
        let cells = self.transcript.cells;
        match last_head(cells, cells.len() as int) {
            Some(key) => AppView { expanded: toggled(self.expanded, key as usize), ..self },
            None => self.flashed("nothing to expand"@),
        }
    }

    /// What a letter does while control is held down.
    pub open spec fn control_key(self, c: char) -> AppView {
        let input = self.input;
        if c == 'c' {
            self.interrupted()
        } else if c == 'd' {
            AppView { should_quit: true, ..self }
        } else if c == 't' {
            AppView { show_thinking: !self.show_thinking, ..self }
        } else if c == 'l' {
            self.following()
        } else if c == 'o' {
            self.last_toggled()
        } else if c == 'j' {
            self.typed(input.broken())
        } else if c == 'a' {
            self.typed(input.at(input.row, 0))
        } else if c == 'e' {
            self.typed(input.at(input.row, input.line().len() as int))
        } else if c == 'b' {
            self.typed(input.left())
        } else if c == 'f' {
            self.typed(input.right())
        } else if c == 'u' {
            self.typed(input.with_line(Seq::empty(), input.tail()))
        } else if c == 'k' {
            self.typed(input.with_line(input.head(), Seq::empty()))
        } else if c == 'w' {
            self.typed(input.with_line(without_last_word(input.head()), input.tail()))
        } else if c == 'p' {
            self.recalled_older()
        } else if c == 'n' {
            self.recalled_newer()
        } else {
            self
        }
    }

    /// What a key does to the composer.
    pub open spec fn edit_key(self, press: KeyPress) -> AppView {
        let input = self.input;
        match press.key {
            Key::Char(c) => if press.control {
                self
            } else {
                self.typed(input.inserted(seq![c]))
            },
            Key::Backspace => self.typed(input.backspaced()),
            Key::Delete => self.typed(input.deleted()),
            Key::Left => self.typed(input.left()),
            Key::Right => self.typed(input.right()),
            Key::Up => self.moved_up(),
            Key::Down => self.moved_down(),
            Key::Home => self.typed(input.at(input.row, 0)),
            Key::End => self.typed(input.at(input.row, input.line().len() as int)),
            _ => self,
        }
    }

    /// While an overlay is up, these keys drive it, letters included: it filters as you type, and
    /// a keystroke that went into the composer behind it would be invisible until it closed.
    pub open spec fn picker_key(self, key: Key) -> AppView {
        match key {
            Key::Up => self.picker_moved(-1),
            Key::Down => self.picker_moved(1),
            Key::Tab => self.picker_moved(1),
            Key::Enter => self.picker_accepted(),
            Key::Esc => self.picker_closed(),
            Key::Backspace => match self.picker {
                Some(picker) => self.picker_filtered(
                    if picker.query.len() > 0 {
                        picker.query.drop_last()
                    } else {
                        picker.query
                    },
                ),
                None => self,
            },
            Key::Char(c) => match self.picker {
                Some(picker) => self.picker_filtered(picker.query.push(c)),
                None => self,
            },
            _ => self,
        }
    }

    /// While the completion menu is up, these keys drive it. Enter runs the highlighted command
    /// rather than whatever prefix is in the box: the highlight is what the person is looking at.
    pub open spec fn completion_key(self, key: Key) -> AppView {
        match key {
            Key::Up => self.completion_moved(false),
            Key::Down => self.completion_moved(true),
            Key::Tab => self.completed(),
            Key::Enter => self.completed().submitted(),
            Key::Esc => self.typed(InputView::blank()),
            _ => self,
        }
    }

    /// With the highlighted file in the place of the token, where the line still has it.
    pub open spec fn file_accepted(self) -> AppView {
        let cleared = self.file_search.cleared();
        AppView {
            input: match self.file_search.accepted() {
                Some(r) => if 0 <= r.from <= r.to <= self.input.line().len() {
                    self.input.replaced(r.from, r.to, r.text)
                } else {
                    self.input
                },
                None => self.input,
            },
            file_search: cleared,
            ..self
        }
    }

    /// While the file dropdown is open, these keys drive it instead of editing the composer.
    pub open spec fn file_search_key(self, key: Key) -> AppView {
        match key {
            Key::Up => AppView { file_search: self.file_search.moved(-1), ..self },
            Key::Down => AppView { file_search: self.file_search.moved(1), ..self },
            Key::Tab => self.file_accepted(),
            Key::Enter => self.file_accepted(),
            Key::Esc => AppView { file_search: self.file_search.cleared(), ..self },
            _ => self,
        }
    }

    /// While a prompt is open the letter keys answer it instead of typing. The turn is blocked
    /// either way, so a keystroke that silently went into the input box would look like the
    /// interface had stopped responding.
    pub open spec fn permission_key(self, key: Key) -> AppView {
        match key {
            Key::Char(c) => if c == 'y' {
                self.answered(PermissionAnswer::Allow, None)
            } else if c == 'a' {
                self.answered(PermissionAnswer::AllowAlways, None)
            } else if c == 'n' || c == 'd' {
                self.answered(PermissionAnswer::Deny, None)
            } else {
                self
            },
            Key::Esc => self.answered(PermissionAnswer::Deny, None),
            _ => self,
        }
    }

    /// While a plan is previewed, these keys select its lines and answer it.
    pub open spec fn preview_key(self, press: KeyPress) -> AppView {
        match press.key {
            Key::Char(c) => if c == 'a' {
                self.plan_allowed()
            } else if c == 's' {
                self.plan_changes_requested()
            } else if c == 'q' {
                self.plan_quit()
            } else if c == 'y' {
                self.plan_copied()
            } else if c == 'c' {
                self.plan_comment_begun()
            } else if c == 'j' {
                self.plan_cursor_moved(1, press.shift)
            } else if c == 'k' {
                self.plan_cursor_moved(-1, press.shift)
            } else {
                self
            },
            Key::Down => self.plan_cursor_moved(1, press.shift),
            Key::Up => self.plan_cursor_moved(-1, press.shift),
            Key::Tab => self.plan_focus_toggled(),
            _ => self,
        }
    }

    /// With the selected line of the plan moved.
    pub open spec fn plan_cursor_moved(self, delta: int, extend: bool) -> AppView {
        match self.plan {
            Some(review) => self.with_review(review.cursor_moved(delta, extend)),
            None => self,
        }
    }

    /// While a remark on a plan is being written, these keys write it. No letter answers the plan
    /// here.
    pub open spec fn composer_key(self, press: KeyPress) -> AppView {
        match press.key {
            Key::Enter => if press.shift || press.alt {
                self.typed(self.input.broken())
            } else {
                self.plan_composer_submitted()
            },
            Key::Esc => self.plan_previewed(),
            Key::Tab => self.plan_focus_toggled(),
            _ => self.edit_key(press),
        }
    }

    /// What a key does to the part of the interface that has the keyboard. A menu owns its keys
    /// only while it is open, so nothing a person can press changes meaning without them seeing
    /// the list it applies to.
    pub open spec fn open_key(self, press: KeyPress) -> AppView {
        if completions_of(self.commands, self.input).len() > 0 && is_menu_key(press.key) {
            self.completion_key(press.key)
        } else if self.file_search.context is Some && is_menu_key(press.key) {
            self.file_search_key(press.key)
        } else if press.key == Key::Enter {
            self.submitted()
        } else if open_id(self.transcript.cells) is Some {
            self.permission_key(press.key)
        } else {
            self.edit_key(press)
        }
    }

    /// What a key does where no overlay and no plan has the keyboard.
    pub open spec fn plain_key(self, press: KeyPress) -> AppView {
        match press.key {
            Key::Char(c) => if press.control && is_bound(c) {
                self.control_key(c)
            } else {
                self.open_key(press)
            },
            // A visible popup owns escape: one of a subagent is open exactly while the turn is
            // busy, so without this it could never be closed.
            Key::Esc => if self.open_subagent is Some {
                AppView { open_subagent: None, ..self }
            } else if self.turn != Turn::Idle {
                self.interrupted()
            } else {
                self.open_key(press)
            },
            Key::PageUp => self.scrolled(self.scroll.at(self.scroll.top() - self.scroll.page())),
            Key::PageDown => self.scrolled(self.scroll.at(self.scroll.top() + self.scroll.page())),
            Key::Enter => if press.shift || press.alt {
                self.typed(self.input.broken())
            } else {
                self.open_key(press)
            },
            Key::BackTab => self.policy_cycled(),
            Key::Tab => if press.shift {
                self.policy_cycled()
            } else {
                self.open_key(press)
            },
            _ => self.open_key(press),
        }
    }

    /// What a key does.
    pub open spec fn pressed(self, press: KeyPress) -> AppView {
        if press.released {
            self
        } else if self.picker is Some && !press.control {
            self.picker_key(press.key)
        } else if self.plan is Some && !press.control {
            if self.plan->0.focus == PlanFocus::Preview {
                self.preview_key(press)
            } else {
                self.composer_key(press)
            }
        } else {
            self.plain_key(press)
        }
    }

    /// What pasted text does: it lands as text, and its line breaks submit nothing. It is ignored
    /// while a prompt owns the keyboard.
    pub open spec fn pasted(self, paste: Seq<char>) -> AppView {
        if open_id(self.transcript.cells) is Some {
            self
        } else {
            self.typed(pasted(self.input, paste, 0))
        }
    }

    /// What the mouse does. The wheel scrolls, and drops a selection that is pinned to rows which
    /// hold something else now. A press is not yet a click: what it becomes is decided on release,
    /// so the same gesture can open a tool call or select the line it is drawn on.
    pub open spec fn moused(self, mouse: Mouse) -> AppView {
        let at = (mouse.row, mouse.column);
        match mouse.kind {
            MouseKind::ScrollUp => AppView {
                selection: self.selection.cleared(),
                ..self
            }.scrolled(self.scroll.at(self.scroll.top() - WHEEL_LINES)),
            MouseKind::ScrollDown => AppView {
                selection: self.selection.cleared(),
                ..self
            }.scrolled(self.scroll.at(self.scroll.top() + WHEEL_LINES)),
            MouseKind::Press => if subagent_of(self.subagent_rows, mouse.row, 0) is Some {
                self.subagent_clicked(mouse.row)
            } else if hits(self.follow_button, mouse.column, mouse.row) {
                self.following()
            } else {
                AppView { selection: self.selection.pressed(at), ..self }
            },
            MouseKind::Drag => AppView { selection: self.selection.dragged_to(at), ..self },
            MouseKind::Release => {
                let now = AppView { selection: self.selection.released(), ..self };
                if self.selection.dragged && self.selection.text().len() > 0 {
                    now.selection_copied(self.selection.text())
                } else {
                    match toggle_of(self.toggles, mouse.row, 0) {
                        Some(key) => AppView { expanded: toggled(self.expanded, key), ..now },
                        None => now,
                    }
                }
            },
            MouseKind::Other => self,
        }
    }
}

/// The keys that a menu takes over while it is open.
fn menu_key(key: Key) -> (r: bool)
    ensures
        r == is_menu_key(key),
{
    matches!(key, Key::Up | Key::Down | Key::Tab | Key::Enter | Key::Esc)
}

/// The letters that do something while control is held down.
fn bound(c: char) -> (r: bool)
    ensures
        r == is_bound(c),
{
    matches!(
        c,
        'c' | 'd' | 't' | 'l' | 'o' | 'j' | 'a' | 'e' | 'b' | 'f' | 'u' | 'k' | 'w' | 'p' | 'n'
    )
}

impl App {
    /// The line that the cursor is on and where on it the cursor is, in characters: what an
    /// `@`-token is looked for in after every edit.
    pub fn at_cursor(&self) -> (r: (String, usize))
        ensures
            r.0@ == self@.input.line(),
            r.1 == self@.input.column,
    {
        let lines = self.input.lines();
        let (row, column) = self.input.cursor();
        assert(text::texts(lines@)[row as int] == lines@[row as int]@);
        (lines[row].clone(), column)
    }

    /// Takes the `@`-token that the cursor is in, if any, and says what to ask of the matcher. Call
    /// after every key and every paste: a token that was typed past must not keep its keys.
    pub fn sync_file_search(&mut self, context: Option<AtContext>) -> (r: Ask)
        requires
            old(self)@.file_search.min_generation < usize::MAX,
        ensures
            final(self)@ == old(self)@.synced(context_view(context)),
            r@ == old(self)@.file_search.updated(context_view(context)).1,
            old(self)@.valid() ==> final(self)@.valid(),
    {
        self.file_search.update(context)
    }

    /// Takes a snapshot of what the matcher found, on every tick of the clock. Says whether the list
    /// changed.
    pub fn tick_file_search(&mut self, snapshot: Snapshot) -> (r: bool)
        ensures
            r == old(self)@.file_search.takes(
                snapshot.matches.len() as int,
                snapshot.generation as int,
                snapshot.done,
                snapshot.fresh,
            ),
            final(self)@ == if r {
                AppView {
                    file_search: old(self)@.file_search.taken(
                        match_views(snapshot.matches@),
                        snapshot.generation as int,
                    ),
                    ..old(self)@
                }
            } else {
                old(self)@
            },
            old(self)@.valid() ==> final(self)@.valid(),
    {
        self.file_search.poll(snapshot)
    }

    /// A bracketed paste arrives as one event, so pasted text lands as text.
    pub fn handle_paste(&mut self, paste: &str)
        requires
            old(self)@.valid(),
        ensures
            final(self)@ == old(self)@.pasted(paste@),
            final(self)@.valid(),
    {
        if self.open_permission_id().is_some() {
            return ;
        }
        self.input.insert_str(paste);
    }

    fn recall_older(&mut self)
        requires
            old(self)@.valid(),
        ensures
            final(self)@ == old(self)@.recalled_older(),
            final(self)@.valid(),
    {
        let current = self.input.text();
        if let Some(prompt) = self.history.older(current.as_str()) {
            self.input.set_text(prompt.as_str());
        }
    }

    fn recall_newer(&mut self)
        requires
            old(self)@.valid(),
        ensures
            final(self)@ == old(self)@.recalled_newer(),
            final(self)@.valid(),
    {
        if let Some(prompt) = self.history.newer() {
            self.input.set_text(prompt.as_str());
        }
    }

    fn move_up(&mut self)
        requires
            old(self)@.valid(),
        ensures
            final(self)@ == old(self)@.moved_up(),
            final(self)@.valid(),
    {
        if self.input.is_empty() {
            if self.mouse_capture() {
                self.recall_older();
            } else {
                self.scroll.scroll_up(1);
            }
            return ;
        }
        if self.input.cursor().0 > 0 {
            self.input.move_up();
            return ;
        }
        self.recall_older();
    }

    fn move_down(&mut self)
        requires
            old(self)@.valid(),
        ensures
            final(self)@ == old(self)@.moved_down(),
            final(self)@.valid(),
    {
        if self.input.is_empty() {
            if self.mouse_capture() {
                self.recall_newer();
            } else {
                self.scroll.scroll_down(1);
            }
            return ;
        }
        let rows: usize = self.input.rows();
        let row: usize = self.input.cursor().0;
        if row < rows - 1 {
            self.input.move_down();
            return ;
        }
        self.recall_newer();
    }

    #[verifier::spinoff_prover]
    #[verifier::rlimit(40)]
    fn handle_control(&mut self, c: char)
        requires
            old(self)@.valid(),
        ensures
            final(self)@ == old(self)@.control_key(c),
            final(self)@.valid(),
    {
        match c {
            'c' => {
                self.interrupt();
            },
            'd' => {
                self.quit();
            },
            't' => {
                self.toggle_thinking();
            },
            'l' => {
                self.scroll.follow();
            },
            'o' => {
                self.toggle_last_expandable();
            },
            // Shift-Enter is invisible to many terminals, so this and Alt-Enter are equal
            // citizens, not fallbacks: one of the three works everywhere.
            'j' => {
                self.input.insert_newline();
            },
            // The bindings a terminal person has in every other prompt.
            'a' => {
                self.input.move_home();
            },
            'e' => {
                self.input.move_end();
            },
            'b' => {
                self.input.move_left();
            },
            'f' => {
                self.input.move_right();
            },
            'u' => {
                self.input.kill_to_start();
            },
            'k' => {
                self.input.kill_to_end();
            },
            'w' => {
                self.input.delete_word_before();
            },
            // History, always, whatever the composer holds.
            'p' => {
                self.recall_older();
            },
            'n' => {
                self.recall_newer();
            },
            _ => {},
        }
    }

    #[verifier::spinoff_prover]
    #[verifier::rlimit(40)]
    fn handle_edit_key(&mut self, press: KeyPress)
        requires
            old(self)@.valid(),
        ensures
            final(self)@ == old(self)@.edit_key(press),
            final(self)@.valid(),
    {
        match press.key {
            Key::Char(c) => {
                if !press.control {
                    self.input.insert_char(c);
                }
            },
            Key::Backspace => {
                self.input.backspace();
            },
            Key::Delete => {
                self.input.delete();
            },
            Key::Left => {
                self.input.move_left();
            },
            Key::Right => {
                self.input.move_right();
            },
            Key::Up => {
                self.move_up();
            },
            Key::Down => {
                self.move_down();
            },
            Key::Home => {
                self.input.move_home();
            },
            Key::End => {
                self.input.move_end();
            },
            _ => {},
        }
    }

    fn handle_picker_key(&mut self, key: Key)
        requires
            old(self)@.valid(),
        ensures
            final(self)@ == old(self)@.picker_key(key),
            final(self)@.valid(),
    {
        match key {
            Key::Up => {
                self.move_picker_selection(-1);
            },
            Key::Down | Key::Tab => {
                self.move_picker_selection(1);
            },
            Key::Enter => {
                self.accept_picker();
            },
            Key::Esc => {
                self.close_picker();
            },
            Key::Backspace => {
                self.backspace_in_picker();
            },
            Key::Char(c) => {
                self.type_into_picker(c);
            },
            _ => {},
        }
    }

    fn handle_completion_key(&mut self, key: Key)
        requires
            old(self)@.valid(),
        ensures
            final(self)@ == old(self)@.completion_key(key),
            final(self)@.valid(),
    {
        match key {
            Key::Up => {
                self.select_previous_completion();
            },
            Key::Down => {
                self.select_next_completion();
            },
            Key::Tab => {
                self.complete();
            },
            Key::Enter => {
                self.complete();
                self.submit();
            },
            Key::Esc => {
                self.input.clear();
            },
            _ => {},
        }
    }

    fn accept_file(&mut self)
        requires
            old(self)@.valid(),
        ensures
            final(self)@ == old(self)@.file_accepted(),
            final(self)@.valid(),
    {
        if let Some(replacement) = self.file_search.accept() {
            let (line, _) = self.at_cursor();
            let len: usize = line.as_str().unicode_len();
            if replacement.from <= replacement.to && replacement.to <= len {
                self.input.replace_line_range(
                    replacement.from,
                    replacement.to,
                    replacement.text.as_str(),
                );
            }
        }
        self.file_search.clear();
    }

    fn handle_file_search_key(&mut self, key: Key)
        requires
            old(self)@.valid(),
        ensures
            final(self)@ == old(self)@.file_search_key(key),
            final(self)@.valid(),
    {
        match key {
            Key::Up => {
                self.file_search.move_selection(-1);
            },
            Key::Down => {
                self.file_search.move_selection(1);
            },
            Key::Tab | Key::Enter => {
                self.accept_file();
            },
            Key::Esc => {
                self.file_search.clear();
            },
            _ => {},
        }
    }

    fn handle_permission_key(&mut self, key: Key)
        ensures
            final(self)@ == old(self)@.permission_key(key),
    {
        match key {
            Key::Char('y') => {
                self.answer_permission(PermissionAnswer::Allow);
            },
            Key::Char('a') => {
                self.answer_permission(PermissionAnswer::AllowAlways);
            },
            Key::Char('n') | Key::Char('d') | Key::Esc => {
                self.answer_permission(PermissionAnswer::Deny);
            },
            _ => {},
        }
    }

    #[verifier::spinoff_prover]
    #[verifier::rlimit(40)]
    fn handle_preview_key(&mut self, press: KeyPress)
        requires
            old(self)@.valid(),
        ensures
            final(self)@ == old(self)@.preview_key(press),
            final(self)@.valid(),
    {
        match press.key {
            Key::Char('a') => {
                self.allow_plan();
            },
            Key::Char('s') => {
                self.request_plan_changes();
            },
            Key::Char('q') => {
                self.quit_plan();
            },
            Key::Char('y') => {
                self.copy_plan();
            },
            Key::Char('c') => {
                self.begin_plan_comment();
            },
            Key::Char('j') | Key::Down => {
                self.move_plan_cursor(1, press.shift);
            },
            Key::Char('k') | Key::Up => {
                self.move_plan_cursor(-1, press.shift);
            },
            Key::Tab => {
                self.toggle_plan_focus();
            },
            _ => {},
        }
    }

    fn handle_composer_key(&mut self, press: KeyPress)
        requires
            old(self)@.valid(),
        ensures
            final(self)@ == old(self)@.composer_key(press),
            final(self)@.valid(),
    {
        match press.key {
            Key::Enter => {
                if press.shift || press.alt {
                    self.input.insert_newline();
                } else {
                    self.submit_plan_composer();
                }
            },
            Key::Esc => {
                self.focus_plan_preview();
            },
            Key::Tab => {
                self.toggle_plan_focus();
            },
            _ => {
                self.handle_edit_key(press);
            },
        }
    }

    fn handle_open_key(&mut self, press: KeyPress)
        requires
            old(self)@.valid(),
        ensures
            final(self)@ == old(self)@.open_key(press),
            final(self)@.valid(),
    {
        if self.is_completing() && menu_key(press.key) {
            self.handle_completion_key(press.key);
        } else if self.file_search.is_open() && menu_key(press.key) {
            self.handle_file_search_key(press.key);
        } else if matches!(press.key, Key::Enter) {
            self.submit();
        } else if self.open_permission_id().is_some() {
            self.handle_permission_key(press.key);
        } else {
            self.handle_edit_key(press);
        }
    }

    /// Whether the completion menu is open.
    pub fn is_completing(&self) -> (r: bool)
        ensures
            r == (completions_of(self@.commands, self@.input).len() > 0),
    {
        let all = self.completions();
        assert(crate::app::command::command_ref_views(all@).len() == all.len());
        all.len() > 0
    }

    #[verifier::spinoff_prover]
    #[verifier::rlimit(40)]
    fn handle_plain_key(&mut self, press: KeyPress)
        requires
            old(self)@.valid(),
        ensures
            final(self)@ == old(self)@.plain_key(press),
            final(self)@.valid(),
    {
        match press.key {
            Key::Char(c) => {
                if press.control && bound(c) {
                    self.handle_control(c);
                } else {
                    self.handle_open_key(press);
                }
            },
            Key::Esc => {
                if self.open_subagent().is_some() {
                    self.close_subagent();
                } else if self.turn().is_busy() {
                    self.interrupt();
                } else {
                    self.handle_open_key(press);
                }
            },
            Key::PageUp => {
                self.scroll.page_up();
            },
            Key::PageDown => {
                self.scroll.page_down();
            },
            Key::Enter => {
                if press.shift || press.alt {
                    self.input.insert_newline();
                } else {
                    self.handle_open_key(press);
                }
            },
            Key::BackTab => {
                self.cycle_approval_policy();
            },
            Key::Tab => {
                if press.shift {
                    self.cycle_approval_policy();
                } else {
                    self.handle_open_key(press);
                }
            },
            _ => {
                self.handle_open_key(press);
            },
        }
    }

    /// Takes a key. Afterwards, what stands at the cursor is to be looked at for an `@`-token.
    pub fn handle_key(&mut self, press: KeyPress)
        requires
            old(self)@.valid(),
        ensures
            final(self)@ == old(self)@.pressed(press),
            final(self)@.valid(),
    {
        if press.released {
            return ;
        }
        if self.picker().is_some() && !press.control {
            self.handle_picker_key(press.key);
            return ;
        }
        if self.plan_review().is_some() && !press.control {
            match self.plan_focus() {
                PlanFocus::Preview => {
                    self.handle_preview_key(press);
                },
                PlanFocus::Composer => {
                    self.handle_composer_key(press);
                },
            }
            return ;
        }
        self.handle_plain_key(press);
    }

    /// Takes what the mouse did.
    #[verifier::spinoff_prover]
    #[verifier::rlimit(40)]
    pub fn handle_mouse(&mut self, mouse: Mouse)
        requires
            old(self)@.valid(),
        ensures
            final(self)@ == old(self)@.moused(mouse),
            final(self)@.valid(),
    {
        match mouse.kind {
            MouseKind::ScrollUp => {
                self.selection.clear();
                self.scroll.scroll_up(WHEEL_LINES);
            },
            MouseKind::ScrollDown => {
                self.selection.clear();
                self.scroll.scroll_down(WHEEL_LINES);
            },
            MouseKind::Press => {
                // A row of a subagent is answered on press: it is not selectable text, so there
                // is no second meaning the gesture could turn out to have.
                if !self.open_subagent_at(mouse.row) {
                    if self.hit_follow_button(mouse.column, mouse.row) {
                        self.scroll.follow();
                    } else {
                        self.selection.press((mouse.row, mouse.column));
                    }
                }
            },
            MouseKind::Drag => {
                self.selection.drag_to((mouse.row, mouse.column));
            },
            MouseKind::Release => {
                match self.selection.release() {
                    Some(copy) => {
                        self.copy_selection(copy);
                    },
                    None => {
                        self.toggle_at(mouse.row);
                    },
                }
            },
            MouseKind::Other => {},
        }
    }
}

// Laws.

/// Control and C, pressed.
pub open spec fn control_c() -> KeyPress {
    KeyPress { key: Key::Char('c'), control: true, alt: false, shift: false, released: false }
}

/// Ctrl-C stops a turn before it quits: while one is under way it is cancelled, no call is left
/// running, and the interface stays; where there is none, the interface is left. No overlay and
/// no plan keeps it from doing so.
pub proof fn ctrl_c_stops_before_it_quits(app: AppView)
    ensures
        app.turn != Turn::Idle ==> {
            let after = app.pressed(control_c());
            &&& after.turn == Turn::Idle
            &&& after.should_quit == app.should_quit
            &&& after.effects == app.effects.push(crate::app::EffectView::Cancel)
            &&& forall|i: int|
                0 <= i < after.transcript.cells.len() ==> !((
                #[trigger] after.transcript.cells[i]) matches crate::transcript::CellView::Tool(
                    tool,
                ) && tool.state == crate::transcript::CallState::Running)
        },
        app.turn == Turn::Idle ==> app.pressed(control_c()).should_quit,
{
    if app.turn != Turn::Idle {
        let after = app.pressed(control_c());
        let cells = app.transcript.cells;
        assert forall|i: int| 0 <= i < after.transcript.cells.len() implies !((
        #[trigger] after.transcript.cells[i]) matches crate::transcript::CellView::Tool(tool)
            && tool.state == crate::transcript::CallState::Running) by {
            if i < cells.len() {
                assert(after.transcript.cells[i] == crate::transcript::cancelled(cells[i]));
            }
        }
    }
}

/// While an overlay is up, no key reaches the composer behind it.
pub proof fn an_overlay_owns_the_keyboard(app: AppView, press: KeyPress)
    requires
        app.picker is Some,
        !press.control,
    ensures
        app.pressed(press).input == app.input,
{
}

/// While a prompt holds the turn up, no letter lands in the composer: it answers the prompt or
/// does nothing.
pub proof fn a_prompt_takes_the_letters(app: AppView, c: char, alt: bool, shift: bool)
    requires
        open_id(app.transcript.cells) is Some,
        app.picker is None,
        app.plan is None,
    ensures
        ({
            let press = KeyPress { key: Key::Char(c), control: false, alt, shift, released: false };
            let after = app.pressed(press);
            &&& after.input == app.input
            &&& after == app || after.effects.len() == app.effects.len() + 1
        }),
{
}

/// While a remark on a plan is being written, no letter answers the plan.
pub proof fn no_letter_answers_a_plan_from_the_composer(
    app: AppView,
    c: char,
    alt: bool,
    shift: bool,
)
    requires
        app.plan is Some,
        app.plan->0.focus == PlanFocus::Composer,
        app.picker is None,
    ensures
        ({
            let press = KeyPress { key: Key::Char(c), control: false, alt, shift, released: false };
            let after = app.pressed(press);
            &&& after.plan == app.plan
            &&& after.effects == app.effects
            &&& after.input == app.input.inserted(seq![c])
        }),
{
}

/// Escape reaches the popup of a subagent before it reaches the turn.
pub proof fn escape_closes_a_popup_first(app: AppView)
    requires
        app.open_subagent is Some,
        app.picker is None,
        app.plan is None,
    ensures
        ({
            let press = KeyPress {
                key: Key::Esc,
                control: false,
                alt: false,
                shift: false,
                released: false,
            };
            &&& app.pressed(press).open_subagent is None
            &&& app.pressed(press).turn == app.turn
            &&& app.pressed(press).effects == app.effects
        }),
{
}

/// What the agent does never touches what is being typed, and never quits.
pub proof fn an_update_leaves_the_composer_alone(app: AppView, update: crate::app::UpdateView)
    ensures
        app.updated(update).input == app.input,
        app.updated(update).history == app.history,
        app.updated(update).should_quit == app.should_quit,
        app.updated(update).approval == app.approval,
        app.updated(update).model == app.model,
        app.updated(update).effort == app.effort,
{
}

/// A token that was typed past gives its keys back: the list is closed, and nothing else changes.
pub proof fn a_token_that_was_left_keeps_no_key(app: AppView)
    ensures
        app.synced(None).file_search.context is None,
        app.synced(None) == (AppView { file_search: app.synced(None).file_search, ..app }),
{
}

/// A released key does nothing.
pub proof fn a_release_types_nothing(app: AppView, press: KeyPress)
    requires
        press.released,
    ensures
        app.pressed(press) == app,
{
}

/// A question is answered by four keys and by no other: one allows, one allows for good, and the two
/// that deny and escape deny it.
pub proof fn few_keys_answer_a_question(app: AppView, key: Key)
    ensures
        key == Key::Char('y') ==> app.permission_key(key) == app.answered(
            PermissionAnswer::Allow,
            None,
        ),
        key == Key::Char('a') ==> app.permission_key(key) == app.answered(
            PermissionAnswer::AllowAlways,
            None,
        ),
        key == Key::Char('n') || key == Key::Char('d') || key == Key::Esc ==> app.permission_key(key)
            == app.answered(PermissionAnswer::Deny, None),
        key != Key::Char('y') && key != Key::Char('a') && key != Key::Char('n') && key != Key::Char(
            'd',
        ) && key != Key::Esc ==> app.permission_key(key) == app,
{
}

/// With nothing in the way, a letter is typed where the cursor is, and the keys that edit edit the
/// composer and nothing else.
pub proof fn keys_edit_the_composer(app: AppView, press: KeyPress)
    requires
        !press.released,
        !press.control,
        !press.shift,
        !press.alt,
        app.picker is None,
        app.plan is None,
        completions_of(app.commands, app.input).len() == 0,
        app.file_search.context is None,
        open_id(app.transcript.cells) is None,
    ensures
        ({
            let next = app.pressed(press);
            let input = app.input;
            &&& press.key matches Key::Char(c) ==> next == app.typed(input.inserted(seq![c]))
            &&& press.key == Key::Backspace ==> next == app.typed(input.backspaced())
            &&& press.key == Key::Delete ==> next == app.typed(input.deleted())
            &&& press.key == Key::Left ==> next == app.typed(input.left())
            &&& press.key == Key::Right ==> next == app.typed(input.right())
            &&& press.key == Key::Enter ==> next == app.submitted()
            &&& press.key == Key::BackTab ==> next == app.policy_cycled()
            &&& press.key == Key::PageUp ==> next.scroll.top() <= app.scroll.top() && next.input
                == app.input
            &&& press.key == Key::PageDown ==> next.scroll.top() >= app.scroll.top() && next.input
                == app.input
        }),
{
}

/// The wheel moves the view and drops what was selected, the way it is turned; and touches nothing
/// else.
pub proof fn the_wheel_scrolls(app: AppView, row: u16, column: u16)
    ensures
        ({
            let up = app.moused(Mouse { kind: MouseKind::ScrollUp, row, column });
            let down = app.moused(Mouse { kind: MouseKind::ScrollDown, row, column });
            &&& up.scroll.top() <= app.scroll.top() <= down.scroll.top()
            &&& app.scroll.top() >= WHEEL_LINES && app.scroll.tail() > 0 ==> up.scroll.top()
                == app.scroll.top() - WHEEL_LINES
            &&& app.scroll.top() + WHEEL_LINES <= app.scroll.tail() ==> down.scroll.top()
                == app.scroll.top() + WHEEL_LINES
            &&& up.selection.range is None && down.selection.range is None
            &&& up.input == app.input && down.input == app.input
            &&& up.transcript == app.transcript && down.transcript == app.transcript
            &&& up.effects == app.effects && down.effects == app.effects
        }),
{
}

} // verus!
